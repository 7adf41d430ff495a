//! Line-level parsing shared by run records and board snapshots: field
//! lines (`key: value`), section headers (`[name]`), fences
//! (`----- BEGIN X -----` / `----- END X -----`) and the error type that
//! carries where in a file a problem was found.
use vstd::prelude::*;

use crate::text::{chars_of, push_str, trim, trim_range};

verus! {

/// One-based line number within a file, with the file's path.
#[derive(Debug, Clone, PartialEq, Eq)]
pub struct ParseLocation {
    pub path: String,
    pub line_number: usize,
}

impl ParseLocation {
    pub fn new(path: &str, line_number: usize) -> (r: Self)
        ensures
            r.path@ == path@,
            r.line_number == line_number,
    {
        ParseLocation { path: path.to_owned(), line_number }
    }

    /// A copy of this location.
    pub fn duplicate(&self) -> (r: Self)
        ensures
            r.path@ == self.path@,
            r.line_number == self.line_number,
    {
        ParseLocation { path: self.path.clone(), line_number: self.line_number }
    }
}

/// Errors of the line-level parsers and the board-block reader.
#[derive(Debug, Clone, PartialEq, Eq)]
pub enum ParseError {
    UnexpectedEnd { location: ParseLocation, expected: String },
    MalformedFieldLine { location: ParseLocation, line: String },
    DuplicateField { location: ParseLocation, field: String },
    MissingRequiredField { section: String, field: String },
    MalformedSectionHeader { location: ParseLocation, line: String },
    UnexpectedSection { location: ParseLocation, section: String },
    MalformedFence { location: ParseLocation, line: String },
    UnexpectedFenceLabel { location: ParseLocation, expected: String, actual: String },
    UnclosedFence { location: ParseLocation, expected_end_label: String },
    NonAsciiBoardCharacter { location: ParseLocation, character: char },
    UnknownBoardCharacter { location: ParseLocation, character: char },
    RaggedBoardRow { location: ParseLocation, expected_width: usize, actual_width: usize },
    BoardSizeMismatch {
        location: ParseLocation,
        header_size: [usize; 2],
        grid_size: [usize; 2],
    },
    BoardCountMismatch {
        location: ParseLocation,
        field: &'static str,
        header_value: usize,
        grid_value: usize,
    },
    UnknownEncoding { location: ParseLocation, encoding: String },
    UnsupportedSchemaVersion { location: ParseLocation, version: u32 },
}

/// Index of the first `c` in `s`.
pub open spec fn index_of(s: Seq<char>, c: char) -> Option<int>
    decreases s.len(),
{
    if s.len() == 0 {
        None
    } else if s[0] == c {
        Some(0)
    } else {
        match index_of(s.drop_first(), c) {
            Some(i) => Some(i + 1),
            None => None,
        }
    }
}

pub proof fn lemma_index_of(s: Seq<char>, c: char)
    ensures
        match index_of(s, c) {
            Some(i) => 0 <= i < s.len() && s[i] == c && forall|j: int| 0 <= j < i ==> s[j] != c,
            None => forall|j: int| 0 <= j < s.len() ==> s[j] != c,
        },
    decreases s.len(),
{
    if s.len() > 0 {
        lemma_index_of(s.drop_first(), c);
        if s[0] != c {
            match index_of(s.drop_first(), c) {
                Some(i) => {
                    assert forall|j: int| 0 <= j < i + 1 implies s[j] != c by {
                        if j > 0 {
                            assert(s[j] == s.drop_first()[j - 1]);
                        }
                    }
                },
                None => {
                    assert forall|j: int| 0 <= j < s.len() implies s[j] != c by {
                        if j > 0 {
                            assert(s[j] == s.drop_first()[j - 1]);
                        }
                    }
                },
            }
        }
    }
}

/// Index of the first `c` in `cs`.
pub fn find_char(cs: &[char], c: char) -> (r: Option<usize>)
    ensures
        match r {
            Some(i) => index_of(cs@, c) == Some(i as int) && i < cs@.len(),
            None => index_of(cs@, c) is None,
        },
{
    let mut i: usize = 0;
    proof {
        lemma_index_of(cs@, c);
    }
    while i < cs.len()
        invariant
            i <= cs@.len(),
            forall|j: int| 0 <= j < i ==> cs@[j] != c,
            match index_of(cs@, c) {
                Some(k) => 0 <= k < cs@.len() && cs@[k] == c && forall|j: int|
                    0 <= j < k ==> cs@[j] != c,
                None => forall|j: int| 0 <= j < cs@.len() ==> cs@[j] != c,
            },
        decreases cs@.len() - i,
    {
        if cs[i] == c {
            return Some(i);
        }
        i += 1;
    }
    None
}

/// The key and value of a field line: the trimmed text before and after the
/// first `:`; `None` if there is no colon or the key is empty.
pub open spec fn field_line_parts(line: Seq<char>) -> Option<(Seq<char>, Seq<char>)> {
    match index_of(line, ':') {
        None => None,
        Some(i) => {
            let key = trim(line.take(i));
            if key.len() == 0 {
                None
            } else {
                Some((key, trim(line.skip(i + 1))))
            }
        },
    }
}

/// Parses a `key: value` line into its trimmed key and value.
pub fn parse_field_line<'a>(location: ParseLocation, line: &'a str) -> (r: Result<
    (&'a str, &'a str),
    ParseError,
>)
    ensures
        match field_line_parts(line@) {
            Some((k, v)) => r matches Ok((rk, rv)) && rk@ == k && rv@ == v,
            None => r matches Err(ParseError::MalformedFieldLine { location: l, line: t }) && l
                == location && t@ == line@,
        },
{
    let cs = chars_of(line);
    let colon = match find_char(cs.as_slice(), ':') {
        Some(i) => i,
        None => {
            return Err(ParseError::MalformedFieldLine { location, line: line.to_owned() });
        },
    };
    proof {
        lemma_index_of(cs@, ':');
    }
    let (ka, kb) = trim_range(cs.as_slice(), 0, colon);
    proof {
        assert(cs@.subrange(0, colon as int) =~= line@.take(colon as int));
    }
    if ka == kb {
        return Err(ParseError::MalformedFieldLine { location, line: line.to_owned() });
    }
    let (va, vb) = trim_range(cs.as_slice(), colon + 1, cs.len());
    proof {
        assert(cs@.subrange(colon + 1, cs@.len() as int) =~= line@.skip(colon + 1));
    }
    Ok((line.substring_char(ka, kb), line.substring_char(va, vb)))
}

/// The name inside a `[name]` line, trimmed; `None` if the line is not one
/// or the name is empty.
pub open spec fn section_header_name(line: Seq<char>) -> Option<Seq<char>> {
    let t = trim(line);
    if t.len() >= 2 && t[0] == '[' && t.last() == ']' {
        let name = trim(t.subrange(1, t.len() - 1));
        if name.len() == 0 {
            None
        } else {
            Some(name)
        }
    } else {
        None
    }
}

/// Recognizes a `[section]` line and returns the trimmed section name.
#[verifier::spinoff_prover]
#[verifier::rlimit(50)]
pub fn parse_section_header<'a>(line: &'a str) -> (r: Option<&'a str>)
    ensures
        match section_header_name(line@) {
            Some(n) => r matches Some(s) && s@ == n,
            None => r is None,
        },
{
    let cs = chars_of(line);
    let (a, b) = trim_range(cs.as_slice(), 0, cs.len());
    proof {
        assert(cs@.subrange(0, cs@.len() as int) =~= line@);
    }
    if b - a < 2 || cs[a] != '[' || cs[b - 1] != ']' {
        return None;
    }
    let (na, nb) = trim_range(cs.as_slice(), a + 1, b - 1);
    proof {
        let t = cs@.subrange(a as int, b as int);
        assert(t.subrange(1, t.len() - 1) =~= cs@.subrange(a + 1, b - 1));
    }
    if na == nb {
        return None;
    }
    Some(line.substring_char(na, nb))
}

pub open spec fn dashes() -> Seq<char> {
    seq!['-', '-', '-', '-', '-']
}

/// The label of a `----- KEYWORD label -----` line: the line is trimmed,
/// five dashes are taken from each end, the rest is trimmed, must start
/// with the keyword, and what follows, trimmed, must not be empty.
pub open spec fn fence_label(line: Seq<char>, keyword: Seq<char>) -> Option<Seq<char>> {
    let t = trim(line);
    if t.len() >= 10 && t.take(5) == dashes() && t.skip(t.len() - 5) == dashes() {
        let inner = trim(t.subrange(5, t.len() - 5));
        if inner.len() >= keyword.len() && inner.take(keyword.len() as int) == keyword {
            let label = trim(inner.skip(keyword.len() as int));
            if label.len() == 0 {
                None
            } else {
                Some(label)
            }
        } else {
            None
        }
    } else {
        None
    }
}

/// Whether `cs[from..from + p.len()]` is `p`.
fn matches_at(cs: &[char], from: usize, p: &[char]) -> (r: bool)
    requires
        from + p@.len() <= cs@.len(),
    ensures
        r == (cs@.subrange(from as int, from + p@.len()) == p@),
{
    let n = cs.len();
    let mut i: usize = 0;
    while i < p.len()
        invariant
            i <= p@.len(),
            n == cs@.len(),
            from + p@.len() <= n,
            forall|j: int| 0 <= j < i ==> cs@[from + j] == p@[j],
        decreases p@.len() - i,
    {
        if cs[from + i] != p[i] {
            proof {
                assert(cs@.subrange(from as int, from + p@.len())[i as int] != p@[i as int]);
            }
            return false;
        }
        i += 1;
    }
    proof {
        assert(cs@.subrange(from as int, from + p@.len()) =~= p@);
    }
    true
}

#[verifier::spinoff_prover]
#[verifier::rlimit(50)]
fn parse_fence<'a>(line: &'a str, keyword: &[char]) -> (r: Option<&'a str>)
    ensures
        match fence_label(line@, keyword@) {
            Some(l) => r matches Some(s) && s@ == l,
            None => r is None,
        },
{
    let cs = chars_of(line);
    let (a, b) = trim_range(cs.as_slice(), 0, cs.len());
    proof {
        assert(cs@.subrange(0, cs@.len() as int) =~= line@);
    }
    let ghost t = cs@.subrange(a as int, b as int);
    let dash = ['-', '-', '-', '-', '-'];
    proof {
        assert(dash@ =~= dashes());
    }
    if b - a < 10 {
        return None;
    }
    let head = matches_at(cs.as_slice(), a, &dash);
    let tail = matches_at(cs.as_slice(), b - 5, &dash);
    proof {
        assert(t.take(5) =~= cs@.subrange(a as int, a + 5));
        assert(t.skip(t.len() - 5) =~= cs@.subrange(b - 5, b as int));
    }
    if !head || !tail {
        return None;
    }
    let (ia, ib) = trim_range(cs.as_slice(), a + 5, b - 5);
    proof {
        assert(t.subrange(5, t.len() - 5) =~= cs@.subrange(a + 5, b - 5));
    }
    let ghost inner = cs@.subrange(ia as int, ib as int);
    if ib - ia < keyword.len() {
        return None;
    }
    let kw = matches_at(cs.as_slice(), ia, keyword);
    proof {
        assert(inner.take(keyword@.len() as int) =~= cs@.subrange(ia as int, ia + keyword@.len()));
    }
    if !kw {
        return None;
    }
    let (la, lb) = trim_range(cs.as_slice(), ia + keyword.len(), ib);
    proof {
        assert(inner.skip(keyword@.len() as int) =~= cs@.subrange(ia + keyword@.len(), ib as int));
    }
    if la == lb {
        return None;
    }
    Some(line.substring_char(la, lb))
}

pub open spec fn begin_keyword() -> Seq<char> {
    seq!['B', 'E', 'G', 'I', 'N']
}

pub open spec fn end_keyword() -> Seq<char> {
    seq!['E', 'N', 'D']
}

/// Recognizes a `----- BEGIN <LABEL> -----` line and returns the label.
pub fn parse_begin_fence<'a>(line: &'a str) -> (r: Option<&'a str>)
    ensures
        match fence_label(line@, begin_keyword()) {
            Some(l) => r matches Some(s) && s@ == l,
            None => r is None,
        },
{
    let kw = ['B', 'E', 'G', 'I', 'N'];
    proof {
        assert(kw@ =~= begin_keyword());
    }
    parse_fence(line, &kw)
}

/// Recognizes a `----- END <LABEL> -----` line and returns the label.
pub fn parse_end_fence<'a>(line: &'a str) -> (r: Option<&'a str>)
    ensures
        match fence_label(line@, end_keyword()) {
            Some(l) => r matches Some(s) && s@ == l,
            None => r is None,
        },
{
    let kw = ['E', 'N', 'D'];
    proof {
        assert(kw@ =~= end_keyword());
    }
    parse_fence(line, &kw)
}

/// The canonical fence line `----- KEYWORD label -----`.
pub open spec fn fence_text(keyword: Seq<char>, label: Seq<char>) -> Seq<char> {
    dashes() + seq![' '] + keyword + seq![' '] + label + seq![' '] + dashes()
}

/// Renders the canonical BEGIN fence line for a label.
pub fn format_begin_fence(label: &str) -> (r: String)
    ensures
        r@ == fence_text(begin_keyword(), label@),
{
    let mut s = String::new();
    push_str(&mut s, "----- BEGIN ");
    push_str(&mut s, label);
    push_str(&mut s, " -----");
    proof {
        reveal_strlit("----- BEGIN ");
        reveal_strlit(" -----");
        assert(s@ =~= fence_text(begin_keyword(), label@));
    }
    s
}

/// Renders the canonical END fence line for a label.
pub fn format_end_fence(label: &str) -> (r: String)
    ensures
        r@ == fence_text(end_keyword(), label@),
{
    let mut s = String::new();
    push_str(&mut s, "----- END ");
    push_str(&mut s, label);
    push_str(&mut s, " -----");
    proof {
        reveal_strlit("----- END ");
        reveal_strlit(" -----");
        assert(s@ =~= fence_text(end_keyword(), label@));
    }
    s
}

/// `s` without one trailing carriage return.
pub open spec fn without_trailing_cr(s: Seq<char>) -> Seq<char> {
    if s.len() > 0 && s.last() == '\r' {
        s.drop_last()
    } else {
        s
    }
}

/// Strips a single trailing `\r`, for tolerance of CRLF input.
pub fn strip_trailing_cr<'a>(s: &'a str) -> (r: &'a str)
    ensures
        r@ == without_trailing_cr(s@),
{
    let n = s.unicode_len();
    if n > 0 && s.get_char(n - 1) == '\r' {
        s.substring_char(0, n - 1)
    } else {
        s
    }
}

} // verus!
