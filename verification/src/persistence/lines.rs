//! The lines of a file body and a cursor over them.
//!
//! A body is split after each `\n`; the content of a line is what is left
//! without its `\n` and one `\r` before it. A blank line is one whose content
//! is all white space.
use vstd::prelude::*;

use crate::persistence::parser::{index_of, lemma_index_of, without_trailing_cr, ParseLocation};
use crate::text::{chars_of, trim};

verus! {

/// The body `s` split after each `\n` (the last line may lack one).
pub open spec fn split_lines(s: Seq<char>) -> Seq<Seq<char>>
    decreases s.len(),
{
    if s.len() == 0 {
        Seq::empty()
    } else {
        match index_of(s, '\n') {
            Some(i) => {
                proof {
                    lemma_index_of(s, '\n');
                }
                seq![s.take(i + 1)] + split_lines(s.skip(i + 1))
            },
            None => seq![s],
        }
    }
}

/// A line without its `\n` and then one `\r`.
pub open spec fn line_content(l: Seq<char>) -> Seq<char> {
    without_trailing_cr(
        if l.len() > 0 && l.last() == '\n' {
            l.drop_last()
        } else {
            l
        },
    )
}

/// The contents of the lines of `s`.
pub open spec fn body_lines(s: Seq<char>) -> Seq<Seq<char>> {
    split_lines(s).map_values(|l: Seq<char>| line_content(l))
}

pub open spec fn is_blank(l: Seq<char>) -> bool {
    trim(l).len() == 0
}

/// The first non-blank line at or after `k` (or the number of lines).
pub open spec fn next_nonblank(lines: Seq<Seq<char>>, k: nat) -> nat
    decreases lines.len() - k,
{
    if k >= lines.len() {
        k
    } else if is_blank(lines[k as int]) {
        next_nonblank(lines, k + 1)
    } else {
        k
    }
}

pub proof fn lemma_next_nonblank(lines: Seq<Seq<char>>, k: nat)
    requires
        k <= lines.len(),
    ensures
        k <= next_nonblank(lines, k) <= lines.len(),
        next_nonblank(lines, k) < lines.len() ==> !is_blank(lines[next_nonblank(lines, k) as int]),
    decreases lines.len() - k,
{
    if k < lines.len() && is_blank(lines[k as int]) {
        lemma_next_nonblank(lines, k + 1);
    }
}

/// The one-based number of line `k`, held in a `usize`.
pub open spec fn one_based(k: nat) -> usize {
    if k < usize::MAX {
        (k + 1) as usize
    } else {
        usize::MAX
    }
}

pub proof fn lemma_split_step(s: Seq<char>, k: int)
    requires
        0 <= k < s.len(),
        s[k] == '\n',
        forall|j: int| 0 <= j < k ==> s[j] != '\n',
    ensures
        split_lines(s) == seq![s.take(k + 1)] + split_lines(s.skip(k + 1)),
{
    lemma_index_of(s, '\n');
}

pub proof fn lemma_split_last(s: Seq<char>)
    requires
        s.len() > 0,
        forall|j: int| 0 <= j < s.len() ==> s[j] != '\n',
    ensures
        split_lines(s) == seq![s],
{
    lemma_index_of(s, '\n');
}

/// A cursor over the lines of a body, with line numbers for errors.
pub struct LineCursor {
    path: String,
    lines: Vec<String>,
    cursor: usize,
    last_consumed_line: usize,
}

/// The content of the line `cs[from..to]` (which holds no `\n` but maybe
/// the one at its end).
fn content_of(cs: &[char], from: usize, to: usize) -> (r: String)
    requires
        from <= to <= cs@.len(),
    ensures
        r@ == line_content(cs@.subrange(from as int, to as int)),
{
    let mut end = to;
    if end > from && cs[end - 1] == '\n' {
        end = end - 1;
    }
    if end > from && cs[end - 1] == '\r' {
        end = end - 1;
    }
    proof {
        let l = cs@.subrange(from as int, to as int);
        if to > from && cs@[to - 1] == '\n' {
            assert(l.drop_last() =~= cs@.subrange(from as int, to - 1));
        }
        let m = if l.len() > 0 && l.last() == '\n' {
            l.drop_last()
        } else {
            l
        };
        if m.len() > 0 && m.last() == '\r' {
            assert(m.drop_last() =~= cs@.subrange(from as int, end as int));
        } else {
            assert(m =~= cs@.subrange(from as int, end as int));
        }
    }
    crate::board::board_size::string_of_range(cs, from, end)
}

impl LineCursor {
    #[verifier::type_invariant]
    spec fn wf(self) -> bool {
        self.cursor <= self.lines@.len()
    }

    /// The contents of all lines.
    pub closed spec fn lines_view(&self) -> Seq<Seq<char>> {
        self.lines@.map_values(|s: String| s@)
    }

    /// Index of the next line to read.
    pub closed spec fn pos(&self) -> nat {
        self.cursor as nat
    }

    /// One-based number of the line read last (0 before any).
    pub closed spec fn last(&self) -> nat {
        self.last_consumed_line as nat
    }

    pub closed spec fn path_view(&self) -> Seq<char> {
        self.path@
    }

    /// Index of the next line to read.
    pub fn position(&self) -> (r: usize)
        ensures
            r == self.pos(),
            self.pos() <= self.lines_view().len(),
    {
        proof {
            use_type_invariant(self);
        }
        self.cursor
    }

    /// Number of lines.
    pub fn line_count(&self) -> (r: usize)
        ensures
            r == self.lines_view().len(),
    {
        self.lines.len()
    }

    /// A cursor at the first line of `body`.
    pub fn new(path: &str, body: &str) -> (r: Self)
        ensures
            r.lines_view() == body_lines(body@),
            r.pos() == 0,
            r.last() == 0,
            r.path_view() == path@,
    {
        let cs = chars_of(body);
        let n = cs.len();
        let mut lines: Vec<String> = Vec::new();
        let ghost mut raw: Seq<Seq<char>> = Seq::empty();
        let mut start: usize = 0;
        let mut i: usize = 0;
        proof {
            assert(cs@.skip(0) =~= cs@);
        }
        while i < n
            invariant
                n == cs@.len(),
                start <= i <= n,
                split_lines(cs@) == raw + split_lines(cs@.skip(start as int)),
                lines@.len() == raw.len(),
                forall|k: int| 0 <= k < raw.len() ==> #[trigger] lines@[k]@ == line_content(raw[k]),
                forall|j: int| start <= j < i ==> cs@[j] != '\n',
            decreases n - i,
        {
            if cs[i] == '\n' {
                proof {
                    let t = cs@.skip(start as int);
                    assert forall|j: int| 0 <= j < i - start implies t[j] != '\n' by {
                        assert(t[j] == cs@[start + j]);
                    }
                    lemma_split_step(t, i - start);
                    assert(t.take(i - start + 1) =~= cs@.subrange(start as int, i + 1));
                    assert(t.skip(i - start + 1) =~= cs@.skip(i + 1));
                }
                let line = content_of(cs.as_slice(), start, i + 1);
                lines.push(line);
                proof {
                    let l = cs@.subrange(start as int, i + 1);
                    assert(raw.push(l) + split_lines(cs@.skip(i + 1)) =~= raw + (seq![l] + split_lines(
                        cs@.skip(i + 1),
                    )));
                    raw = raw.push(l);
                }
                start = i + 1;
            }
            i += 1;
        }
        if start < n {
            proof {
                let t = cs@.skip(start as int);
                assert forall|j: int| 0 <= j < t.len() implies t[j] != '\n' by {
                    assert(t[j] == cs@[start + j]);
                }
                lemma_split_last(t);
                assert(t =~= cs@.subrange(start as int, n as int));
            }
            let line = content_of(cs.as_slice(), start, n);
            lines.push(line);
            proof {
                let l = cs@.subrange(start as int, n as int);
                assert(raw.push(l) =~= raw + seq![l]);
                raw = raw.push(l);
            }
        } else {
            proof {
                assert(cs@.skip(start as int).len() == 0);
                assert(raw + split_lines(cs@.skip(start as int)) =~= raw);
            }
        }
        proof {
            assert(lines@.map_values(|s: String| s@) =~= raw.map_values(|l: Seq<char>| line_content(l)));
        }
        LineCursor { path: path.to_owned(), lines, cursor: 0, last_consumed_line: 0 }
    }

    /// Location of the next line to read.
    pub fn current_location(&self) -> (r: ParseLocation)
        ensures
            r.path@ == self.path_view(),
            r.line_number == one_based(self.pos()),
    {
        let n = if self.cursor < usize::MAX {
            self.cursor + 1
        } else {
            usize::MAX
        };
        ParseLocation::new(self.path.as_str(), n)
    }

    /// Location of the line read last (line 1 before any).
    pub fn last_consumed_location(&self) -> (r: ParseLocation)
        ensures
            r.path@ == self.path_view(),
            r.line_number == if self.last() == 0 {
                1
            } else {
                self.last()
            },
    {
        let n = if self.last_consumed_line == 0 {
            1
        } else {
            self.last_consumed_line
        };
        ParseLocation::new(self.path.as_str(), n)
    }

    /// Location reported at the end of the body: the last line (line 1 for
    /// an empty body).
    pub fn eof_location(&self) -> (r: ParseLocation)
        ensures
            r.path@ == self.path_view(),
            r.line_number == if self.lines_view().len() == 0 {
                1
            } else {
                self.lines_view().len()
            },
    {
        let n = if self.lines.len() == 0 {
            1
        } else {
            self.lines.len()
        };
        ParseLocation::new(self.path.as_str(), n)
    }

    /// Skips blank lines and returns the next line without reading it.
    pub fn peek_logical(&mut self) -> (r: Option<String>)
        ensures
            final(self).lines_view() == old(self).lines_view(),
            final(self).path_view() == old(self).path_view(),
            final(self).last() == old(self).last(),
            final(self).pos() == next_nonblank(old(self).lines_view(), old(self).pos()),
            match r {
                Some(l) => final(self).pos() < final(self).lines_view().len() && l@ == final(self).lines_view()[final(self).pos() as int],
                None => final(self).pos() == final(self).lines_view().len(),
            },
    {
        proof {
            use_type_invariant(&*self);
            lemma_next_nonblank(self.lines_view(), self.pos());
        }
        let ghost lines = self.lines_view();
        let mut found = false;
        while !found && self.cursor < self.lines.len()
            invariant
                self.lines_view() == lines,
                self.path_view() == old(self).path_view(),
                self.last() == old(self).last(),
                self.cursor <= self.lines@.len(),
                found ==> self.cursor < self.lines@.len() && !is_blank(lines[self.cursor as int]),
                !found ==> next_nonblank(lines, self.pos()) == next_nonblank(lines, old(self).pos()),
                found ==> self.pos() == next_nonblank(lines, old(self).pos()),
            decreases self.lines@.len() - self.cursor, if found { 0int } else { 1int },
        {
            let t = crate::text::trim_str(self.lines[self.cursor].as_str());
            proof {
                assert(lines[self.cursor as int] == self.lines@[self.cursor as int]@);
            }
            if t.unicode_len() == 0 {
                self.cursor = self.cursor + 1;
            } else {
                found = true;
            }
        }
        if found {
            Some(self.lines[self.cursor].clone())
        } else {
            None
        }
    }

    /// Reads the next line, whatever it holds.
    pub fn consume(&mut self)
        ensures
            final(self).lines_view() == old(self).lines_view(),
            final(self).path_view() == old(self).path_view(),
            old(self).pos() < old(self).lines_view().len() ==> final(self).pos() == old(self).pos()
                + 1 && final(self).last() == one_based(old(self).pos()),
            old(self).pos() >= old(self).lines_view().len() ==> final(self).pos() == old(self).pos()
                && final(self).last() == old(self).last(),
    {
        proof {
            use_type_invariant(&*self);
        }
        if self.cursor < self.lines.len() {
            self.last_consumed_line = if self.cursor < usize::MAX {
                self.cursor + 1
            } else {
                usize::MAX
            };
            self.cursor = self.cursor + 1;
        }
    }

    /// Skips blank lines and reads the next line.
    pub fn next_logical(&mut self) -> (r: Option<String>)
        ensures
            final(self).lines_view() == old(self).lines_view(),
            final(self).path_view() == old(self).path_view(),
            ({
                let k = next_nonblank(old(self).lines_view(), old(self).pos());
                if k < old(self).lines_view().len() {
                    r matches Some(l) && l@ == old(self).lines_view()[k as int] && final(self).pos()
                        == k + 1 && final(self).last() == one_based(k)
                } else {
                    r is None && final(self).pos() == k && final(self).last() == old(self).last()
                }
            }),
    {
        match self.peek_logical() {
            Some(line) => {
                self.consume();
                Some(line)
            },
            None => None,
        }
    }

    /// Reads the next line without skipping blank ones.
    pub fn next_raw(&mut self) -> (r: Option<String>)
        ensures
            final(self).lines_view() == old(self).lines_view(),
            final(self).path_view() == old(self).path_view(),
            if old(self).pos() < old(self).lines_view().len() {
                r matches Some(l) && l@ == old(self).lines_view()[old(self).pos() as int]
                    && final(self).pos() == old(self).pos() + 1 && final(self).last() == one_based(
                    old(self).pos(),
                )
            } else {
                r is None && final(self).pos() == old(self).pos() && final(self).last() == old(self).last()
            },
    {
        proof {
            use_type_invariant(&*self);
        }
        if self.cursor < self.lines.len() {
            let line = self.lines[self.cursor].clone();
            self.consume();
            Some(line)
        } else {
            None
        }
    }
}

} // verus!
