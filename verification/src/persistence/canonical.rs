//! The canonical form of a run record's text and its `content_hash` trailer.
//!
//! Canonical text has LF line ends, no trailing white space on any line, and
//! exactly one newline at its end.
use vstd::prelude::*;

use crate::persistence::hash::{parse_hash, parse_hash_spec};
use crate::persistence::parser::{index_of, lemma_index_of, without_trailing_cr};
use crate::persistence::text_lines::join_lines;
use crate::text::{char_is_ws, chars_of, is_ws, string_of, trim, trim_end, trim_start};

verus! {

/// `s` split at each `\n` (what `str::split('\n')` yields).
pub open spec fn pieces(s: Seq<char>) -> Seq<Seq<char>>
    decreases s.len(),
{
    match index_of(s, '\n') {
        Some(i) => {
            proof {
                lemma_index_of(s, '\n');
            }
            seq![s.take(i)] + pieces(s.skip(i + 1))
        },
        None => seq![s],
    }
}

/// The pieces joined back with `\n` between them.
pub open spec fn joined(ps: Seq<Seq<char>>) -> Seq<char>
    decreases ps.len(),
{
    if ps.len() == 0 {
        Seq::empty()
    } else if ps.len() == 1 {
        ps[0]
    } else {
        ps[0] + seq!['\n'] + joined(ps.drop_first())
    }
}

/// A line without a trailing `\r` and then without trailing white space.
pub open spec fn canonical_line(p: Seq<char>) -> Seq<char> {
    trim_end(without_trailing_cr(p))
}

/// `s` with runs of newlines at its end cut down to one.
pub open spec fn squeeze_end(s: Seq<char>) -> Seq<char>
    decreases s.len(),
{
    if s.len() >= 2 && s.last() == '\n' && s[s.len() - 2] == '\n' {
        squeeze_end(s.drop_last())
    } else {
        s
    }
}

/// The canonical form of a body.
pub open spec fn canonical_text(body: Seq<char>) -> Seq<char> {
    let j = squeeze_end(joined(pieces(body).map_values(|p: Seq<char>| canonical_line(p))));
    if j.len() > 0 && j.last() == '\n' {
        j
    } else {
        j.push('\n')
    }
}

/// Number of pieces left once trailing empty ones are dropped.
pub open spec fn kept(ls: Seq<Seq<char>>) -> nat
    decreases ls.len(),
{
    if ls.len() > 0 && ls.last().len() == 0 {
        kept(ls.drop_last())
    } else {
        ls.len()
    }
}

/// The hash of a `content_hash: <hash>` line (white space allowed before
/// the colon and around the hash).
pub open spec fn trailer_hash(line: Seq<char>) -> Option<u64> {
    let name = "content_hash"@;
    if line.len() >= name.len() && line.take(name.len() as int) == name {
        let rest = trim_start(line.skip(name.len() as int));
        if rest.len() > 0 && rest[0] == ':' {
            parse_hash_spec(trim(rest.drop_first()))
        } else {
            None
        }
    } else {
        None
    }
}

/// The canonical text without its trailer, and the trailer's hash: the last
/// non-empty line, if it is a `content_hash` line, is cut off with the empty
/// lines before it.
pub open spec fn trailer_split(c: Seq<char>) -> (Seq<char>, Option<u64>) {
    let ls = pieces(c);
    let idx = kept(ls);
    if idx == 0 {
        (c, None)
    } else {
        match trailer_hash(ls[idx - 1]) {
            None => (c, None),
            Some(h) => {
                let body = ls.take(idx - 1);
                (join_lines(body.take(kept(body) as int)), Some(h))
            },
        }
    }
}

pub proof fn lemma_pieces_step(s: Seq<char>, k: int)
    requires
        0 <= k < s.len(),
        s[k] == '\n',
        forall|j: int| 0 <= j < k ==> s[j] != '\n',
    ensures
        pieces(s) == seq![s.take(k)] + pieces(s.skip(k + 1)),
{
    lemma_index_of(s, '\n');
}

pub proof fn lemma_pieces_last(s: Seq<char>)
    requires
        forall|j: int| 0 <= j < s.len() ==> s[j] != '\n',
    ensures
        pieces(s) == seq![s],
{
    lemma_index_of(s, '\n');
}

pub proof fn lemma_pieces_nonempty(s: Seq<char>)
    ensures
        pieces(s).len() >= 1,
    decreases s.len(),
{
    lemma_index_of(s, '\n');
    if let Some(i) = index_of(s, '\n') {
        lemma_pieces_nonempty(s.skip(i + 1));
    }
}

proof fn lemma_kept_bound(ls: Seq<Seq<char>>)
    ensures
        kept(ls) <= ls.len(),
        kept(ls) > 0 ==> ls[kept(ls) - 1].len() > 0,
        forall|i: int| kept(ls) <= i < ls.len() ==> #[trigger] ls[i].len() == 0,
    decreases ls.len(),
{
    if ls.len() > 0 && ls.last().len() == 0 {
        lemma_kept_bound(ls.drop_last());
        assert forall|i: int| kept(ls) <= i < ls.len() implies #[trigger] ls[i].len() == 0 by {
            if i < ls.len() - 1 {
                assert(ls[i] == ls.drop_last()[i]);
            }
        }
    }
}

/// End of `cs[from..to]` once trailing white space is trimmed.
fn trim_end_index(cs: &[char], from: usize, to: usize) -> (e: usize)
    requires
        from <= to <= cs@.len(),
    ensures
        from <= e <= to,
        cs@.subrange(from as int, e as int) == trim_end(cs@.subrange(from as int, to as int)),
{
    let mut e = to;
    while e > from && char_is_ws(cs[e - 1])
        invariant
            from <= e <= to <= cs@.len(),
            trim_end(cs@.subrange(from as int, to as int)) == trim_end(
                cs@.subrange(from as int, e as int),
            ),
        decreases e - from,
    {
        proof {
            let t = cs@.subrange(from as int, e as int);
            assert(t.drop_last() =~= cs@.subrange(from as int, e - 1));
        }
        e -= 1;
    }
    e
}

/// End of the canonical form of the line `cs[from..to]`.
fn canonical_line_end(cs: &[char], from: usize, to: usize) -> (e: usize)
    requires
        from <= to <= cs@.len(),
    ensures
        from <= e <= to,
        cs@.subrange(from as int, e as int) == canonical_line(cs@.subrange(from as int, to as int)),
{
    let end = if to > from && cs[to - 1] == '\r' {
        to - 1
    } else {
        to
    };
    proof {
        let t = cs@.subrange(from as int, to as int);
        if to > from && cs@[to - 1] == '\r' {
            assert(t.drop_last() =~= cs@.subrange(from as int, end as int));
        }
    }
    trim_end_index(cs, from, end)
}

fn push_range(out: &mut Vec<char>, cs: &[char], from: usize, to: usize)
    requires
        from <= to <= cs@.len(),
    ensures
        final(out)@ == old(out)@ + cs@.subrange(from as int, to as int),
{
    let mut i = from;
    while i < to
        invariant
            from <= i <= to <= cs@.len(),
            out@ == old(out)@ + cs@.subrange(from as int, i as int),
        decreases to - i,
    {
        out.push(cs[i]);
        i += 1;
        proof {
            assert(out@ =~= old(out)@ + cs@.subrange(from as int, i as int));
        }
    }
}

proof fn lemma_joined_cons(a: Seq<char>, rest: Seq<Seq<char>>)
    requires
        rest.len() >= 1,
    ensures
        joined(seq![a] + rest) == a + seq!['\n'] + joined(rest),
{
    assert((seq![a] + rest).drop_first() =~= rest);
}

/// The canonical form of `body`.
pub fn canonicalize_body(body: &str) -> (r: String)
    ensures
        r@ == canonical_text(body@),
{
    let cs = chars_of(body);
    let n = cs.len();
    let ghost f = |p: Seq<char>| canonical_line(p);
    let mut out: Vec<char> = Vec::new();
    let mut start: usize = 0;
    let mut i: usize = 0;
    proof {
        assert(cs@.skip(0) =~= cs@);
    }
    while i < n
        invariant
            n == cs@.len(),
            start <= i <= n,
            f == (|p: Seq<char>| canonical_line(p)),
            joined(pieces(cs@).map_values(f)) == out@ + joined(
                pieces(cs@.skip(start as int)).map_values(f),
            ),
            forall|j: int| start <= j < i ==> cs@[j] != '\n',
        decreases n - i,
    {
        if cs[i] == '\n' {
            let ghost before = out@;
            let e = canonical_line_end(cs.as_slice(), start, i);
            push_range(&mut out, cs.as_slice(), start, e);
            out.push('\n');
            proof {
                let t = cs@.skip(start as int);
                assert forall|j: int| 0 <= j < i - start implies t[j] != '\n' by {
                    assert(t[j] == cs@[start + j]);
                }
                lemma_pieces_step(t, i - start);
                assert(t.take(i - start) =~= cs@.subrange(start as int, i as int));
                assert(t.skip(i - start + 1) =~= cs@.skip(i + 1));
                let rest = pieces(cs@.skip(i + 1));
                lemma_pieces_nonempty(cs@.skip(i + 1));
                assert(pieces(t).map_values(f) =~= seq![f(t.take(i - start))] + rest.map_values(f));
                lemma_joined_cons(f(t.take(i - start)), rest.map_values(f));
                assert(out@ =~= before + canonical_line(cs@.subrange(start as int, i as int)) + seq!['\n']);
            }
            start = i + 1;
        }
        i += 1;
    }
    let e = canonical_line_end(cs.as_slice(), start, n);
    let ghost before = out@;
    push_range(&mut out, cs.as_slice(), start, e);
    proof {
        let t = cs@.skip(start as int);
        assert forall|j: int| 0 <= j < t.len() implies t[j] != '\n' by {
            assert(t[j] == cs@[start + j]);
        }
        lemma_pieces_last(t);
        assert(t =~= cs@.subrange(start as int, n as int));
        assert(pieces(t).map_values(f) =~= seq![f(t)]);
        assert(joined(pieces(cs@).map_values(f)) == out@);
    }
    let ghost j = out@;
    while out.len() >= 2 && out[out.len() - 1] == '\n' && out[out.len() - 2] == '\n'
        invariant
            squeeze_end(j) == squeeze_end(out@),
        decreases out@.len(),
    {
        proof {
            assert(out@.drop_last() =~= out@.subrange(0, out@.len() - 1));
        }
        out.pop();
        proof {
            assert(squeeze_end(j) == squeeze_end(out@));
        }
    }
    if out.len() == 0 || out[out.len() - 1] != '\n' {
        out.push('\n');
    }
    string_of(out.as_slice())
}

/// Splits `s` at each `\n`.
pub fn split_pieces(s: &str) -> (r: Vec<String>)
    ensures
        r@.len() == pieces(s@).len(),
        forall|k: int| 0 <= k < r@.len() ==> #[trigger] r@[k]@ == pieces(s@)[k],
{
    let cs = chars_of(s);
    let n = cs.len();
    let mut out: Vec<String> = Vec::new();
    let ghost mut done: Seq<Seq<char>> = Seq::empty();
    let mut start: usize = 0;
    let mut i: usize = 0;
    proof {
        assert(cs@.skip(0) =~= cs@);
    }
    while i < n
        invariant
            n == cs@.len(),
            start <= i <= n,
            pieces(cs@) == done + pieces(cs@.skip(start as int)),
            out@.len() == done.len(),
            forall|k: int| 0 <= k < done.len() ==> #[trigger] out@[k]@ == done[k],
            forall|j: int| start <= j < i ==> cs@[j] != '\n',
        decreases n - i,
    {
        if cs[i] == '\n' {
            let mut piece: Vec<char> = Vec::new();
            push_range(&mut piece, cs.as_slice(), start, i);
            out.push(string_of(piece.as_slice()));
            proof {
                let t = cs@.skip(start as int);
                assert forall|j: int| 0 <= j < i - start implies t[j] != '\n' by {
                    assert(t[j] == cs@[start + j]);
                }
                lemma_pieces_step(t, i - start);
                assert(t.take(i - start) =~= cs@.subrange(start as int, i as int));
                assert(t.skip(i - start + 1) =~= cs@.skip(i + 1));
                let p = cs@.subrange(start as int, i as int);
                assert(done.push(p) + pieces(cs@.skip(i + 1)) =~= done + (seq![p] + pieces(
                    cs@.skip(i + 1),
                )));
                done = done.push(p);
            }
            start = i + 1;
        }
        i += 1;
    }
    let mut piece: Vec<char> = Vec::new();
    push_range(&mut piece, cs.as_slice(), start, n);
    out.push(string_of(piece.as_slice()));
    proof {
        let t = cs@.skip(start as int);
        assert forall|j: int| 0 <= j < t.len() implies t[j] != '\n' by {
            assert(t[j] == cs@[start + j]);
        }
        lemma_pieces_last(t);
        assert(t =~= cs@.subrange(start as int, n as int));
        done = done.push(t);
    }
    out
}

/// The hash of a `content_hash:` trailer line, if the line is one.
fn trailer_line_hash(line: &str) -> (r: Option<u64>)
    ensures
        r == trailer_hash(line@),
{
    let cs = chars_of(line);
    let name = chars_of("content_hash");
    proof {
        reveal_strlit("content_hash");
        assert("content_hash"@.len() == 12);
    }
    if cs.len() < name.len() {
        return None;
    }
    let mut k: usize = 0;
    while k < name.len()
        invariant
            name@ == "content_hash"@,
            cs@ == line@,
            cs@.len() >= name@.len(),
            k <= name@.len(),
            forall|j: int| 0 <= j < k ==> cs@[j] == name@[j],
        decreases name@.len() - k,
    {
        if cs[k] != name[k] {
            proof {
                assert(cs@.take(name@.len() as int)[k as int] != name@[k as int]);
                assert(cs@.take(name@.len() as int) != name@);
            }
            return None;
        }
        k += 1;
    }
    proof {
        assert(cs@.take(name@.len() as int) =~= name@);
    }
    let mut a = name.len();
    while a < cs.len() && char_is_ws(cs[a])
        invariant
            name@ == "content_hash"@,
            name@.len() <= a <= cs@.len(),
            trim_start(cs@.skip(name@.len() as int)) == trim_start(cs@.skip(a as int)),
        decreases cs@.len() - a,
    {
        proof {
            assert(cs@.skip(a as int).drop_first() =~= cs@.skip(a + 1));
        }
        a += 1;
    }
    proof {
        if a == cs@.len() {
            assert(cs@.skip(a as int).len() == 0);
        }
    }
    if a >= cs.len() || cs[a] != ':' {
        return None;
    }
    let mut rest: Vec<char> = Vec::new();
    push_range(&mut rest, cs.as_slice(), a + 1, cs.len());
    proof {
        assert(cs@.skip(a as int).drop_first() =~= cs@.subrange(a + 1, cs@.len() as int));
    }
    let rest_text = string_of(rest.as_slice());
    let trimmed = crate::text::trim_str(rest_text.as_str());
    match parse_hash(trimmed) {
        Ok(h) => Some(h),
        Err(_) => None,
    }
}

/// `kept` of the first `upto` lines.
fn kept_count(lines: &Vec<String>, Ghost(ls): Ghost<Seq<Seq<char>>>, upto: usize) -> (r: usize)
    requires
        upto <= lines@.len() == ls.len(),
        forall|k: int| 0 <= k < lines@.len() ==> #[trigger] lines@[k]@ == ls[k],
    ensures
        r == kept(ls.take(upto as int)),
        r <= upto,
{
    let mut idx = upto;
    proof {
        assert(ls.take(upto as int).take(upto as int) =~= ls.take(upto as int));
    }
    while idx > 0 && lines[idx - 1].unicode_len() == 0
        invariant
            idx <= upto <= lines@.len() == ls.len(),
            forall|k: int| 0 <= k < lines@.len() ==> #[trigger] lines@[k]@ == ls[k],
            kept(ls.take(upto as int)) == kept(ls.take(idx as int)),
        decreases idx,
    {
        proof {
            assert(ls.take(idx as int).drop_last() =~= ls.take(idx - 1));
        }
        idx -= 1;
    }
    idx
}

/// The first `end` lines, each followed by a newline.
fn join_prefix(lines: &Vec<String>, Ghost(ls): Ghost<Seq<Seq<char>>>, end: usize) -> (r: String)
    requires
        end <= lines@.len() == ls.len(),
        forall|k: int| 0 <= k < lines@.len() ==> #[trigger] lines@[k]@ == ls[k],
    ensures
        r@ == join_lines(ls.take(end as int)),
{
    let mut rebuilt = String::new();
    let mut k: usize = 0;
    proof {
        assert(ls.take(0) =~= Seq::<Seq<char>>::empty());
    }
    while k < end
        invariant
            k <= end <= lines@.len() == ls.len(),
            forall|q: int| 0 <= q < lines@.len() ==> #[trigger] lines@[q]@ == ls[q],
            rebuilt@ == join_lines(ls.take(k as int)),
        decreases end - k,
    {
        crate::text::push_str(&mut rebuilt, lines[k].as_str());
        crate::text::push_char(&mut rebuilt, '\n');
        proof {
            crate::persistence::text_lines::lemma_join_lines_append(
                ls.take(k as int),
                seq![ls[k as int]],
            );
            crate::persistence::text_lines::lemma_join_lines_one(ls[k as int]);
            assert(ls.take(k + 1) =~= ls.take(k as int) + seq![ls[k as int]]);
        }
        k += 1;
    }
    rebuilt
}

/// Splits the `content_hash` trailer off canonical text.
pub fn split_off_trailer(canonical: &str) -> (r: (String, Option<u64>))
    ensures
        r.0@ == trailer_split(canonical@).0,
        r.1 == trailer_split(canonical@).1,
{
    let lines = split_pieces(canonical);
    let ghost ls = pieces(canonical@);
    proof {
        assert(ls.take(ls.len() as int) =~= ls);
    }
    let idx = kept_count(&lines, Ghost(ls), lines.len());
    if idx == 0 {
        return (canonical.to_owned(), None);
    }
    let hash = match trailer_line_hash(lines[idx - 1].as_str()) {
        Some(h) => h,
        None => {
            return (canonical.to_owned(), None);
        },
    };
    let end = kept_count(&lines, Ghost(ls), idx - 1);
    let rebuilt = join_prefix(&lines, Ghost(ls), end);
    proof {
        let body = ls.take(idx - 1);
        assert(body.take(end as int) =~= ls.take(end as int));
    }
    (rebuilt, Some(hash))
}

} // verus!
