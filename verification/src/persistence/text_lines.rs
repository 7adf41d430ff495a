//! Facts about text made of whole lines: how it splits back into its lines
//! and how it is encoded as UTF-8.
use vstd::prelude::*;

use vstd::utf8::encode_utf8;

use crate::persistence::lines::{body_lines, lemma_split_step, line_content, split_lines};
use crate::persistence::parser::{index_of, lemma_index_of};

verus! {

/// The lines `ls`, each followed by a newline.
pub open spec fn join_lines(ls: Seq<Seq<char>>) -> Seq<char>
    decreases ls.len(),
{
    if ls.len() == 0 {
        Seq::empty()
    } else {
        ls[0] + seq!['\n'] + join_lines(ls.drop_first())
    }
}

/// A line that holds no newline and does not end with a carriage return.
pub open spec fn plain_line(l: Seq<char>) -> bool {
    (forall|i: int| 0 <= i < l.len() ==> l[i] != '\n') && !(l.len() > 0 && l.last() == '\r')
}

pub proof fn lemma_join_lines_append(a: Seq<Seq<char>>, b: Seq<Seq<char>>)
    ensures
        join_lines(a + b) == join_lines(a) + join_lines(b),
    decreases a.len(),
{
    if a.len() == 0 {
        assert(a + b =~= b);
    } else {
        assert((a + b).drop_first() =~= a.drop_first() + b);
        lemma_join_lines_append(a.drop_first(), b);
    }
}

pub proof fn lemma_join_lines_one(l: Seq<char>)
    ensures
        join_lines(seq![l]) == l + seq!['\n'],
{
    assert(seq![l].drop_first() =~= Seq::<Seq<char>>::empty());
    assert(join_lines(Seq::<Seq<char>>::empty()) == Seq::<char>::empty());
    assert(join_lines(seq![l]) == l + seq!['\n'] + join_lines(Seq::<Seq<char>>::empty()));
    assert(l + seq!['\n'] + Seq::<char>::empty() =~= l + seq!['\n']);
}

/// Text made of plain lines splits back into them.
pub proof fn lemma_body_lines_join(ls: Seq<Seq<char>>, rest: Seq<char>)
    requires
        forall|k: int| 0 <= k < ls.len() ==> plain_line(#[trigger] ls[k]),
    ensures
        body_lines(join_lines(ls) + rest) == ls + body_lines(rest),
    decreases ls.len(),
{
    if ls.len() == 0 {
        assert(join_lines(ls) + rest =~= rest);
        assert(ls + body_lines(rest) =~= body_lines(rest));
    } else {
        let l = ls[0];
        assert(plain_line(l));
        let tail = join_lines(ls.drop_first()) + rest;
        let s = join_lines(ls) + rest;
        assert(s =~= l + seq!['\n'] + tail);
        assert(s[l.len() as int] == '\n');
        assert forall|j: int| 0 <= j < l.len() implies s[j] != '\n' by {
            assert(s[j] == l[j]);
        }
        lemma_split_step(s, l.len() as int);
        assert(s.take(l.len() + 1int) =~= l + seq!['\n']);
        assert(s.skip(l.len() + 1int) =~= tail);
        assert forall|k: int| 0 <= k < ls.drop_first().len() implies plain_line(
            #[trigger] ls.drop_first()[k],
        ) by {
            assert(ls.drop_first()[k] == ls[k + 1]);
        }
        lemma_body_lines_join(ls.drop_first(), rest);
        assert((l + seq!['\n']).drop_last() =~= l);
        assert(line_content(l + seq!['\n']) == l);
        assert(body_lines(s) =~= seq![l] + body_lines(tail));
        assert(ls =~= seq![l] + ls.drop_first());
    }
}

pub proof fn lemma_encode_utf8_append(a: Seq<char>, b: Seq<char>)
    ensures
        encode_utf8(a + b) == encode_utf8(a) + encode_utf8(b),
    decreases a.len(),
{
    if a.len() == 0 {
        assert(a + b =~= b);
        assert(encode_utf8(a) =~= Seq::<u8>::empty());
        assert(encode_utf8(a) + encode_utf8(b) =~= encode_utf8(b));
    } else {
        assert((a + b).drop_first() =~= a.drop_first() + b);
        assert((a + b)[0] == a[0]);
        lemma_encode_utf8_append(a.drop_first(), b);
        assert(encode_utf8(a) + encode_utf8(b) =~= vstd::utf8::encode_scalar(a[0] as u32) + (
        encode_utf8(a.drop_first()) + encode_utf8(b)));
    }
}

/// The first index of `c` in `p + seq![c] + rest` when `p` holds no `c`.
pub proof fn lemma_index_of_after(p: Seq<char>, c: char, rest: Seq<char>)
    requires
        forall|i: int| 0 <= i < p.len() ==> p[i] != c,
    ensures
        index_of(p + seq![c] + rest, c) == Some(p.len() as int),
{
    let s = p + seq![c] + rest;
    lemma_index_of(s, c);
    assert(s[p.len() as int] == c);
    assert forall|j: int| 0 <= j < p.len() implies s[j] != c by {
        assert(s[j] == p[j]);
    }
}

} // verus!
