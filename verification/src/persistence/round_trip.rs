//! What the writers produce, the readers read back.
use vstd::prelude::*;

use crate::board::board_size::{first_separator, separator_count, size_text};
use crate::board::grid::{grid_count, in_bounds, row_count};
use crate::board::{CellState, InMemoryBoard};
use crate::persistence::board_block::{
    alive_in_row, alive_in_rows, block_line, block_result, board_is, cell_of_char, empty_header,
    first_bad_char, first_bad_row, header_key, header_scan, header_value, row_ok, size_value,
    validate_size_ok, BlockHeader, HeaderStop,
};
use crate::persistence::board_snapshot::{
    alive_cells, alive_pred, block_text, cell_char, grid_text, row_text, ENCODING_ASCII,
};
use crate::persistence::lines::{is_blank, next_nonblank};
use crate::persistence::parser::{
    begin_keyword, dashes, end_keyword, fence_label, fence_text, field_line_parts, index_of,
    lemma_index_of, without_trailing_cr,
};
use crate::persistence::text_lines::{
    join_lines, lemma_index_of_after, lemma_join_lines_append, lemma_join_lines_one, plain_line,
};
use crate::text::{
    all_digits, decimal_digits, decimal_value, is_digit, is_ws, lemma_decimal_digits, parse_unsigned,
    pow10, trim, trim_end, trim_start,
};

verus! {

pub proof fn lemma_trim_end_keep(s: Seq<char>)
    requires
        s.len() > 0,
        !is_ws(s.last()),
    ensures
        trim_end(s) == s,
{
}

pub proof fn lemma_trim_start_keep(s: Seq<char>)
    requires
        s.len() > 0,
        !is_ws(s[0]),
    ensures
        trim_start(s) == s,
{
}

/// A non-empty text with no white space at either end is its own trim.
pub proof fn lemma_trim_keep(s: Seq<char>)
    requires
        s.len() > 0,
        !is_ws(s[0]),
        !is_ws(s.last()),
    ensures
        trim(s) == s,
{
    lemma_trim_end_keep(s);
    lemma_trim_start_keep(s);
}

/// Trimming removes one space at either end of such a text.
pub proof fn lemma_trim_spaces(s: Seq<char>)
    requires
        s.len() > 0,
        !is_ws(s[0]),
        !is_ws(s.last()),
    ensures
        trim(seq![' '] + s) == s,
        trim(s + seq![' ']) == s,
        trim(seq![' '] + s + seq![' ']) == s,
{
    let a = seq![' '] + s;
    let b = s + seq![' '];
    let c = seq![' '] + s + seq![' '];
    assert(a.last() == s.last());
    lemma_trim_end_keep(a);
    assert(a.drop_first() =~= s);
    lemma_trim_start_keep(s);
    assert(b.drop_last() =~= s);
    lemma_trim_end_keep(s);
    assert(b[0] == s[0]);
    assert(c.drop_last() =~= a);
    lemma_trim_end_keep(a);
}

/// A label whose fence line is a single line that gives it back.
pub open spec fn label_ok(label: Seq<char>) -> bool {
    &&& label.len() > 0
    &&& !is_ws(label[0])
    &&& !is_ws(label.last())
    &&& forall|i: int| 0 <= i < label.len() ==> label[i] != '\n'
}

/// The trimmed inside of a fence line, between its dashes: keyword, a space,
/// label.
proof fn lemma_fence_inner(kw: Seq<char>, label: Seq<char>)
    requires
        kw == begin_keyword() || kw == end_keyword(),
        label.len() > 0,
        !is_ws(label[0]),
        !is_ws(label.last()),
    ensures
        trim(fence_text(kw, label)) == fence_text(kw, label),
        fence_text(kw, label).len() >= 10,
        fence_text(kw, label).take(5) == dashes(),
        fence_text(kw, label).skip(fence_text(kw, label).len() - 5) == dashes(),
        trim(fence_text(kw, label).subrange(5, fence_text(kw, label).len() - 5)) == kw + seq![' ']
            + label,
{
    let t = fence_text(kw, label);
    let d = dashes();
    assert(t[0] == '-');
    assert(t.last() == '-');
    lemma_trim_keep(t);
    assert(t.take(5) =~= d);
    assert(t.skip(t.len() - 5) =~= d);
    let inner = t.subrange(5, t.len() - 5);
    let core = kw + seq![' '] + label;
    assert(inner =~= seq![' '] + core + seq![' ']);
    assert(core[0] == kw[0]);
    assert(core.last() == label.last());
    lemma_trim_spaces(core);
}

/// A fence line gives back its label, for every non-empty label with no
/// white space at either end.
proof fn lemma_fence_label_of(kw: Seq<char>, label: Seq<char>)
    requires
        kw == begin_keyword() || kw == end_keyword(),
        label.len() > 0,
        !is_ws(label[0]),
        !is_ws(label.last()),
    ensures
        fence_label(fence_text(kw, label), kw) == Some(label),
{
    lemma_fence_inner(kw, label);
    let core = kw + seq![' '] + label;
    assert(core.take(kw.len() as int) =~= kw);
    assert(core.skip(kw.len() as int) =~= seq![' '] + label);
    lemma_trim_spaces(label);
}

/// Every non-empty label with no white space at either end comes back from
/// its BEGIN and END fence lines, and neither line reads as a fence of the
/// other keyword.
pub proof fn lemma_fence_label_round_trip(label: Seq<char>)
    requires
        label.len() > 0,
        !is_ws(label[0]),
        !is_ws(label.last()),
    ensures
        fence_label(fence_text(begin_keyword(), label), begin_keyword()) == Some(label),
        fence_label(fence_text(end_keyword(), label), end_keyword()) == Some(label),
        fence_label(fence_text(end_keyword(), label), begin_keyword()) is None,
        fence_label(fence_text(begin_keyword(), label), end_keyword()) is None,
{
    lemma_fence_label_of(begin_keyword(), label);
    lemma_fence_label_of(end_keyword(), label);
    lemma_fence_inner(begin_keyword(), label);
    lemma_fence_inner(end_keyword(), label);
    let b = begin_keyword() + seq![' '] + label;
    let e = end_keyword() + seq![' '] + label;
    assert(e.take(5)[0] != begin_keyword()[0]);
    assert(b.take(3)[0] != end_keyword()[0]);
}

/// A fence line reads back as its label, and is a single line that a block
/// reader takes as it stands.
pub proof fn lemma_fence_round_trip(kw: Seq<char>, label: Seq<char>)
    requires
        kw == begin_keyword() || kw == end_keyword(),
        label_ok(label),
    ensures
        fence_label(fence_text(kw, label), kw) == Some(label),
        block_line(fence_text(kw, label)) == fence_text(kw, label),
        plain_line(fence_text(kw, label)),
        !is_blank(fence_text(kw, label)),
{
    let t = fence_text(kw, label);
    lemma_fence_label_of(kw, label);
    lemma_fence_inner(kw, label);
    assert(t[0] == '-');
    assert(t.last() == '-');
    assert(without_trailing_cr(t) == t);
    lemma_trim_end_keep(t);
    assert forall|i: int| 0 <= i < t.len() implies t[i] != '\n' by {
        if 5 + 1 + kw.len() + 1 <= i < 5 + 1 + kw.len() + 1 + label.len() {
            assert(t[i] == label[i - (5 + 1 + kw.len() + 1)]);
        }
    }
    assert(trim(t).len() > 0);
}

/// Facts about the decimal digits of a machine-sized number.
pub proof fn lemma_digits(n: nat)
    requires
        n <= usize::MAX,
    ensures
        all_digits(decimal_digits(n)),
        decimal_value(decimal_digits(n)) == n,
        decimal_digits(n).len() >= 1,
        !is_ws(decimal_digits(n)[0]),
        !is_ws(decimal_digits(n).last()),
        decimal_digits(n)[0] != '+' && decimal_digits(n)[0] != '-',
        parse_unsigned(decimal_digits(n), usize::MAX as nat) == Some(n),
        forall|i: int| 0 <= i < decimal_digits(n).len() ==> is_digit(#[trigger] decimal_digits(n)[i]),
{
    assert(pow10(20) == 100_000_000_000_000_000_000) by {
        reveal_with_fuel(pow10, 21);
    }
    lemma_decimal_digits(n, 20);
    let d = decimal_digits(n);
    assert(is_digit(d[0]));
    assert(is_digit(d.last()));
}

/// A `key: value` line reads back as its key and value.
pub proof fn lemma_key_value_line(key: Seq<char>, value: Seq<char>)
    requires
        key.len() > 0,
        !is_ws(key[0]),
        !is_ws(key.last()),
        forall|i: int| 0 <= i < key.len() ==> key[i] != ':',
        value.len() > 0,
        !is_ws(value[0]),
        !is_ws(value.last()),
    ensures
        index_of(key + seq![':', ' '] + value, ':') == Some(key.len() as int),
        header_key(key + seq![':', ' '] + value) == key,
        header_value(key + seq![':', ' '] + value) == value,
        field_line_parts(key + seq![':', ' '] + value) == Some((key, value)),
        block_line(key + seq![':', ' '] + value) == key + seq![':', ' '] + value,
{
    let line = key + seq![':', ' '] + value;
    assert(line =~= key + seq![':'] + (seq![' '] + value));
    lemma_index_of_after(key, ':', seq![' '] + value);
    assert(line.take(key.len() as int) =~= key);
    assert(line.skip(key.len() + 1int) =~= seq![' '] + value);
    lemma_trim_keep(key);
    lemma_trim_spaces(value);
    assert(line.last() == value.last());
    assert(without_trailing_cr(line) == line);
    lemma_trim_end_keep(line);
}

proof fn lemma_separator_count_append(a: Seq<char>, b: Seq<char>)
    ensures
        separator_count(a + b) == separator_count(a) + separator_count(b),
    decreases b.len(),
{
    if b.len() == 0 {
        assert(a + b =~= a);
    } else {
        assert((a + b).drop_last() =~= a + b.drop_last());
        lemma_separator_count_append(a, b.drop_last());
    }
}

proof fn lemma_digits_no_separator(d: Seq<char>)
    requires
        forall|i: int| 0 <= i < d.len() ==> is_digit(#[trigger] d[i]),
    ensures
        separator_count(d) == 0,
        first_separator(d) == d.len(),
    decreases d.len(),
{
    if d.len() > 0 {
        assert forall|i: int| 0 <= i < d.drop_last().len() implies is_digit(#[trigger] d.drop_last()[i]) by {
            assert(d.drop_last()[i] == d[i]);
        }
        lemma_digits_no_separator(d.drop_last());
        assert forall|i: int| 0 <= i < d.drop_first().len() implies is_digit(#[trigger] d.drop_first()[i]) by {
            assert(d.drop_first()[i] == d[i + 1]);
        }
        lemma_digits_no_separator(d.drop_first());
        assert(is_digit(d[0]));
        assert(is_digit(d.last()));
    }
}

proof fn lemma_first_separator_after(a: Seq<char>, b: Seq<char>)
    requires
        forall|i: int| 0 <= i < a.len() ==> is_digit(#[trigger] a[i]),
    ensures
        first_separator(a + seq!['x'] + b) == a.len(),
    decreases a.len(),
{
    if a.len() > 0 {
        assert((a + seq!['x'] + b).drop_first() =~= a.drop_first() + seq!['x'] + b);
        assert forall|i: int| 0 <= i < a.drop_first().len() implies is_digit(#[trigger] a.drop_first()[i]) by {
            assert(a.drop_first()[i] == a[i + 1]);
        }
        lemma_first_separator_after(a.drop_first(), b);
        assert(is_digit(a[0]));
    }
}

/// The `size` value written for a board reads back as its dimensions.
pub proof fn lemma_size_value(w: nat, h: nat)
    requires
        w <= usize::MAX,
        h <= usize::MAX,
    ensures
        size_value(size_text(w, h)) == Some((w, h)),
        size_text(w, h).len() > 0,
        !is_ws(size_text(w, h)[0]),
        !is_ws(size_text(w, h).last()),
        forall|i: int| 0 <= i < size_text(w, h).len() ==> size_text(w, h)[i] != ':' && size_text(
            w,
            h,
        )[i] != '\n',
{
    lemma_digits(w);
    lemma_digits(h);
    let dw = decimal_digits(w);
    let dh = decimal_digits(h);
    let t = size_text(w, h);
    assert(t[0] == dw[0]);
    assert(t.last() == dh.last());
    lemma_trim_keep(t);
    lemma_digits_no_separator(dw);
    lemma_digits_no_separator(dh);
    lemma_separator_count_append(dw, seq!['x']);
    lemma_separator_count_append(dw + seq!['x'], dh);
    assert(separator_count(seq!['x']) == 1) by {
        reveal_with_fuel(separator_count, 2);
        assert(seq!['x'].drop_last() =~= Seq::<char>::empty());
    }
    lemma_first_separator_after(dw, dh);
    assert(t.take(dw.len() as int) =~= dw);
    assert(t.skip(dw.len() + 1int) =~= dh);
    lemma_trim_keep(dw);
    lemma_trim_keep(dh);
    assert forall|i: int| 0 <= i < t.len() implies t[i] != ':' && t[i] != '\n' by {
        if i < dw.len() {
            assert(is_digit(dw[i]));
        } else if i > dw.len() {
            assert(t[i] == dh[i - dw.len() - 1]);
            assert(is_digit(dh[i - dw.len() - 1]));
        }
    }
}

/// The lines of a written board block.
pub open spec fn block_lines(label: Seq<char>, b: InMemoryBoard) -> Seq<Seq<char>> {
    let w = b.spec_width();
    let h = b.spec_height();
    seq![
        fence_text(begin_keyword(), label),
        "size"@ + seq![':', ' '] + size_text(w, h),
        "encoding"@ + seq![':', ' '] + ENCODING_ASCII@,
        "alive_count"@ + seq![':', ' '] + decimal_digits(alive_cells(b)),
        "dead_count"@ + seq![':', ' '] + decimal_digits((w * h - alive_cells(b)) as nat),
    ] + Seq::new(h, |y: int| row_text(b, y)) + seq![fence_text(end_keyword(), label)]
}

proof fn lemma_grid_text_join(b: InMemoryBoard, n: nat)
    ensures
        grid_text(b, n) == join_lines(Seq::new(n, |y: int| row_text(b, y))),
    decreases n,
{
    if n > 0 {
        lemma_grid_text_join(b, (n - 1) as nat);
        let prev = Seq::new((n - 1) as nat, |y: int| row_text(b, y));
        assert(Seq::new(n, |y: int| row_text(b, y)) =~= prev + seq![row_text(b, n - 1)]);
        lemma_join_lines_append(prev, seq![row_text(b, n - 1)]);
        lemma_join_lines_one(row_text(b, n - 1));
    } else {
        assert(Seq::new(0, |y: int| row_text(b, y)) =~= Seq::<Seq<char>>::empty());
    }
}

pub proof fn lemma_join_cons(l: Seq<char>, rest: Seq<Seq<char>>)
    ensures
        join_lines(seq![l] + rest) == l + seq!['\n'] + join_lines(rest),
{
    assert((seq![l] + rest).drop_first() =~= rest);
    assert((seq![l] + rest)[0] == l);
}

/// The header lines of a written block joined.
pub open spec fn block_head_text(label: Seq<char>, b: InMemoryBoard) -> Seq<char> {
    let w = b.spec_width();
    let h = b.spec_height();
    fence_text(begin_keyword(), label) + seq!['\n'] + "size: "@ + size_text(w, h) + seq!['\n']
        + "encoding: ascii"@ + seq!['\n'] + "alive_count: "@ + decimal_digits(alive_cells(b))
        + seq!['\n'] + "dead_count: "@ + decimal_digits((w * h - alive_cells(b)) as nat) + seq![
        '\n',
    ]
}

proof fn lemma_block_head_join(label: Seq<char>, b: InMemoryBoard)
    ensures
        block_head_text(label, b) == join_lines(block_lines(label, b).take(5)),
{
    let ls = block_lines(label, b).take(5);
    let l0 = ls[0];
    let l1 = ls[1];
    let l2 = ls[2];
    let l3 = ls[3];
    let l4 = ls[4];
    assert(ls =~= seq![l0] + (seq![l1] + (seq![l2] + (seq![l3] + seq![l4]))));
    lemma_join_cons(l0, seq![l1] + (seq![l2] + (seq![l3] + seq![l4])));
    lemma_join_cons(l1, seq![l2] + (seq![l3] + seq![l4]));
    lemma_join_cons(l2, seq![l3] + seq![l4]);
    lemma_join_cons(l3, seq![l4]);
    lemma_join_lines_one(l4);
    reveal_strlit("size: ");
    reveal_strlit("size");
    reveal_strlit("encoding: ascii");
    reveal_strlit("encoding");
    reveal_strlit("ascii");
    reveal_strlit("alive_count: ");
    reveal_strlit("alive_count");
    reveal_strlit("dead_count: ");
    reveal_strlit("dead_count");
    assert(block_head_text(label, b) =~= join_lines(ls));
}

/// A written block is the join of its lines.
pub proof fn lemma_block_text_join(label: Seq<char>, b: InMemoryBoard)
    ensures
        block_text(label, b) == join_lines(block_lines(label, b)),
{
    let h = b.spec_height();
    let ls = block_lines(label, b);
    let head = ls.take(5);
    let rows = Seq::new(h, |y: int| row_text(b, y));
    let tail = seq![fence_text(end_keyword(), label)];
    assert(ls =~= head + rows + tail);
    lemma_join_lines_append(head + rows, tail);
    lemma_join_lines_append(head, rows);
    lemma_join_lines_one(fence_text(end_keyword(), label));
    lemma_grid_text_join(b, h);
    lemma_block_head_join(label, b);
    assert(block_text(label, b) =~= block_head_text(label, b) + grid_text(b, h) + (fence_text(
        end_keyword(),
        label,
    ) + seq!['\n']));
}

/// Every cell character of a row is `.` or `#`; a row of positive width
/// reads back unchanged and well formed.
proof fn lemma_row_text(b: InMemoryBoard, y: int)
    requires
        b.spec_width() > 0,
    ensures
        block_line(row_text(b, y)) == row_text(b, y),
        row_ok(row_text(b, y), b.spec_width()),
        plain_line(row_text(b, y)),
        !is_blank(row_text(b, y)),
        index_of(row_text(b, y), ':') is None,
{
    let r = row_text(b, y);
    assert(r.last() == '.' || r.last() == '#');
    assert(without_trailing_cr(r) == r);
    lemma_trim_end_keep(r);
    crate::persistence::board_block::lemma_first_bad_char(r);
    lemma_index_of(r, ':');
    assert(r[0] == '.' || r[0] == '#');
    lemma_trim_keep(r);
}

/// The alive cells of a row, as counted by `#` characters.
proof fn lemma_alive_in_row(b: InMemoryBoard, y: int, n: nat)
    ensures
        alive_in_row(Seq::new(n, |x: int| cell_char(b.cell(x, y)))) == row_count(alive_pred(b), y, n),
    decreases n,
{
    if n > 0 {
        let s = Seq::new(n, |x: int| cell_char(b.cell(x, y)));
        assert(s.drop_last() =~= Seq::new((n - 1) as nat, |x: int| cell_char(b.cell(x, y))));
        lemma_alive_in_row(b, y, (n - 1) as nat);
    } else {
        assert(Seq::new(0, |x: int| cell_char(b.cell(x, y))).len() == 0);
    }
}

/// The header a written block declares.
pub open spec fn written_header(b: InMemoryBoard) -> BlockHeader {
    let w = b.spec_width();
    let h = b.spec_height();
    BlockHeader {
        width: w as usize,
        height: h as usize,
        has_size: true,
        encoding_seen: true,
        alive: Some(alive_cells(b) as usize),
        dead: Some((w * h - alive_cells(b)) as usize),
    }
}

/// The lines from `p` on are those of a written block.
pub open spec fn holds_block(lines: Seq<Seq<char>>, p: nat, label: Seq<char>, b: InMemoryBoard) -> bool {
    &&& p + block_lines(label, b).len() <= lines.len()
    &&& forall|i: int| 0 <= i < block_lines(label, b).len() ==> lines[p + i] == #[trigger] block_lines(label, b)[i]
}

/// The board a block can be written for: positive dimensions whose cell
/// count fits in `usize`.
pub open spec fn writable_board(b: InMemoryBoard) -> bool {
    b.spec_width() > 0 && b.spec_height() > 0 && b.spec_width() * b.spec_height() <= usize::MAX
}

pub proof fn lemma_counts(b: InMemoryBoard)
    requires
        writable_board(b),
    ensures
        alive_cells(b) <= b.spec_width() * b.spec_height(),
        alive_cells(b) <= usize::MAX,
        b.spec_width() <= usize::MAX,
        b.spec_height() <= usize::MAX,
{
    crate::board::grid::lemma_grid_count_bound(alive_pred(b), b.spec_width(), b.spec_height());
    let w = b.spec_width();
    let h = b.spec_height();
    assert(w <= w * h && h <= w * h) by (nonlinear_arith)
        requires
            w > 0,
            h > 0,
    ;
}

/// Every line of a written block is plain.
pub proof fn lemma_block_lines_plain(label: Seq<char>, b: InMemoryBoard)
    requires
        label_ok(label),
        writable_board(b),
    ensures
        forall|k: int| 0 <= k < block_lines(label, b).len() ==> plain_line(#[trigger] block_lines(label, b)[k]),
        !is_blank(block_lines(label, b)[0]),
{
    let w = b.spec_width();
    let h = b.spec_height();
    let ls = block_lines(label, b);
    lemma_counts(b);
    lemma_fence_round_trip(begin_keyword(), label);
    lemma_fence_round_trip(end_keyword(), label);
    lemma_size_value(w, h);
    lemma_digits(alive_cells(b));
    lemma_digits((w * h - alive_cells(b)) as nat);
    reveal_strlit("size");
    reveal_strlit("encoding");
    reveal_strlit("ascii");
    reveal_strlit("alive_count");
    reveal_strlit("dead_count");
    assert forall|k: int| 0 <= k < ls.len() implies plain_line(#[trigger] ls[k]) by {
        if 5 <= k < 5 + h {
            lemma_row_text(b, k - 5);
        } else if k == 1 {
            let l = ls[1];
            assert forall|i: int| 0 <= i < l.len() implies l[i] != '\n' by {
                if i >= 6 {
                    assert(l[i] == size_text(w, h)[i - 6]);
                }
            }
        } else if k == 3 {
            let d = decimal_digits(alive_cells(b));
            let l = ls[3];
            assert forall|i: int| 0 <= i < l.len() implies l[i] != '\n' by {
                if i >= 13 {
                    assert(l[i] == d[i - 13]);
                    assert(is_digit(d[i - 13]));
                }
            }
            assert(is_digit(d.last()));
        } else if k == 4 {
            let d = decimal_digits((w * h - alive_cells(b)) as nat);
            let l = ls[4];
            assert forall|i: int| 0 <= i < l.len() implies l[i] != '\n' by {
                if i >= 12 {
                    assert(l[i] == d[i - 12]);
                    assert(is_digit(d[i - 12]));
                }
            }
            assert(is_digit(d.last()));
        }
    }
}

proof fn lemma_scan_size(lines: Seq<Seq<char>>, k: nat, h0: BlockHeader, w: nat, ht: nat)
    requires
        k < lines.len(),
        lines[k as int] == "size"@ + seq![':', ' '] + size_text(w, ht),
        0 < w <= usize::MAX,
        0 < ht <= usize::MAX,
        !h0.has_size,
    ensures
        header_scan(lines, k, h0) == header_scan(
            lines,
            k + 1,
            BlockHeader { width: w as usize, height: ht as usize, has_size: true, ..h0 },
        ),
{
    reveal_strlit("size");
    lemma_size_value(w, ht);
    lemma_key_value_line("size"@, size_text(w, ht));
}

proof fn lemma_scan_encoding(lines: Seq<Seq<char>>, k: nat, h0: BlockHeader)
    requires
        k < lines.len(),
        lines[k as int] == "encoding"@ + seq![':', ' '] + ENCODING_ASCII@,
        !h0.encoding_seen,
    ensures
        header_scan(lines, k, h0) == header_scan(lines, k + 1, BlockHeader { encoding_seen: true, ..h0 }),
{
    reveal_strlit("size");
    reveal_strlit("encoding");
    reveal_strlit("ascii");
    lemma_key_value_line("encoding"@, ENCODING_ASCII@);
}

proof fn lemma_scan_alive(lines: Seq<Seq<char>>, k: nat, h0: BlockHeader, a: nat)
    requires
        k < lines.len(),
        lines[k as int] == "alive_count"@ + seq![':', ' '] + decimal_digits(a),
        a <= usize::MAX,
        h0.alive is None,
    ensures
        header_scan(lines, k, h0) == header_scan(lines, k + 1, BlockHeader { alive: Some(a as usize), ..h0 }),
{
    reveal_strlit("size");
    reveal_strlit("encoding");
    reveal_strlit("alive_count");
    lemma_digits(a);
    lemma_key_value_line("alive_count"@, decimal_digits(a));
}

proof fn lemma_scan_dead(lines: Seq<Seq<char>>, k: nat, h0: BlockHeader, d: nat)
    requires
        k < lines.len(),
        lines[k as int] == "dead_count"@ + seq![':', ' '] + decimal_digits(d),
        d <= usize::MAX,
        h0.dead is None,
    ensures
        header_scan(lines, k, h0) == header_scan(lines, k + 1, BlockHeader { dead: Some(d as usize), ..h0 }),
{
    reveal_strlit("size");
    reveal_strlit("encoding");
    reveal_strlit("alive_count");
    reveal_strlit("dead_count");
    lemma_digits(d);
    lemma_key_value_line("dead_count"@, decimal_digits(d));
}

/// Reading the header lines of a written block stops at its first row
/// with the header it declares.
pub proof fn lemma_block_header_scan(lines: Seq<Seq<char>>, p: nat, label: Seq<char>, b: InMemoryBoard)
    requires
        label_ok(label),
        writable_board(b),
        holds_block(lines, p, label, b),
    ensures
        header_scan(lines, p + 1, empty_header()) == HeaderStop::Grid((p + 5) as usize, written_header(b)),
{
    let w = b.spec_width();
    let h = b.spec_height();
    let ls = block_lines(label, b);
    let a = alive_cells(b);
    let d = (w * h - a) as nat;
    lemma_counts(b);
    assert(lines[p + 1int] == ls[1]);
    assert(lines[p + 2int] == ls[2]);
    assert(lines[p + 3int] == ls[3]);
    assert(lines[p + 4int] == ls[4]);
    assert(lines[p + 5int] == ls[5]);
    lemma_row_text(b, 0);
    let h0 = empty_header();
    let h1 = BlockHeader { width: w as usize, height: h as usize, has_size: true, ..h0 };
    let h2 = BlockHeader { encoding_seen: true, ..h1 };
    let h3 = BlockHeader { alive: Some(a as usize), ..h2 };
    let h4 = BlockHeader { dead: Some(d as usize), ..h3 };
    lemma_scan_size(lines, p + 1, h0, w, h);
    lemma_scan_encoding(lines, p + 2, h1);
    lemma_scan_alive(lines, p + 3, h2, a);
    lemma_scan_dead(lines, p + 4, h3, d);
    assert(header_scan(lines, p + 5, h4) == HeaderStop::Grid((p + 5) as usize, h4));
    assert(h4 == written_header(b));
}

proof fn lemma_rows_good(lines: Seq<Seq<char>>, k: nat, b: InMemoryBoard, y: nat)
    requires
        b.spec_width() > 0,
        y <= b.spec_height(),
        k + b.spec_height() <= lines.len(),
        forall|yy: int| y <= yy < b.spec_height() ==> lines[k + yy] == row_text(b, yy),
    ensures
        first_bad_row(lines, k, b.spec_width(), b.spec_height(), y) is None,
    decreases b.spec_height() - y,
{
    if y < b.spec_height() {
        lemma_row_text(b, y as int);
        assert(lines[(k + y) as int] == row_text(b, y as int));
        lemma_rows_good(lines, k, b, y + 1);
    }
}

proof fn lemma_rows_alive(lines: Seq<Seq<char>>, k: nat, b: InMemoryBoard, n: nat)
    requires
        b.spec_width() > 0,
        n <= b.spec_height(),
        k + b.spec_height() <= lines.len(),
        forall|yy: int| 0 <= yy < b.spec_height() ==> lines[k + yy] == row_text(b, yy),
    ensures
        alive_in_rows(lines, k, n) == grid_count(alive_pred(b), b.spec_width(), n),
    decreases n,
{
    if n > 0 {
        lemma_rows_alive(lines, k, b, (n - 1) as nat);
        lemma_row_text(b, n - 1);
        assert(lines[k + n - 1] == row_text(b, n - 1));
        lemma_alive_in_row(b, n - 1, b.spec_width());
    }
}

/// The grid of a written block reads back as its board.
#[verifier::spinoff_prover]
#[verifier::rlimit(60)]
proof fn lemma_grid_round_trip(
    r: Result<InMemoryBoard, crate::persistence::board_snapshot::BoardSnapshotReadError>,
    path: Seq<char>,
    lines: Seq<Seq<char>>,
    p: nat,
    label: Seq<char>,
    b: InMemoryBoard,
    max_mem: usize,
)
    requires
        label_ok(label),
        writable_board(b),
        validate_size_ok(b.spec_width() as usize, b.spec_height() as usize, max_mem),
        holds_block(lines, p, label, b),
        crate::persistence::board_block::grid_result(r, path, lines, label, max_mem, p + 5, written_header(b)),
    ensures
        r matches Ok(b2) && b2.spec_width() == b.spec_width() && b2.spec_height() == b.spec_height()
            && forall|x: int, y: int|
            in_bounds(b.spec_width() as int, b.spec_height() as int, x, y) ==> #[trigger] b2.cell(x, y)
                == cell_of_char(cell_char(b.cell(x, y))),
{
    let w = b.spec_width();
    let h = b.spec_height();
    let ls = block_lines(label, b);
    lemma_counts(b);
    lemma_fence_round_trip(end_keyword(), label);
    let k = p + 5;
    assert forall|yy: int| 0 <= yy < h implies lines[k + yy] == row_text(b, yy) by {
        assert(lines[p + (5 + yy)] == ls[5 + yy]);
    }
    lemma_rows_good(lines, k, b, 0);
    lemma_rows_alive(lines, k, b, h);
    assert(lines[(k + h) as int] == ls[5 + h as int]);
    match r {
        Ok(b2) => {
            assert forall|x: int, y: int|
                in_bounds(w as int, h as int, x, y) implies #[trigger] b2.cell(x, y) == cell_of_char(
                cell_char(b.cell(x, y)),
            ) by {
                assert(lines[k + y] == row_text(b, y));
            }
        },
        Err(_) => {},
    }
}

/// Reading a written block gives its board back, with every cell that is
/// not alive read as dead.
pub proof fn lemma_block_round_trip(
    r: Result<InMemoryBoard, crate::persistence::board_snapshot::BoardSnapshotReadError>,
    path: Seq<char>,
    lines: Seq<Seq<char>>,
    p: nat,
    label: Seq<char>,
    b: InMemoryBoard,
    max_mem: usize,
)
    requires
        label_ok(label),
        writable_board(b),
        validate_size_ok(b.spec_width() as usize, b.spec_height() as usize, max_mem),
        holds_block(lines, p, label, b),
        lines.len() <= usize::MAX,
        block_result(r, path, lines, p, label, max_mem),
    ensures
        r matches Ok(b2) && b2.spec_width() == b.spec_width() && b2.spec_height() == b.spec_height()
            && forall|x: int, y: int|
            in_bounds(b.spec_width() as int, b.spec_height() as int, x, y) ==> #[trigger] b2.cell(x, y)
                == cell_of_char(cell_char(b.cell(x, y))),
{
    let ls = block_lines(label, b);
    lemma_block_lines_plain(label, b);
    lemma_fence_round_trip(begin_keyword(), label);
    assert(lines[p as int] == ls[0]);
    assert(next_nonblank(lines, p) == p);
    lemma_block_header_scan(lines, p, label, b);
    lemma_counts(b);
    assert((p + 5) as usize as nat == p + 5);
    lemma_grid_round_trip(r, path, lines, p, label, b, max_mem);
}

/// The lines of a written snapshot.
pub open spec fn snapshot_lines(s: crate::persistence::board_snapshot::BoardSnapshot) -> Seq<Seq<char>> {
    seq![
        crate::persistence::magic::BOARD_SNAPSHOT_MAGIC@,
        "schema_version"@ + seq![':', ' '] + decimal_digits(s.schema_version as nat),
        "created_at"@ + seq![':', ' '] + crate::persistence::timestamps::timestamp_text(s.created_at as nat),
        Seq::<char>::empty(),
    ] + block_lines(crate::persistence::board_snapshot::BOARD_BLOCK_LABEL@, s.board)
}

proof fn lemma_snapshot_text_join(s: crate::persistence::board_snapshot::BoardSnapshot)
    ensures
        crate::persistence::board_snapshot::snapshot_text(s) == join_lines(snapshot_lines(s)),
{
    let label = crate::persistence::board_snapshot::BOARD_BLOCK_LABEL@;
    let ls = snapshot_lines(s);
    let head = ls.take(4);
    let bl = block_lines(label, s.board);
    assert(ls =~= head + bl);
    lemma_join_lines_append(head, bl);
    lemma_block_text_join(label, s.board);
    let l0 = head[0];
    let l1 = head[1];
    let l2 = head[2];
    let l3 = head[3];
    assert(head =~= seq![l0] + (seq![l1] + (seq![l2] + seq![l3])));
    lemma_join_cons(l0, seq![l1] + (seq![l2] + seq![l3]));
    lemma_join_cons(l1, seq![l2] + seq![l3]);
    lemma_join_cons(l2, seq![l3]);
    lemma_join_lines_one(l3);
    reveal_strlit("schema_version: ");
    reveal_strlit("schema_version");
    reveal_strlit("created_at: ");
    reveal_strlit("created_at");
    assert(crate::persistence::board_snapshot::snapshot_text(s) =~= join_lines(head) + join_lines(bl));
}

/// The magic line of a written snapshot identifies a board snapshot.
proof fn lemma_snapshot_magic(rest: Seq<char>)
    ensures
        crate::persistence::magic::magic_text(
            vstd::utf8::encode_utf8(crate::persistence::magic::BOARD_SNAPSHOT_MAGIC@ + seq!['\n'] + rest),
        ) == Some(crate::persistence::magic::BOARD_SNAPSHOT_MAGIC@),
{
    let m = crate::persistence::magic::BOARD_SNAPSHOT_MAGIC@;
    reveal_strlit("GOL-BOARD-SNAPSHOT v1");
    assert(m.len() == 21);
    assert(vstd::utf8::is_ascii_chars(m));
    vstd::utf8::is_ascii_chars_encode_utf8(m);
    let em = vstd::utf8::encode_utf8(m);
    crate::persistence::text_lines::lemma_encode_utf8_append(m, seq!['\n']);
    crate::persistence::text_lines::lemma_encode_utf8_append(m + seq!['\n'], rest);
    assert(vstd::utf8::encode_utf8(seq!['\n']) =~= seq![10u8]) by {
        assert(vstd::utf8::is_ascii_chars(seq!['\n']));
        vstd::utf8::is_ascii_chars_encode_utf8(seq!['\n']);
    }
    let bytes = vstd::utf8::encode_utf8(m + seq!['\n'] + rest);
    let pk = crate::persistence::magic::peek_of(bytes);
    assert(bytes =~= em + seq![10u8] + vstd::utf8::encode_utf8(rest));
    assert(pk.len() >= 22);
    assert(pk[21] == 10u8);
    assert forall|j: int| 0 <= j < 21 implies pk[j] != 10u8 by {
        assert(pk[j] == em[j]);
        assert(em[j] == m[j] as u8);
    }
    crate::persistence::magic::lemma_byte_index_of(pk, 10);
    assert(pk.take(21) =~= em);
    assert(em.last() == 49u8);
    vstd::utf8::encode_utf8_valid_utf8(m);
    vstd::utf8::encode_utf8_decode_utf8(m);
}

/// A written snapshot splits back into its lines.
proof fn lemma_snapshot_body_lines(s: crate::persistence::board_snapshot::BoardSnapshot)
    requires
        writable_board(s.board),
        s.schema_version == crate::persistence::magic::SCHEMA_VERSION,
        s.created_at < 253_402_300_800,
    ensures
        crate::persistence::lines::body_lines(crate::persistence::board_snapshot::snapshot_text(s))
            == snapshot_lines(s),
{
    let label = crate::persistence::board_snapshot::BOARD_BLOCK_LABEL@;
    let text = crate::persistence::board_snapshot::snapshot_text(s);
    let ls = snapshot_lines(s);
    let bl = block_lines(label, s.board);
    reveal_strlit("BOARD");
    reveal_strlit("GOL-BOARD-SNAPSHOT v1");
    reveal_strlit("schema_version");
    reveal_strlit("created_at");
    assert(label_ok(label));
    lemma_snapshot_text_join(s);
    lemma_block_lines_plain(label, s.board);
    crate::persistence::timestamps::lemma_format_then_parse_utc(s.created_at as nat);
    let ts = crate::persistence::timestamps::timestamp_text(s.created_at as nat);
    lemma_digits(1);
    assert(decimal_digits(s.schema_version as nat) == decimal_digits(1));
    assert forall|k: int| 0 <= k < ls.len() implies plain_line(#[trigger] ls[k]) by {
        if k >= 4 {
            assert(ls[k] == bl[k - 4]);
        } else if k == 2 {
            let l = ls[2];
            assert forall|i: int| 0 <= i < l.len() implies l[i] != '\n' by {
                if i >= 12 {
                    assert(l[i] == ts[i - 12]);
                }
            }
        } else if k == 1 {
            let l = ls[1];
            assert forall|i: int| 0 <= i < l.len() implies l[i] != '\n' by {
                if i >= 16 {
                    assert(is_digit(decimal_digits(1)[i - 16]));
                }
            }
        }
    }
    crate::persistence::text_lines::lemma_body_lines_join(ls, Seq::<char>::empty());
    assert(text + Seq::<char>::empty() =~= text);
    assert(crate::persistence::lines::body_lines(Seq::<char>::empty()) =~= Seq::<Seq<char>>::empty()) by {
        assert(crate::persistence::lines::split_lines(Seq::<char>::empty()) =~= Seq::<Seq<char>>::empty());
    }
    assert(ls + Seq::<Seq<char>>::empty() =~= ls);
}

/// The header lines of a written snapshot read as its schema version and
/// time of creation, up to the BEGIN fence at line 4.
proof fn lemma_snapshot_header(s: crate::persistence::board_snapshot::BoardSnapshot)
    requires
        writable_board(s.board),
        s.schema_version == crate::persistence::magic::SCHEMA_VERSION,
        s.created_at < 253_402_300_800,
    ensures
        crate::persistence::board_snapshot::snapshot_header_scan(
            snapshot_lines(s),
            1,
            crate::persistence::board_snapshot::SnapshotHeader { schema_version: None, created_at: None },
        ) == crate::persistence::board_snapshot::SnapshotStop::Begin(
            4,
            crate::persistence::board_snapshot::SnapshotHeader {
                schema_version: Some(1u32),
                created_at: Some(s.created_at),
            },
        ),
{
    let label = crate::persistence::board_snapshot::BOARD_BLOCK_LABEL@;
    let lines = snapshot_lines(s);
    let bl = block_lines(label, s.board);
    reveal_strlit("BOARD");
    reveal_strlit("schema_version");
    reveal_strlit("created_at");
    assert(label_ok(label));
    lemma_block_lines_plain(label, s.board);
    crate::persistence::timestamps::lemma_format_then_parse_utc(s.created_at as nat);
    let ts = crate::persistence::timestamps::timestamp_text(s.created_at as nat);
    lemma_digits(1);
    lemma_key_value_line("schema_version"@, decimal_digits(1));
    assert(ts[0] != '\n' && !is_ws(ts[0]) && !is_ws(ts[19]));
    lemma_key_value_line("created_at"@, ts);
    let l1 = lines[1];
    let l2 = lines[2];
    assert(l1[0] == 's' && l1.last() == decimal_digits(1).last());
    lemma_trim_keep(l1);
    assert(l2[0] == 'c' && l2.last() == ts[19]);
    lemma_trim_keep(l2);
    assert(next_nonblank(lines, 1) == 1);
    assert(fence_label(l1, begin_keyword()) is None) by {
        assert(l1.take(5) != dashes()) by {
            assert(l1.take(5)[0] == 's');
        }
    }
    assert(fence_label(l2, begin_keyword()) is None) by {
        assert(l2.take(5) != dashes()) by {
            assert(l2.take(5)[0] == 'c');
        }
    }
    assert(parse_unsigned(decimal_digits(1), u32::MAX as nat) == Some(1nat));
    let h0 = crate::persistence::board_snapshot::SnapshotHeader { schema_version: None, created_at: None };
    let h1 = crate::persistence::board_snapshot::SnapshotHeader { schema_version: Some(1u32), created_at: None };
    let h2 = crate::persistence::board_snapshot::SnapshotHeader {
        schema_version: Some(1u32),
        created_at: Some(s.created_at),
    };
    assert(crate::persistence::board_snapshot::snapshot_header_scan(lines, 1, h0)
        == crate::persistence::board_snapshot::snapshot_header_scan(lines, 2, h1));
    assert(next_nonblank(lines, 2) == 2);
    assert(crate::persistence::board_snapshot::snapshot_header_scan(lines, 2, h1)
        == crate::persistence::board_snapshot::snapshot_header_scan(lines, 3, h2));
    assert(is_blank(lines[3])) by {
        assert(lines[3] == Seq::<char>::empty());
    }
    assert(lines[4] == bl[0]);
    lemma_fence_round_trip(begin_keyword(), label);
    assert(next_nonblank(lines, 4) == 4);
    assert(next_nonblank(lines, 3) == 4);
}

/// Reading a written snapshot gives back its schema version, its time of
/// creation (to the second) and its board, with every cell that is not
/// alive read as dead.
#[verifier::spinoff_prover]
pub proof fn lemma_snapshot_round_trip(
    r: Result<crate::persistence::board_snapshot::BoardSnapshot, crate::persistence::board_snapshot::BoardSnapshotReadError>,
    path: Seq<char>,
    s: crate::persistence::board_snapshot::BoardSnapshot,
    max_mem: usize,
)
    requires
        writable_board(s.board),
        validate_size_ok(s.board.spec_width() as usize, s.board.spec_height() as usize, max_mem),
        s.schema_version == crate::persistence::magic::SCHEMA_VERSION,
        s.created_at < 253_402_300_800,
        snapshot_lines(s).len() <= usize::MAX,
        crate::persistence::board_snapshot::snapshot_result(
            r,
            path,
            crate::persistence::board_snapshot::snapshot_text(s),
            max_mem,
        ),
    ensures
        r matches Ok(t) && t.schema_version == s.schema_version && t.created_at == s.created_at
            && t.board.spec_width() == s.board.spec_width() && t.board.spec_height()
            == s.board.spec_height() && forall|x: int, y: int|
            in_bounds(s.board.spec_width() as int, s.board.spec_height() as int, x, y)
                ==> #[trigger] t.board.cell(x, y) == cell_of_char(cell_char(s.board.cell(x, y))),
{
    let label = crate::persistence::board_snapshot::BOARD_BLOCK_LABEL@;
    let text = crate::persistence::board_snapshot::snapshot_text(s);
    let ls = snapshot_lines(s);
    let bl = block_lines(label, s.board);
    let m = crate::persistence::magic::BOARD_SNAPSHOT_MAGIC@;
    reveal_strlit("BOARD");
    reveal_strlit("GOL-BOARD-SNAPSHOT v1");
    reveal_strlit("GOL-RUN-RECORD v1");
    reveal_strlit("GOL-RUN-RECORD v2");
    assert(label_ok(label));
    lemma_snapshot_body_lines(s);
    lemma_snapshot_text_join(s);
    let lines = crate::persistence::lines::body_lines(text);
    assert(text =~= m + seq!['\n'] + join_lines(ls.drop_first())) by {
        lemma_join_cons(m, ls.drop_first());
        assert(ls =~= seq![m] + ls.drop_first());
    }
    lemma_snapshot_magic(join_lines(ls.drop_first()));
    lemma_trim_keep(m);
    assert(next_nonblank(lines, 0) == 0);
    lemma_snapshot_header(s);
    assert(holds_block(lines, 4, label, s.board)) by {
        assert forall|i: int| 0 <= i < bl.len() implies lines[4 + i] == #[trigger] bl[i] by {
            assert(ls[4 + i] == bl[i]);
        }
    }
    let rb = match r {
        Ok(t) => Ok(t.board),
        Err(e) => Err(e),
    };
    lemma_block_round_trip(rb, path, lines, 4, label, s.board, max_mem);
}

} // verus!
