//! Reading a fenced board block: the BEGIN fence, the header lines (`size`,
//! `encoding`, `alive_count`, `dead_count`), the grid rows and the END fence.
use vstd::prelude::*;

use crate::board::board_size::{first_separator, scan_separators, separator_count};
use crate::board::grid::in_bounds;
use crate::board::{CellState, InMemoryBoard};
use crate::persistence::board_snapshot::{
    loaded_size_result, validate_loaded_board_size, BoardSnapshotReadError, ENCODING_ASCII,
};
use crate::persistence::lines::{next_nonblank, one_based, LineCursor};
use crate::persistence::parser::{
    begin_keyword, end_keyword, fence_label, fence_text, find_char, format_begin_fence,
    format_end_fence, index_of, lemma_index_of, parse_begin_fence, parse_end_fence,
    without_trailing_cr, ParseError, ParseLocation,
};
use crate::text::{
    chars_of, parse_unsigned, parse_unsigned_in, push_str, str_eq, trim, trim_end, trim_range,
};

verus! {

/// A line of a board block as the reader sees it: one `\r` and then the
/// trailing white space removed.
pub open spec fn block_line(l: Seq<char>) -> Seq<char> {
    trim_end(without_trailing_cr(l))
}

/// The header fields of a board block.
#[derive(Debug, Clone, Copy, PartialEq, Eq, Structural)]
pub enum HeaderField {
    Size,
    Encoding,
    AliveCount,
    DeadCount,
}

pub open spec fn header_field_name(f: HeaderField) -> Seq<char> {
    match f {
        HeaderField::Size => "size"@,
        HeaderField::Encoding => "encoding"@,
        HeaderField::AliveCount => "alive_count"@,
        HeaderField::DeadCount => "dead_count"@,
    }
}

/// The header values read so far.
pub struct BlockHeader {
    pub width: usize,
    pub height: usize,
    pub has_size: bool,
    pub encoding_seen: bool,
    pub alive: Option<usize>,
    pub dead: Option<usize>,
}

pub open spec fn empty_header() -> BlockHeader {
    BlockHeader { width: 0, height: 0, has_size: false, encoding_seen: false, alive: None, dead: None }
}

/// Where reading the header lines stopped; line numbers are indices into
/// the body's lines.
pub enum HeaderStop {
    /// The body ended.
    Eof(BlockHeader),
    Blank(usize, BlockHeader),
    Duplicate(usize, HeaderField),
    BadSize(usize),
    BadEncoding(usize),
    BadCount(usize, HeaderField),
    UnknownKey(usize),
    /// The first grid row is line `k`.
    Grid(usize, BlockHeader),
}

/// The key and value of a header line, split at its first `:`.
pub open spec fn header_key(line: Seq<char>) -> Seq<char> {
    trim(line.take(index_of(line, ':')->0))
}

pub open spec fn header_value(line: Seq<char>) -> Seq<char> {
    trim(line.skip(index_of(line, ':')->0 + 1))
}

/// The `WxH` value of a `size` line, if it is well formed.
pub open spec fn size_value(v: Seq<char>) -> Option<(nat, nat)> {
    let t = trim(v);
    let k = first_separator(t);
    if separator_count(t) == 1 {
        match (
            parse_unsigned(trim(t.take(k)), usize::MAX as nat),
            parse_unsigned(trim(t.skip(k + 1)), usize::MAX as nat),
        ) {
            (Some(a), Some(b)) => Some((a, b)),
            _ => None,
        }
    } else {
        None
    }
}

/// Reads header lines from line `k` on.
pub open spec fn header_scan(lines: Seq<Seq<char>>, k: nat, h: BlockHeader) -> HeaderStop
    decreases lines.len() - k,
{
    if k >= lines.len() {
        HeaderStop::Eof(h)
    } else {
        let line = block_line(lines[k as int]);
        if line.len() == 0 {
            HeaderStop::Blank(k as usize, h)
        } else if index_of(line, ':') is None {
            HeaderStop::Grid(k as usize, h)
        } else {
            let key = header_key(line);
            let value = header_value(line);
            if key == "size"@ {
                if h.has_size {
                    HeaderStop::Duplicate(k as usize, HeaderField::Size)
                } else {
                    match size_value(value) {
                        Some((w, ht)) => if w == 0 || ht == 0 {
                            HeaderStop::BadSize(k as usize)
                        } else {
                            header_scan(
                                lines,
                                k + 1,
                                BlockHeader { width: w as usize, height: ht as usize, has_size: true, ..h },
                            )
                        },
                        None => HeaderStop::BadSize(k as usize),
                    }
                }
            } else if key == "encoding"@ {
                if h.encoding_seen {
                    HeaderStop::Duplicate(k as usize, HeaderField::Encoding)
                } else if value != ENCODING_ASCII@ {
                    HeaderStop::BadEncoding(k as usize)
                } else {
                    header_scan(lines, k + 1, BlockHeader { encoding_seen: true, ..h })
                }
            } else if key == "alive_count"@ {
                if h.alive is Some {
                    HeaderStop::Duplicate(k as usize, HeaderField::AliveCount)
                } else {
                    match parse_unsigned(value, usize::MAX as nat) {
                        Some(n) => header_scan(lines, k + 1, BlockHeader { alive: Some(n as usize), ..h }),
                        None => HeaderStop::BadCount(k as usize, HeaderField::AliveCount),
                    }
                }
            } else if key == "dead_count"@ {
                if h.dead is Some {
                    HeaderStop::Duplicate(k as usize, HeaderField::DeadCount)
                } else {
                    match parse_unsigned(value, usize::MAX as nat) {
                        Some(n) => header_scan(lines, k + 1, BlockHeader { dead: Some(n as usize), ..h }),
                        None => HeaderStop::BadCount(k as usize, HeaderField::DeadCount),
                    }
                }
            } else {
                HeaderStop::UnknownKey(k as usize)
            }
        }
    }
}

/// Index of the first character of `row` that is neither `.` nor `#`.
pub open spec fn first_bad_char(row: Seq<char>) -> Option<int>
    decreases row.len(),
{
    if row.len() == 0 {
        None
    } else if row[0] != '.' && row[0] != '#' {
        Some(0)
    } else {
        match first_bad_char(row.drop_first()) {
            Some(i) => Some(i + 1),
            None => None,
        }
    }
}

/// Whether the grid row has width `w` and only `.` and `#`.
pub open spec fn row_ok(row: Seq<char>, w: nat) -> bool {
    row.len() == w && first_bad_char(row) is None
}

/// The error for a row that is not `row_ok`.
pub open spec fn row_error(e: ParseError, row: Seq<char>, w: nat, path: Seq<char>, line: usize) -> bool {
    if row.len() != w {
        e matches ParseError::RaggedBoardRow { location, expected_width, actual_width } && location.path@
            == path && location.line_number == line && expected_width == w && actual_width
            == row.len()
    } else {
        let c = row[first_bad_char(row)->0];
        if c as u32 > 0x7f {
            e matches ParseError::NonAsciiBoardCharacter { location, character } && location.path@
                == path && location.line_number == line && character == c
        } else {
            e matches ParseError::UnknownBoardCharacter { location, character } && location.path@
                == path && location.line_number == line && character == c
        }
    }
}

/// Where the grid rows of a block whose first row is line `k` stop being
/// well formed: the first row `y` (from `y` on) that is missing or bad, or
/// `None` if all `h` rows are well formed.
pub open spec fn first_bad_row(lines: Seq<Seq<char>>, k: nat, w: nat, h: nat, y: nat) -> Option<nat>
    decreases h - y,
{
    if y >= h {
        None
    } else if k + y >= lines.len() || !row_ok(block_line(lines[(k + y) as int]), w) {
        Some(y)
    } else {
        first_bad_row(lines, k, w, h, y + 1)
    }
}

/// Number of `#` in a row.
pub open spec fn alive_in_row(row: Seq<char>) -> nat
    decreases row.len(),
{
    if row.len() == 0 {
        0
    } else {
        alive_in_row(row.drop_last()) + if row.last() == '#' {
            1nat
        } else {
            0nat
        }
    }
}

/// Number of `#` in the `n` rows from line `k`.
pub open spec fn alive_in_rows(lines: Seq<Seq<char>>, k: nat, n: nat) -> nat
    decreases n,
{
    if n == 0 {
        0
    } else {
        alive_in_rows(lines, k, (n - 1) as nat) + alive_in_row(block_line(lines[k + n - 1]))
    }
}

pub open spec fn location_is(l: ParseLocation, path: Seq<char>, n: usize) -> bool {
    l.path@ == path && l.line_number == n
}

pub open spec fn eof_line(lines: Seq<Seq<char>>) -> usize {
    if lines.len() == 0 {
        1
    } else {
        lines.len() as usize
    }
}

pub open spec fn quoted(s: Seq<char>) -> Seq<char> {
    seq!['\''] + s + seq!['\'']
}

/// The board whose rows are the `h` lines from `k`, `w` wide.
pub open spec fn board_is(b: InMemoryBoard, lines: Seq<Seq<char>>, k: nat, w: nat, h: nat) -> bool {
    &&& b.spec_width() == w
    &&& b.spec_height() == h
    &&& forall|x: int, y: int|
        in_bounds(w as int, h as int, x, y) ==> #[trigger] b.cell(x, y) == if block_line(
            lines[(k + y) as int],
        )[x] == '#' {
            CellState::Alive
        } else {
            CellState::Dead
        }
}

/// The outcome of reading the grid, END fence and count checks of a block
/// whose first grid row is line `k`.
pub open spec fn grid_result(
    r: Result<InMemoryBoard, BoardSnapshotReadError>,
    path: Seq<char>,
    lines: Seq<Seq<char>>,
    label: Seq<char>,
    max_mem: usize,
    k: nat,
    h: BlockHeader,
) -> bool {
    let section = label + " block"@;
    if !h.has_size {
        r matches Err(BoardSnapshotReadError::Parse(ParseError::MissingRequiredField { section: s, field }))
            && s@ == section && field@ == "size"@
    } else if !(validate_size_ok(h.width, h.height, max_mem)) {
        r matches Err(BoardSnapshotReadError::LoadedBoardSize(e)) && loaded_size_result(
            Err(e),
            h.width,
            h.height,
            max_mem,
        )
    } else {
        let w = h.width as nat;
        let ht = h.height as nat;
        match first_bad_row(lines, k, w, ht, 0) {
            Some(y) => if k + y >= lines.len() {
                r matches Err(BoardSnapshotReadError::Parse(ParseError::UnexpectedEnd { location, expected }))
                    && location_is(location, path, eof_line(lines)) && expected@
                    == "additional board rows followed by "@ + quoted(fence_text(end_keyword(), label))
            } else {
                r matches Err(BoardSnapshotReadError::Parse(e)) && row_error(
                    e,
                    block_line(lines[(k + y) as int]),
                    w,
                    path,
                    one_based(k + y),
                )
            },
            None => {
                let e = k + ht;
                let grid_alive = alive_in_rows(lines, k, ht);
                if e >= lines.len() {
                    r matches Err(BoardSnapshotReadError::Parse(ParseError::UnexpectedEnd { location, expected }))
                        && location_is(location, path, eof_line(lines)) && expected@ == quoted(
                        fence_text(end_keyword(), label),
                    )
                } else if fence_label(block_line(lines[e as int]), end_keyword()) is None {
                    r matches Err(BoardSnapshotReadError::Parse(ParseError::MalformedFence { location, line }))
                        && location_is(location, path, one_based(e)) && line@ == block_line(
                        lines[e as int],
                    )
                } else if fence_label(block_line(lines[e as int]), end_keyword())->0 != label {
                    r matches Err(
                        BoardSnapshotReadError::Parse(ParseError::UnexpectedFenceLabel { location, expected, actual }),
                    ) && location_is(location, path, one_based(e)) && expected@ == label && actual@
                        == fence_label(block_line(lines[e as int]), end_keyword())->0
                } else if h.alive is None {
                    r matches Err(BoardSnapshotReadError::Parse(ParseError::MissingRequiredField { section: s, field }))
                        && s@ == section && field@ == "alive_count"@
                } else if h.dead is None {
                    r matches Err(BoardSnapshotReadError::Parse(ParseError::MissingRequiredField { section: s, field }))
                        && s@ == section && field@ == "dead_count"@
                } else if !h.encoding_seen {
                    r matches Err(BoardSnapshotReadError::Parse(ParseError::MissingRequiredField { section: s, field }))
                        && s@ == section && field@ == "encoding"@
                } else if h.alive->0 != grid_alive {
                    r matches Err(
                        BoardSnapshotReadError::Parse(
                            ParseError::BoardCountMismatch { location, field, header_value, grid_value },
                        ),
                    ) && location_is(location, path, one_based(k)) && field@ == "alive_count"@
                        && header_value == h.alive->0 && grid_value == grid_alive
                } else if h.dead->0 != w * ht - grid_alive {
                    r matches Err(
                        BoardSnapshotReadError::Parse(
                            ParseError::BoardCountMismatch { location, field, header_value, grid_value },
                        ),
                    ) && location_is(location, path, one_based(k)) && field@ == "dead_count"@
                        && header_value == h.dead->0 && grid_value == w * ht - grid_alive
                } else {
                    r matches Ok(b) && board_is(b, lines, k, w, ht)
                }
            },
        }
    }
}

pub open spec fn validate_size_ok(w: usize, h: usize, max_mem: usize) -> bool {
    match crate::board::in_memory_board::allocation_result(w, h) {
        Ok(required) => required <= max_mem,
        Err(_) => false,
    }
}

/// What reading a board block labelled `label` from line `p` on gives;
/// `end_pos` is where the cursor ends up after a successful read.
pub open spec fn block_result(
    r: Result<InMemoryBoard, BoardSnapshotReadError>,
    path: Seq<char>,
    lines: Seq<Seq<char>>,
    p: nat,
    label: Seq<char>,
    max_mem: usize,
) -> bool {
    let b = next_nonblank(lines, p);
    if b >= lines.len() {
        r matches Err(BoardSnapshotReadError::Parse(ParseError::UnexpectedEnd { location, expected }))
            && location_is(location, path, eof_line(lines)) && expected@ == quoted(
            fence_text(begin_keyword(), label),
        )
    } else if fence_label(lines[b as int], begin_keyword()) is None {
        r matches Err(BoardSnapshotReadError::Parse(ParseError::MalformedFence { location, line }))
            && location_is(location, path, one_based(b)) && line@ == lines[b as int]
    } else if fence_label(lines[b as int], begin_keyword())->0 != label {
        r matches Err(BoardSnapshotReadError::Parse(ParseError::UnexpectedFenceLabel { location, expected, actual }))
            && location_is(location, path, one_based(b)) && expected@ == label && actual@
            == fence_label(lines[b as int], begin_keyword())->0
    } else {
        match header_scan(lines, b + 1, empty_header()) {
            HeaderStop::Grid(k, h) => grid_result(r, path, lines, label, max_mem, k as nat, h),
            stop => header_error(r, path, lines, label, stop),
        }
    }
}

/// Where the cursor stands after a successful read of the block from `p`:
/// just past its END fence.
pub open spec fn block_end_pos(lines: Seq<Seq<char>>, p: nat) -> nat {
    match header_scan(lines, next_nonblank(lines, p) + 1, empty_header()) {
        HeaderStop::Grid(k, h) => (k + h.height + 1) as nat,
        _ => 0,
    }
}

/// The error for a header that stopped before the grid.
pub open spec fn header_error(
    r: Result<InMemoryBoard, BoardSnapshotReadError>,
    path: Seq<char>,
    lines: Seq<Seq<char>>,
    label: Seq<char>,
    stop: HeaderStop,
) -> bool {
    match stop {
        HeaderStop::Eof(_) => r matches Err(
            BoardSnapshotReadError::Parse(ParseError::UnexpectedEnd { location, expected }),
        ) && location_is(location, path, eof_line(lines)) && expected@
            == "board header lines followed by "@ + quoted(fence_text(end_keyword(), label)),
        HeaderStop::Blank(k, h) => r matches Err(
            BoardSnapshotReadError::Parse(ParseError::RaggedBoardRow { location, expected_width, actual_width }),
        ) && location_is(location, path, one_based(k as nat)) && expected_width == (if h.has_size {
            h.width
        } else {
            0
        }) && actual_width == 0,
        HeaderStop::Duplicate(k, f) => r matches Err(
            BoardSnapshotReadError::Parse(ParseError::DuplicateField { location, field }),
        ) && location_is(location, path, one_based(k as nat)) && field@ == header_field_name(f),
        HeaderStop::BadSize(k) => r matches Err(BoardSnapshotReadError::MalformedSizeHeader { location, value })
            && location_is(location, path, one_based(k as nat)) && value@ == header_value(
            block_line(lines[k as int]),
        ),
        HeaderStop::BadEncoding(k) => r matches Err(
            BoardSnapshotReadError::Parse(ParseError::UnknownEncoding { location, encoding }),
        ) && location_is(location, path, one_based(k as nat)) && encoding@ == header_value(
            block_line(lines[k as int]),
        ),
        HeaderStop::BadCount(k, f) => r matches Err(
            BoardSnapshotReadError::Parse(ParseError::MalformedFieldLine { location, line }),
        ) && location_is(location, path, one_based(k as nat)) && line@ == header_field_name(f)
            + ": "@ + header_value(block_line(lines[k as int])),
        HeaderStop::UnknownKey(k) => r matches Err(
            BoardSnapshotReadError::Parse(ParseError::MalformedFieldLine { location, line }),
        ) && location_is(location, path, one_based(k as nat)) && line@ == block_line(
            lines[k as int],
        ),
        HeaderStop::Grid(_, _) => false,
    }
}

/// A line as the board-block reader sees it.
fn block_line_of(s: &str) -> (r: &str)
    ensures
        r@ == block_line(s@),
{
    crate::text::trim_end_str(crate::persistence::parser::strip_trailing_cr(s))
}

/// `'s'`.
fn quoted_string(s: &str) -> (r: String)
    ensures
        r@ == quoted(s@),
{
    let mut out = String::new();
    crate::text::push_char(&mut out, '\'');
    push_str(&mut out, s);
    crate::text::push_char(&mut out, '\'');
    proof {
        assert(out@ =~= quoted(s@));
    }
    out
}

/// Parses a `WxH` size value.
pub fn parse_size_value(value: &str) -> (r: Option<(usize, usize)>)
    ensures
        match size_value(value@) {
            Some((a, b)) => r == Some((a as usize, b as usize)),
            None => r is None,
        },
{
    let cs = chars_of(value);
    let (a, b) = trim_range(cs.as_slice(), 0, cs.len());
    proof {
        assert(cs@.subrange(0, cs@.len() as int) =~= value@);
    }
    let ghost t = cs@.subrange(a as int, b as int);
    let (count, first) = scan_separators(cs.as_slice(), a, b);
    if count != 1 {
        return None;
    }
    let (wa, wb) = trim_range(cs.as_slice(), a, first);
    let (ha, hb) = trim_range(cs.as_slice(), first + 1, b);
    proof {
        assert(t.take(first - a) =~= cs@.subrange(a as int, first as int));
        assert(t.skip(first - a + 1) =~= cs@.subrange(first + 1, b as int));
    }
    let w = match parse_unsigned_in(cs.as_slice(), wa, wb, usize::MAX as u128) {
        Some(v) => v,
        None => {
            return None;
        },
    };
    let h = match parse_unsigned_in(cs.as_slice(), ha, hb, usize::MAX as u128) {
        Some(v) => v,
        None => {
            return None;
        },
    };
    Some((w as usize, h as usize))
}

/// The trimmed key and value of a header line, split at its first `:`.
fn header_line_parts<'a>(line: &'a str) -> (r: Option<(&'a str, &'a str)>)
    ensures
        match index_of(line@, ':') {
            None => r is None,
            Some(_) => r matches Some((k, v)) && k@ == header_key(line@) && v@ == header_value(line@),
        },
{
    let cs = chars_of(line);
    let colon = match find_char(cs.as_slice(), ':') {
        Some(i) => i,
        None => {
            return None;
        },
    };
    let (ka, kb) = trim_range(cs.as_slice(), 0, colon);
    let (va, vb) = trim_range(cs.as_slice(), colon + 1, cs.len());
    proof {
        assert(cs@.subrange(0, colon as int) =~= line@.take(colon as int));
        assert(cs@.subrange(colon + 1, cs@.len() as int) =~= line@.skip(colon + 1));
    }
    Some((line.substring_char(ka, kb), line.substring_char(va, vb)))
}

pub open spec fn header_is(a: BlockHeader, b: BlockHeader) -> bool {
    a.width == b.width && a.height == b.height && a.has_size == b.has_size && a.encoding_seen
        == b.encoding_seen && a.alive == b.alive && a.dead == b.dead
}

/// Reads the header lines of a block, up to its first grid row.
#[verifier::rlimit(40)]
fn read_header(cursor: &mut LineCursor, label: &str) -> (r: Result<(BlockHeader, String, ParseLocation), BoardSnapshotReadError>)
    ensures
        final(cursor).lines_view() == old(cursor).lines_view(),
        final(cursor).path_view() == old(cursor).path_view(),
        match header_scan(old(cursor).lines_view(), old(cursor).pos(), empty_header()) {
            HeaderStop::Grid(k, h) => r matches Ok((hh, row, loc)) && header_is(hh, h) && final(cursor).pos() == k + 1 && row@ == block_line(old(cursor).lines_view()[k as int]) && k
                < old(cursor).lines_view().len() && location_is(loc, old(cursor).path_view(), one_based(k as nat)),
            stop => header_error(
                match r {
                    Ok(_) => Ok(arbitrary()),
                    Err(e) => Err(e),
                },
                old(cursor).path_view(),
                old(cursor).lines_view(),
                label@,
                stop,
            ) && r is Err,
        },
{
    let ghost lines = cursor.lines_view();
    let ghost path = cursor.path_view();
    let ghost p0 = cursor.pos();
    let _ = cursor.position();
    let mut h = BlockHeader { width: 0, height: 0, has_size: false, encoding_seen: false, alive: None, dead: None };
    loop
        invariant
            lines == old(cursor).lines_view(),
            path == old(cursor).path_view(),
            p0 == old(cursor).pos(),
            cursor.lines_view() == lines,
            cursor.path_view() == path,
            cursor.pos() <= lines.len(),
            header_scan(lines, p0, empty_header()) == header_scan(lines, cursor.pos(), h),
        decreases lines.len() - cursor.pos(),
    {
        let k = cursor.position();
        let location = cursor.current_location();
        let raw = match cursor.next_raw() {
            Some(l) => l,
            None => {
                let mut expected = "board header lines followed by ".to_owned();
                push_str(&mut expected, quoted_string(format_end_fence(label).as_str()).as_str());
                return Err(
                    BoardSnapshotReadError::Parse(
                        ParseError::UnexpectedEnd { location: cursor.eof_location(), expected },
                    ),
                );
            },
        };
        let line = block_line_of(raw.as_str());
        if line.unicode_len() == 0 {
            return Err(
                BoardSnapshotReadError::Parse(
                    ParseError::RaggedBoardRow {
                        location,
                        expected_width: if h.has_size {
                            h.width
                        } else {
                            0
                        },
                        actual_width: 0,
                    },
                ),
            );
        }
        let (key, value) = match header_line_parts(line) {
            Some(kv) => kv,
            None => {
                return Ok((h, line.to_owned(), location));
            },
        };
        if str_eq(key, "size") {
            if h.has_size {
                return Err(
                    BoardSnapshotReadError::Parse(
                        ParseError::DuplicateField { location, field: "size".to_owned() },
                    ),
                );
            }
            match parse_size_value(value) {
                Some((w, ht)) => {
                    if w == 0 || ht == 0 {
                        return Err(
                            BoardSnapshotReadError::MalformedSizeHeader { location, value: value.to_owned() },
                        );
                    }
                    h.width = w;
                    h.height = ht;
                    h.has_size = true;
                },
                None => {
                    return Err(
                        BoardSnapshotReadError::MalformedSizeHeader { location, value: value.to_owned() },
                    );
                },
            }
        } else if str_eq(key, "encoding") {
            if h.encoding_seen {
                return Err(
                    BoardSnapshotReadError::Parse(
                        ParseError::DuplicateField { location, field: "encoding".to_owned() },
                    ),
                );
            }
            if !str_eq(value, ENCODING_ASCII) {
                return Err(
                    BoardSnapshotReadError::Parse(
                        ParseError::UnknownEncoding { location, encoding: value.to_owned() },
                    ),
                );
            }
            h.encoding_seen = true;
        } else if str_eq(key, "alive_count") {
            if h.alive.is_some() {
                return Err(
                    BoardSnapshotReadError::Parse(
                        ParseError::DuplicateField { location, field: "alive_count".to_owned() },
                    ),
                );
            }
            match crate::text::parse_usize_str(value) {
                Some(n) => {
                    h.alive = Some(n);
                },
                None => {
                    let mut text = "alive_count: ".to_owned();
                    push_str(&mut text, value);
                    proof {
                        reveal_strlit("alive_count: ");
                        reveal_strlit("alive_count");
                        reveal_strlit(": ");
                        assert(text@ =~= "alive_count"@ + ": "@ + value@);
                    }
                    return Err(
                        BoardSnapshotReadError::Parse(ParseError::MalformedFieldLine { location, line: text }),
                    );
                },
            }
        } else if str_eq(key, "dead_count") {
            if h.dead.is_some() {
                return Err(
                    BoardSnapshotReadError::Parse(
                        ParseError::DuplicateField { location, field: "dead_count".to_owned() },
                    ),
                );
            }
            match crate::text::parse_usize_str(value) {
                Some(n) => {
                    h.dead = Some(n);
                },
                None => {
                    let mut text = "dead_count: ".to_owned();
                    push_str(&mut text, value);
                    proof {
                        reveal_strlit("dead_count: ");
                        reveal_strlit("dead_count");
                        reveal_strlit(": ");
                        assert(text@ =~= "dead_count"@ + ": "@ + value@);
                    }
                    return Err(
                        BoardSnapshotReadError::Parse(ParseError::MalformedFieldLine { location, line: text }),
                    );
                },
            }
        } else {
            return Err(
                BoardSnapshotReadError::Parse(
                    ParseError::MalformedFieldLine { location, line: line.to_owned() },
                ),
            );
        }
        proof {
            assert(k < lines.len());
        }
    }
}

pub proof fn lemma_first_bad_char(row: Seq<char>)
    ensures
        match first_bad_char(row) {
            Some(i) => 0 <= i < row.len() && row[i] != '.' && row[i] != '#' && forall|j: int|
                0 <= j < i ==> row[j] == '.' || row[j] == '#',
            None => forall|j: int| 0 <= j < row.len() ==> row[j] == '.' || row[j] == '#',
        },
    decreases row.len(),
{
    if row.len() > 0 {
        lemma_first_bad_char(row.drop_first());
        assert forall|j: int| 0 < j < row.len() implies row[j] == row.drop_first()[j - 1] by {}
    }
}

/// The cell a grid character stands for.
pub open spec fn cell_of_char(c: char) -> CellState {
    if c == '#' {
        CellState::Alive
    } else {
        CellState::Dead
    }
}

/// Reads grid row `y` of `board` from `row`.
fn parse_grid_row(board: &mut InMemoryBoard, y: usize, row: &str, w: usize, location: &ParseLocation) -> (r: Result<(), ParseError>)
    requires
        old(board).spec_width() == w,
        y < old(board).spec_height(),
    ensures
        final(board).spec_width() == old(board).spec_width(),
        final(board).spec_height() == old(board).spec_height(),
        r is Ok <==> row_ok(row@, w as nat),
        r is Ok ==> forall|x: int, yy: int|
            in_bounds(w as int, old(board).spec_height() as int, x, yy) ==> #[trigger] final(board).cell(x, yy)
                == if yy == y {
                cell_of_char(row@[x])
            } else {
                old(board).cell(x, yy)
            },
        r matches Err(e) ==> row_error(e, row@, w as nat, location.path@, location.line_number),
{
    let cs = chars_of(row);
    proof {
        lemma_first_bad_char(row@);
    }
    if cs.len() != w {
        return Err(
            ParseError::RaggedBoardRow {
                location: location.duplicate(),
                expected_width: w,
                actual_width: cs.len(),
            },
        );
    }
    let ghost start = *board;
    let mut x: usize = 0;
    while x < w
        invariant
            x <= w,
            board.spec_width() == old(board).spec_width(),
            board.spec_height() == old(board).spec_height(),
            start == *old(board),
            cs@ == row@,
            cs@.len() == w,
            board.spec_width() == w,
            board.spec_height() == start.spec_height(),
            start.spec_width() == w,
            y < start.spec_height(),
            forall|j: int| 0 <= j < x ==> row@[j] == '.' || row@[j] == '#',
            match first_bad_char(row@) {
                Some(i) => 0 <= i < row@.len() && row@[i] != '.' && row@[i] != '#' && forall|j: int|
                    0 <= j < i ==> row@[j] == '.' || row@[j] == '#',
                None => forall|j: int| 0 <= j < row@.len() ==> row@[j] == '.' || row@[j] == '#',
            },
            forall|px: int, yy: int|
                in_bounds(w as int, start.spec_height() as int, px, yy) ==> #[trigger] board.cell(px, yy)
                    == if yy == y && px < x {
                    cell_of_char(row@[px])
                } else {
                    start.cell(px, yy)
                },
        decreases w - x,
    {
        let c = cs[x];
        let state = if c == '.' {
            CellState::Dead
        } else if c == '#' {
            CellState::Alive
        } else if (c as u32) > 0x7f {
            return Err(ParseError::NonAsciiBoardCharacter { location: location.duplicate(), character: c });
        } else {
            return Err(ParseError::UnknownBoardCharacter { location: location.duplicate(), character: c });
        };
        board.set(x, y, state);
        x += 1;
    }
    Ok(())
}

/// Number of `#` characters of a row.
fn count_hash(row: &str) -> (r: usize)
    ensures
        r == alive_in_row(row@),
        r <= row@.len(),
{
    let cs = chars_of(row);
    let mut n: usize = 0;
    let mut i: usize = 0;
    while i < cs.len()
        invariant
            i <= cs@.len(),
            cs@ == row@,
            n == alive_in_row(cs@.take(i as int)),
            n <= i,
        decreases cs@.len() - i,
    {
        proof {
            assert(cs@.take(i + 1).drop_last() =~= cs@.take(i as int));
        }
        if cs[i] == '#' {
            n += 1;
        }
        i += 1;
    }
    proof {
        assert(cs@.take(i as int) =~= cs@);
    }
    n
}

/// The cell the grid rows from line `k` give for `(x, y)`.
pub open spec fn grid_cell(lines: Seq<Seq<char>>, k: nat, x: int, y: int) -> CellState {
    cell_of_char(block_line(lines[k + y])[x])
}

/// Reads the grid rows, the END fence and checks the counts of a block whose
/// first grid row is line `k`.
#[verifier::rlimit(60)]
fn read_grid(
    cursor: &mut LineCursor,
    label: &str,
    max_mem: usize,
    h: BlockHeader,
    first_row: String,
    first_location: ParseLocation,
    Ghost(k): Ghost<nat>,
) -> (r: Result<InMemoryBoard, BoardSnapshotReadError>)
    requires
        old(cursor).pos() == k + 1,
        k < old(cursor).lines_view().len(),
        h.has_size ==> h.width > 0 && h.height > 0,
        first_row@ == block_line(old(cursor).lines_view()[k as int]),
        location_is(first_location, old(cursor).path_view(), one_based(k)),
    ensures
        final(cursor).lines_view() == old(cursor).lines_view(),
        final(cursor).path_view() == old(cursor).path_view(),
        grid_result(
            r,
            old(cursor).path_view(),
            old(cursor).lines_view(),
            label@,
            max_mem,
            k,
            h,
        ),
        r is Ok ==> final(cursor).pos() == k + h.height + 1,
{
    let ghost lines = cursor.lines_view();
    let ghost path = cursor.path_view();
    if !h.has_size {
        let mut section = label.to_owned();
        push_str(&mut section, " block");
        return Err(
            BoardSnapshotReadError::Parse(
                ParseError::MissingRequiredField { section, field: "size".to_owned() },
            ),
        );
    }
    let w = h.width;
    let ht = h.height;
    match validate_loaded_board_size(w, ht, max_mem) {
        Err(e) => {
            return Err(BoardSnapshotReadError::LoadedBoardSize(e));
        },
        Ok(_) => {},
    }
    let mut board = InMemoryBoard::new(w, ht);
    match parse_grid_row(&mut board, 0, first_row.as_str(), w, &first_location) {
        Err(e) => {
            return Err(BoardSnapshotReadError::Parse(e));
        },
        Ok(()) => {},
    }
    let mut alive = count_hash(first_row.as_str());
    let mut y: usize = 1;
    proof {
        reveal_with_fuel(alive_in_rows, 2);
        assert(alive_in_rows(lines, k, 1) == alive_in_row(block_line(lines[k as int])));
        reveal_with_fuel(first_bad_row, 2);
    }
    while y < ht
        invariant
            lines == old(cursor).lines_view(),
            path == old(cursor).path_view(),
            cursor.lines_view() == lines,
            cursor.path_view() == path,
            h.has_size,
            w == h.width,
            ht == h.height,
            w * ht <= usize::MAX,
            validate_size_ok(w, ht, max_mem),
            1 <= y <= ht,
            cursor.pos() == k + y,
            board.spec_width() == w,
            board.spec_height() == ht,
            forall|x: int, yy: int|
                0 <= x < w && 0 <= yy < y ==> #[trigger] board.cell(x, yy) == grid_cell(lines, k, x, yy),
            first_bad_row(lines, k, w as nat, ht as nat, 0) == first_bad_row(lines, k, w as nat, ht as nat, y as nat),
            alive == alive_in_rows(lines, k, y as nat),
            alive <= w * y,
        decreases ht - y,
    {
        let line_location = cursor.current_location();
        let raw = match cursor.next_raw() {
            Some(l) => l,
            None => {
                let mut expected = "additional board rows followed by ".to_owned();
                push_str(&mut expected, quoted_string(format_end_fence(label).as_str()).as_str());
                return Err(
                    BoardSnapshotReadError::Parse(
                        ParseError::UnexpectedEnd { location: cursor.eof_location(), expected },
                    ),
                );
            },
        };
        let row = block_line_of(raw.as_str());
        match parse_grid_row(&mut board, y, row, w, &line_location) {
            Err(e) => {
                return Err(BoardSnapshotReadError::Parse(e));
            },
            Ok(()) => {},
        }
        let n = count_hash(row);
        proof {
            assert(w * y + w == w * (y + 1)) by (nonlinear_arith);
            assert(w * (y + 1) <= w * ht) by (nonlinear_arith)
                requires
                    y + 1 <= ht,
            ;
        }
        alive = alive + n;
        y += 1;
    }
    let end_location = cursor.current_location();
    let end_raw = match cursor.next_raw() {
        Some(l) => l,
        None => {
            return Err(
                BoardSnapshotReadError::Parse(
                    ParseError::UnexpectedEnd {
                        location: cursor.eof_location(),
                        expected: quoted_string(format_end_fence(label).as_str()),
                    },
                ),
            );
        },
    };
    let end_line = block_line_of(end_raw.as_str());
    let end_label = match parse_end_fence(end_line) {
        Some(l) => l,
        None => {
            return Err(
                BoardSnapshotReadError::Parse(
                    ParseError::MalformedFence { location: end_location, line: end_line.to_owned() },
                ),
            );
        },
    };
    if !str_eq(end_label, label) {
        return Err(
            BoardSnapshotReadError::Parse(
                ParseError::UnexpectedFenceLabel {
                    location: end_location,
                    expected: label.to_owned(),
                    actual: end_label.to_owned(),
                },
            ),
        );
    }
    let mut section = label.to_owned();
    push_str(&mut section, " block");
    let header_alive = match h.alive {
        Some(n) => n,
        None => {
            return Err(
                BoardSnapshotReadError::Parse(
                    ParseError::MissingRequiredField { section, field: "alive_count".to_owned() },
                ),
            );
        },
    };
    let header_dead = match h.dead {
        Some(n) => n,
        None => {
            return Err(
                BoardSnapshotReadError::Parse(
                    ParseError::MissingRequiredField { section, field: "dead_count".to_owned() },
                ),
            );
        },
    };
    if !h.encoding_seen {
        return Err(
            BoardSnapshotReadError::Parse(
                ParseError::MissingRequiredField { section, field: "encoding".to_owned() },
            ),
        );
    }
    let computed_dead = w * ht - alive;
    if header_alive != alive {
        return Err(
            BoardSnapshotReadError::Parse(
                ParseError::BoardCountMismatch {
                    location: first_location,
                    field: "alive_count",
                    header_value: header_alive,
                    grid_value: alive,
                },
            ),
        );
    }
    if header_dead != computed_dead {
        return Err(
            BoardSnapshotReadError::Parse(
                ParseError::BoardCountMismatch {
                    location: first_location,
                    field: "dead_count",
                    header_value: header_dead,
                    grid_value: computed_dead,
                },
            ),
        );
    }
    Ok(board)
}

/// A header scan only records positive sizes.
proof fn lemma_header_scan_sizes(lines: Seq<Seq<char>>, k: nat, h: BlockHeader)
    requires
        h.has_size ==> h.width > 0 && h.height > 0,
    ensures
        header_scan(lines, k, h) matches HeaderStop::Grid(_, h2) ==> (h2.has_size ==> h2.width > 0
            && h2.height > 0),
    decreases lines.len() - k,
{
    if k < lines.len() {
        let line = block_line(lines[k as int]);
        let value = header_value(line);
        if line.len() != 0 && index_of(line, ':') is Some {
            let key = header_key(line);
            if key == "size"@ {
                match size_value(value) {
                    Some((w, ht)) => {
                        if !h.has_size && w != 0 && ht != 0 {
                            lemma_header_scan_sizes(
                                lines,
                                k + 1,
                                BlockHeader { width: w as usize, height: ht as usize, has_size: true, ..h },
                            );
                        }
                    },
                    None => {},
                }
            } else if key == "encoding"@ {
                lemma_header_scan_sizes(lines, k + 1, BlockHeader { encoding_seen: true, ..h });
            } else if key == "alive_count"@ {
                match parse_unsigned(value, usize::MAX as nat) {
                    Some(n) => lemma_header_scan_sizes(lines, k + 1, BlockHeader { alive: Some(n as usize), ..h }),
                    None => {},
                }
            } else if key == "dead_count"@ {
                match parse_unsigned(value, usize::MAX as nat) {
                    Some(n) => lemma_header_scan_sizes(lines, k + 1, BlockHeader { dead: Some(n as usize), ..h }),
                    None => {},
                }
            }
        }
    }
}

/// Reads a fenced board block labelled `expected_label`, from the cursor
/// on.
pub fn read_board_block(cursor: &mut LineCursor, expected_label: &str, max_board_memory_bytes: usize) -> (r: Result<
    InMemoryBoard,
    BoardSnapshotReadError,
>)
    ensures
        final(cursor).lines_view() == old(cursor).lines_view(),
        final(cursor).path_view() == old(cursor).path_view(),
        block_result(
            r,
            old(cursor).path_view(),
            old(cursor).lines_view(),
            old(cursor).pos(),
            expected_label@,
            max_board_memory_bytes,
        ),
        r is Ok ==> final(cursor).pos() == block_end_pos(old(cursor).lines_view(), old(cursor).pos()),
{
    let begin_line = match cursor.next_logical() {
        Some(l) => l,
        None => {
            return Err(
                BoardSnapshotReadError::Parse(
                    ParseError::UnexpectedEnd {
                        location: cursor.eof_location(),
                        expected: quoted_string(format_begin_fence(expected_label).as_str()),
                    },
                ),
            );
        },
    };
    let begin_location = cursor.last_consumed_location();
    let label = match parse_begin_fence(begin_line.as_str()) {
        Some(l) => l,
        None => {
            return Err(
                BoardSnapshotReadError::Parse(
                    ParseError::MalformedFence { location: begin_location, line: begin_line.clone() },
                ),
            );
        },
    };
    if !str_eq(label, expected_label) {
        return Err(
            BoardSnapshotReadError::Parse(
                ParseError::UnexpectedFenceLabel {
                    location: begin_location,
                    expected: expected_label.to_owned(),
                    actual: label.to_owned(),
                },
            ),
        );
    }
    let ghost after_begin = cursor.pos();
    let (h, first_row, first_location) = match read_header(cursor, expected_label) {
        Ok(x) => x,
        Err(e) => {
            return Err(e);
        },
    };
    let ghost k = (cursor.pos() - 1) as nat;
    proof {
        lemma_header_scan_sizes(cursor.lines_view(), (after_begin) as nat, empty_header());
    }
    read_grid(cursor, expected_label, max_board_memory_bytes, h, first_row, first_location, Ghost(k))
}

} // verus!
