//! Board snapshots and the fenced board block they share with run records.
//!
//! A standalone snapshot reads:
//!
//! ```text
//! GOL-BOARD-SNAPSHOT v1
//! schema_version: 1
//! created_at: 2026-06-12T22:55:20Z
//!
//! ----- BEGIN BOARD -----
//! size: 3x3
//! encoding: ascii
//! alive_count: 1
//! dead_count: 8
//! ...
//! .#.
//! ...
//! ----- END BOARD -----
//! ```
use vstd::prelude::*;

use crate::board::board_size::{first_separator, separator_count, size_text};
use crate::board::grid::{grid_count, in_bounds, row_count};
use crate::board::in_memory_board::allocation_result;
use crate::board::{CellState, InMemoryBoard, InMemoryBoardCreationError};
use crate::persistence::magic::{FileKind, MagicError, BOARD_SNAPSHOT_MAGIC, SCHEMA_VERSION};
use crate::persistence::parser::{
    begin_keyword, end_keyword, fence_text, format_begin_fence, format_end_fence, ParseError,
    ParseLocation,
};
use crate::persistence::timestamps::{format_utc, timestamp_text, TimestampParseError};
use crate::text::{decimal_digits, decimal_string, parse_unsigned, push_char, push_chars, push_str, str_eq};
use crate::persistence::board_block::{block_result, eof_line, location_is, quoted, read_board_block};
use crate::persistence::lines::{body_lines, next_nonblank, one_based, LineCursor};
use crate::persistence::magic::{magic_line_error, magic_text, sniff_from_reader, version_of_magic};
use crate::persistence::parser::{fence_label, field_line_parts, parse_begin_fence, parse_field_line};
use crate::persistence::timestamps::{parse_utc, parsed_utc, utc_result};

verus! {

/// Label of the single block in a standalone snapshot.
pub const BOARD_BLOCK_LABEL: &'static str = "BOARD";

/// The smallest memory override ever suggested.
pub const SUGGESTED_MEMORY_OVERRIDE_FLOOR_BYTES: usize = 1024;

pub const ENCODING_ASCII: &'static str = "ascii";

/// A standalone board snapshot; `created_at` is in seconds since the Unix
/// epoch.
#[derive(Debug, Clone)]
pub struct BoardSnapshot {
    pub schema_version: u32,
    pub created_at: u64,
    pub board: InMemoryBoard,
}

#[verifier::external_type_specification]
#[verifier::external_body]
pub struct ExSystemTime(std::time::SystemTime);

#[verifier::external_type_specification]
#[verifier::external_body]
pub struct ExSystemTimeError(std::time::SystemTimeError);

/// `std::time::SystemTime::now()`: what the system clock says. Nothing is
/// promised of it.
#[verifier::external_body]
fn clock_now() -> std::time::SystemTime {
    std::time::SystemTime::now()
}

/// `SystemTime::duration_since(UNIX_EPOCH)`: the time elapsed since the Unix
/// epoch, or an error for a time before it. Nothing is promised of the
/// duration, which is opaque here.
#[verifier::external_body]
fn since_unix_epoch(t: &std::time::SystemTime) -> Result<std::time::Duration, std::time::SystemTimeError> {
    t.duration_since(std::time::UNIX_EPOCH)
}

/// `Duration::as_secs`: the whole seconds of `d`. Nothing is promised of the
/// value, the duration being opaque here.
#[verifier::external_body]
fn whole_seconds(d: &std::time::Duration) -> u64 {
    d.as_secs()
}

/// Seconds since the Unix epoch now, by the system clock; 0 for a clock set
/// before the epoch. Nothing is promised of the value: it is whatever the
/// clock says.
pub fn current_unix_seconds() -> (r: u64) {
    match since_unix_epoch(&clock_now()) {
        Ok(d) => whole_seconds(&d),
        Err(_) => 0,
    }
}

impl BoardSnapshot {
    /// A snapshot of `board` with the current schema version, created now.
    pub fn for_board(board: InMemoryBoard) -> (r: Self)
        ensures
            r.schema_version == SCHEMA_VERSION,
            r.board == board,
    {
        BoardSnapshot { schema_version: SCHEMA_VERSION, created_at: current_unix_seconds(), board }
    }
}

/// Why a snapshot or board block could not be written.
#[derive(Debug)]
pub enum BoardSnapshotWriteError {
    Io(crate::persistence::errors::PersistenceIoError),
    OutputExists { path: String },
}

/// Why a snapshot or board block could not be read.
#[derive(Debug)]
pub enum BoardSnapshotReadError {
    Io(crate::persistence::errors::PersistenceIoError),
    Magic(MagicError),
    UnexpectedFileKind { path: String, expected: FileKind, actual: FileKind },
    InvalidTimestamp(TimestampParseError),
    Parse(ParseError),
    LoadedBoardSize(LoadedBoardSizeError),
    FileTooLarge { path: String, actual_bytes: u64, limit_bytes: usize },
    MalformedSizeHeader { location: ParseLocation, value: String },
}

/// Why a board declared by a header cannot be loaded.
#[derive(Debug, Clone, PartialEq, Eq)]
pub enum LoadedBoardSizeError {
    /// It would fit in memory, but not within the configured budget.
    ExceedsMemoryBudget {
        width: usize,
        height: usize,
        required_bytes: usize,
        max_budget_bytes: usize,
        suggested_override: SuggestedMemoryOverride,
    },
    /// It cannot fit in memory on this platform at all.
    ExceedsAddressableMemory {
        width: usize,
        height: usize,
        required_bytes: u128,
        max_addressable_bytes: usize,
    },
}

/// A suggested `--max-board-memory` value, shown as `<amount><suffix>`.
#[derive(Debug, Clone, Copy, PartialEq, Eq)]
pub struct SuggestedMemoryOverride {
    pub bytes: usize,
    pub display: SuggestedMemoryDisplay,
}

#[derive(Debug, Clone, Copy, PartialEq, Eq)]
pub struct SuggestedMemoryDisplay {
    pub amount: usize,
    pub suffix: &'static str,
}

pub const KB: usize = 1024;

pub const MB: usize = 1024 * 1024;

pub const GB: usize = 1024 * 1024 * 1024;

/// `a` rounded up by doubling `snap` until it reaches `a`; past 1024 the
/// amount is instead rounded up to a multiple of 256.
pub open spec fn snap_up(snap: nat, a: nat) -> nat
    decreases 2048 - snap,
{
    if snap >= a {
        snap
    } else if snap >= 1024 {
        ((a + 255) / 256) * 256
    } else if snap == 0 {
        0
    } else {
        snap_up(2 * snap, a)
    }
}

/// A friendly amount at least `a`: 1, a power of two up to 1024, or above
/// that a multiple of 256.
pub open spec fn friendly_amount(a: nat) -> nat {
    if a <= 1 {
        1
    } else {
        snap_up(1, a)
    }
}

/// The unit (in bytes) a suggestion for `target` bytes is written in.
pub open spec fn suggestion_unit(target: nat) -> nat {
    if target < MB {
        KB as nat
    } else if target < GB {
        MB as nat
    } else {
        GB as nat
    }
}

pub open spec fn suggestion_suffix(target: nat) -> Seq<char> {
    if target < MB {
        "KB"@
    } else if target < GB {
        "MB"@
    } else {
        "GB"@
    }
}

/// The amount of units suggested for `required` bytes.
pub open spec fn suggested_amount(required: nat) -> nat {
    let target = if required < SUGGESTED_MEMORY_OVERRIDE_FLOOR_BYTES {
        SUGGESTED_MEMORY_OVERRIDE_FLOOR_BYTES as nat
    } else {
        required
    };
    let unit = suggestion_unit(target);
    friendly_amount(((target + unit - 1) as nat / unit) as nat)
}

/// One of the powers of two from 1 to 1024.
pub open spec fn is_snap(s: nat) -> bool {
    s == 1 || s == 2 || s == 4 || s == 8 || s == 16 || s == 32 || s == 64 || s == 128 || s == 256
        || s == 512 || s == 1024
}

proof fn lemma_snap_up(snap: nat, a: nat)
    requires
        is_snap(snap),
        a <= usize::MAX,
    ensures
        snap_up(snap, a) >= a,
        snap_up(snap, a) >= snap,
        snap_up(snap, a) <= if a <= 1024 {
            1024
        } else {
            a + 255
        },
    decreases 2048 - snap,
{
    if snap < a && snap < 1024 {
        lemma_snap_up(2 * snap, a);
    }
}

fn round_up_to_friendly(amount: usize) -> (r: usize)
    requires
        amount <= usize::MAX - 256,
    ensures
        r == friendly_amount(amount as nat),
{
    if amount <= 1 {
        return 1;
    }
    let mut snap: usize = 1;
    while snap < amount
        invariant
            is_snap(snap as nat),
            1 < amount <= usize::MAX - 256,
            snap_up(snap as nat, amount as nat) == snap_up(1, amount as nat),
        decreases 2048 - snap,
    {
        if snap >= 1024 {
            return ((amount + 255) / 256) * 256;
        }
        snap = snap * 2;
    }
    snap
}

/// `o` is the override suggested for `required` bytes: the friendly
/// amount of the unit that suits the (floored) requirement, and its bytes,
/// saturating at `usize::MAX`.
pub open spec fn is_suggestion_for(o: SuggestedMemoryOverride, required: nat) -> bool {
    let target = if required < SUGGESTED_MEMORY_OVERRIDE_FLOOR_BYTES {
        SUGGESTED_MEMORY_OVERRIDE_FLOOR_BYTES as nat
    } else {
        required
    };
    &&& o.display.amount == suggested_amount(required)
    &&& o.display.suffix@ == suggestion_suffix(target)
    &&& o.bytes == if o.display.amount * suggestion_unit(target) > usize::MAX {
        usize::MAX as int
    } else {
        o.display.amount * suggestion_unit(target)
    }
}

/// A memory override at least `required_bytes`, rounded up to a familiar
/// `<n>KB`, `<n>MB` or `<n>GB` value.
pub fn suggest_memory_override(required_bytes: usize) -> (r: SuggestedMemoryOverride)
    ensures
        is_suggestion_for(r, required_bytes as nat),
        r.bytes >= required_bytes,
        r.bytes >= SUGGESTED_MEMORY_OVERRIDE_FLOOR_BYTES,
{
    let target = if required_bytes < SUGGESTED_MEMORY_OVERRIDE_FLOOR_BYTES {
        SUGGESTED_MEMORY_OVERRIDE_FLOOR_BYTES
    } else {
        required_bytes
    };
    let (unit_bytes, suffix) = if target < MB {
        (KB, "KB")
    } else if target < GB {
        (MB, "MB")
    } else {
        (GB, "GB")
    };
    proof {
        assert(target / unit_bytes <= target / 1024) by (nonlinear_arith)
            requires
                unit_bytes >= 1024,
        ;
    }
    let raw = target / unit_bytes + if target % unit_bytes == 0 {
        0
    } else {
        1
    };
    proof {
        assert(raw == ((target + unit_bytes - 1) as nat / unit_bytes as nat) as nat) by (nonlinear_arith)
            requires
                unit_bytes >= 1,
                raw == target / unit_bytes + if target % unit_bytes == 0 {
                    0int
                } else {
                    1int
                },
        ;
        assert(raw <= target / 1024 + 1) by (nonlinear_arith)
            requires
                unit_bytes >= 1024,
                raw <= target / unit_bytes + 1,
        ;
        assert(raw * unit_bytes >= target) by (nonlinear_arith)
            requires
                unit_bytes >= 1,
                raw == target / unit_bytes + if target % unit_bytes == 0 {
                    0int
                } else {
                    1int
                },
        ;
        lemma_snap_up(1, raw as nat);
    }
    let amount = round_up_to_friendly(raw);
    let bytes = match amount.checked_mul(unit_bytes) {
        Some(b) => b,
        None => usize::MAX,
    };
    proof {
        assert(amount * unit_bytes >= raw * unit_bytes) by (nonlinear_arith)
            requires
                amount >= raw,
        ;
    }
    SuggestedMemoryOverride { bytes, display: SuggestedMemoryDisplay { amount, suffix } }
}

impl SuggestedMemoryOverride {
    /// `<amount><suffix>`, as given to `--max-board-memory`.
    pub fn to_text(&self) -> (r: String)
        ensures
            r@ == decimal_digits(self.display.amount as nat) + self.display.suffix@,
    {
        let mut s = String::new();
        push_chars(&mut s, decimal_string(self.display.amount as u64).as_slice());
        push_str(&mut s, self.display.suffix);
        s
    }
}

/// What `validate_loaded_board_size(width, height, max_budget_bytes)` returns.
pub open spec fn loaded_size_result(
    r: Result<usize, LoadedBoardSizeError>,
    width: usize,
    height: usize,
    max_budget_bytes: usize,
) -> bool {
    match allocation_result(width, height) {
        Ok(required) => if required > max_budget_bytes {
            r matches Err(
                LoadedBoardSizeError::ExceedsMemoryBudget {
                    width: w,
                    height: h,
                    required_bytes,
                    max_budget_bytes: m,
                    suggested_override,
                },
            ) && w == width && h == height && required_bytes == required && m == max_budget_bytes
                && is_suggestion_for(suggested_override, required as nat)
                && suggested_override.bytes >= required
        } else {
            r == Ok::<usize, LoadedBoardSizeError>(required)
        },
        Err(InMemoryBoardCreationError::AllocationAddressSpaceExceeded {
            requested_memory_bytes,
            max_addressable_bytes: m,
            ..
        }) => r matches Err(
            LoadedBoardSizeError::ExceedsAddressableMemory {
                width: w,
                height: h,
                required_bytes,
                max_addressable_bytes,
            },
        ) && w == width && h == height && required_bytes == requested_memory_bytes
            && max_addressable_bytes == m,
        Err(InMemoryBoardCreationError::AllocationSizeOverflow { cell_count, cell_size, .. }) => r matches Err(
            LoadedBoardSizeError::ExceedsAddressableMemory {
                width: w,
                height: h,
                required_bytes,
                max_addressable_bytes,
            },
        ) && w == width && h == height && required_bytes == cell_count * cell_size
            && max_addressable_bytes == isize::MAX,
        Err(_) => r matches Err(
            LoadedBoardSizeError::ExceedsAddressableMemory {
                width: w,
                height: h,
                required_bytes,
                max_addressable_bytes,
            },
        ) && w == width && h == height && required_bytes == width * height
            && max_addressable_bytes == isize::MAX,
    }
}

/// Checks that a `width × height` board fits in memory and within
/// `max_budget_bytes`; gives the bytes its cells need.
pub fn validate_loaded_board_size(width: usize, height: usize, max_budget_bytes: usize) -> (r: Result<
    usize,
    LoadedBoardSizeError,
>)
    ensures
        loaded_size_result(r, width, height, max_budget_bytes),
{
    match InMemoryBoard::allocation_bytes(width, height) {
        Ok(required_bytes) => {
            if required_bytes > max_budget_bytes {
                Err(
                    LoadedBoardSizeError::ExceedsMemoryBudget {
                        width,
                        height,
                        required_bytes,
                        max_budget_bytes,
                        suggested_override: suggest_memory_override(required_bytes),
                    },
                )
            } else {
                Ok(required_bytes)
            }
        },
        Err(InMemoryBoardCreationError::AllocationAddressSpaceExceeded {
            requested_memory_bytes,
            max_addressable_bytes,
            ..
        }) => Err(
            LoadedBoardSizeError::ExceedsAddressableMemory {
                width,
                height,
                required_bytes: requested_memory_bytes as u128,
                max_addressable_bytes,
            },
        ),
        Err(InMemoryBoardCreationError::AllocationSizeOverflow { cell_count, cell_size, .. }) => {
            proof {
                assert((cell_count as u128) * (cell_size as u128) <= u128::MAX) by (nonlinear_arith)
                    requires
                        cell_count <= u64::MAX,
                        cell_size <= u64::MAX,
                ;
            }
            Err(
                LoadedBoardSizeError::ExceedsAddressableMemory {
                    width,
                    height,
                    required_bytes: (cell_count as u128) * (cell_size as u128),
                    max_addressable_bytes: isize::MAX as usize,
                },
            )
        },
        Err(InMemoryBoardCreationError::CellCountOverflow { .. }) => {
            proof {
                assert((width as u128) * (height as u128) <= u128::MAX) by (nonlinear_arith)
                    requires
                        width <= u64::MAX,
                        height <= u64::MAX,
                ;
            }
            Err(
                LoadedBoardSizeError::ExceedsAddressableMemory {
                    width,
                    height,
                    required_bytes: (width as u128) * (height as u128),
                    max_addressable_bytes: isize::MAX as usize,
                },
            )
        },
        Err(InMemoryBoardCreationError::MemoryBudgetExceeded { .. }) => {
            proof {
                assert(false);
            }
            Ok(0)
        },
    }
}

/// The grid character of a cell: `#` alive, `.` otherwise.
pub open spec fn cell_char(c: CellState) -> char {
    if c == CellState::Alive {
        '#'
    } else {
        '.'
    }
}

/// Row `y` of the board as grid characters.
pub open spec fn row_text(b: InMemoryBoard, y: int) -> Seq<char> {
    Seq::new(b.spec_width(), |x: int| cell_char(b.cell(x, y)))
}

/// The first `n` rows of the board, each ended by a newline.
pub open spec fn grid_text(b: InMemoryBoard, n: nat) -> Seq<char>
    decreases n,
{
    if n == 0 {
        Seq::empty()
    } else {
        grid_text(b, (n - 1) as nat) + row_text(b, n - 1) + seq!['\n']
    }
}

pub open spec fn alive_pred(b: InMemoryBoard) -> spec_fn(int, int) -> bool {
    |x: int, y: int| b.cell(x, y) == CellState::Alive
}

/// Number of alive cells of the board.
pub open spec fn alive_cells(b: InMemoryBoard) -> nat {
    grid_count(alive_pred(b), b.spec_width(), b.spec_height())
}

/// The text of a fenced board block with the given label.
pub open spec fn block_text(label: Seq<char>, b: InMemoryBoard) -> Seq<char> {
    let w = b.spec_width();
    let h = b.spec_height();
    fence_text(begin_keyword(), label) + seq!['\n'] + "size: "@ + size_text(w, h) + seq!['\n']
        + "encoding: ascii"@ + seq!['\n'] + "alive_count: "@ + decimal_digits(alive_cells(b))
        + seq!['\n'] + "dead_count: "@ + decimal_digits((w * h - alive_cells(b)) as nat) + seq![
        '\n',
    ] + grid_text(b, h) + fence_text(end_keyword(), label) + seq!['\n']
}

/// The text of a standalone snapshot.
pub open spec fn snapshot_text(s: BoardSnapshot) -> Seq<char> {
    BOARD_SNAPSHOT_MAGIC@ + seq!['\n'] + "schema_version: "@ + decimal_digits(
        s.schema_version as nat,
    ) + seq!['\n'] + "created_at: "@ + timestamp_text(s.created_at as nat) + seq!['\n', '\n']
        + block_text(BOARD_BLOCK_LABEL@, s.board)
}

/// Numbers of alive and of other cells.
fn count_cells(board: &InMemoryBoard) -> (r: (usize, usize))
    ensures
        r.0 == alive_cells(*board),
        r.1 == board.spec_width() * board.spec_height() - alive_cells(*board),
{
    let w = board.width();
    let h = board.height();
    let total = board.cell_count();
    let ghost f = alive_pred(*board);
    let mut alive: usize = 0;
    let mut y: usize = 0;
    while y < h
        invariant
            w == board.spec_width(),
            h == board.spec_height(),
            total == w * h,
            y <= h,
            f == alive_pred(*board),
            alive == grid_count(f, w as nat, y as nat),
        decreases h - y,
    {
        let mut x: usize = 0;
        while x < w
            invariant
                w == board.spec_width(),
                h == board.spec_height(),
                total == w * h,
                y < h,
                x <= w,
                f == alive_pred(*board),
                alive == grid_count(f, w as nat, y as nat) + row_count(f, y as int, x as nat),
            decreases w - x,
        {
            proof {
                crate::board::grid::lemma_prefix_count_bound(f, w as nat, y as nat, x as nat);
                crate::board::grid::lemma_prefix_lt_area(w as nat, h as nat, y as nat, x as nat);
            }
            if board.get(x, y) == CellState::Alive {
                alive += 1;
            }
            x += 1;
        }
        y += 1;
    }
    proof {
        crate::board::grid::lemma_grid_count_bound(f, w as nat, h as nat);
    }
    (alive, total - alive)
}

fn push_decimal(out: &mut String, n: usize)
    ensures
        final(out)@ == old(out)@ + decimal_digits(n as nat),
{
    push_chars(out, decimal_string(n as u64).as_slice());
}

/// Appends a fenced board block (fences, size, encoding, counts and grid)
/// to `out`.
pub fn write_board_block_to(out: &mut String, label: &str, board: &InMemoryBoard)
    ensures
        final(out)@ == old(out)@ + block_text(label@, *board),
{
    let (alive, dead) = count_cells(board);
    let w = board.width();
    let h = board.height();
    let ghost start = out@;
    push_str(out, format_begin_fence(label).as_str());
    push_char(out, '\n');
    push_str(out, "size: ");
    push_str(out, crate::board::BoardSize { width: w, height: h }.to_text().as_str());
    push_char(out, '\n');
    push_str(out, "encoding: ascii");
    push_char(out, '\n');
    push_str(out, "alive_count: ");
    push_decimal(out, alive);
    push_char(out, '\n');
    push_str(out, "dead_count: ");
    push_decimal(out, dead);
    push_char(out, '\n');
    let ghost header = out@;
    let mut y: usize = 0;
    while y < h
        invariant
            w == board.spec_width(),
            h == board.spec_height(),
            y <= h,
            out@ == header + grid_text(*board, y as nat),
        decreases h - y,
    {
        let ghost before_row = out@;
        let mut x: usize = 0;
        while x < w
            invariant
                w == board.spec_width(),
                h == board.spec_height(),
                y < h,
                x <= w,
                out@ == before_row + row_text(*board, y as int).take(x as int),
            decreases w - x,
        {
            let c = if board.get(x, y) == CellState::Alive {
                '#'
            } else {
                '.'
            };
            push_char(out, c);
            proof {
                assert(row_text(*board, y as int).take(x + 1) =~= row_text(*board, y as int).take(
                    x as int,
                ).push(c));
            }
            x += 1;
        }
        push_char(out, '\n');
        proof {
            assert(row_text(*board, y as int).take(w as int) =~= row_text(*board, y as int));
        }
        y += 1;
    }
    push_str(out, format_end_fence(label).as_str());
    push_char(out, '\n');
    proof {
        reveal_strlit("size: ");
        reveal_strlit("encoding: ascii");
        reveal_strlit("alive_count: ");
        reveal_strlit("dead_count: ");
        assert(out@ =~= start + block_text(label@, *board));
    }
}

/// Appends a standalone snapshot to `out`.
pub fn write_board_snapshot_to(out: &mut String, snapshot: &BoardSnapshot)
    ensures
        final(out)@ == old(out)@ + snapshot_text(*snapshot),
{
    let ghost start = out@;
    push_str(out, BOARD_SNAPSHOT_MAGIC);
    push_char(out, '\n');
    push_str(out, "schema_version: ");
    push_chars(out, decimal_string(snapshot.schema_version as u64).as_slice());
    push_char(out, '\n');
    push_str(out, "created_at: ");
    push_str(out, format_utc(snapshot.created_at).as_str());
    push_char(out, '\n');
    push_char(out, '\n');
    let ghost mid = out@;
    write_board_block_to(out, BOARD_BLOCK_LABEL, &snapshot.board);
    proof {
        reveal_strlit("schema_version: ");
        reveal_strlit("created_at: ");
        assert(out@ =~= start + snapshot_text(*snapshot));
    }
}

/// The header values of a snapshot read so far.
pub struct SnapshotHeader {
    pub schema_version: Option<u32>,
    pub created_at: Option<u64>,
}

/// Where reading the header lines of a snapshot stopped; numbers are
/// indices into the body's lines.
pub enum SnapshotStop {
    Eof,
    BadLine(usize),
    Duplicate(usize),
    BadNumber(usize),
    UnsupportedSchema(usize),
    BadTimestamp(usize),
    UnknownKey(usize),
    /// The BEGIN fence of the board block is line `k`.
    Begin(usize, SnapshotHeader),
}

/// Reads the snapshot header lines from line `k` on, skipping blank ones.
pub open spec fn snapshot_header_scan(lines: Seq<Seq<char>>, k: nat, h: SnapshotHeader) -> SnapshotStop
    decreases lines.len() - k,
{
    if k >= lines.len() {
        SnapshotStop::Eof
    } else if next_nonblank(lines, k) >= lines.len() {
        SnapshotStop::Eof
    } else {
        let n = next_nonblank(lines, k);
        proof {
            crate::persistence::lines::lemma_next_nonblank(lines, k);
        }
        let line = lines[n as int];
        if fence_label(line, begin_keyword()) is Some {
            SnapshotStop::Begin(n as usize, h)
        } else {
            match field_line_parts(line) {
                None => SnapshotStop::BadLine(n as usize),
                Some((key, value)) => if key == "schema_version"@ {
                    if h.schema_version is Some {
                        SnapshotStop::Duplicate(n as usize)
                    } else {
                        match parse_unsigned(value, u32::MAX as nat) {
                            None => SnapshotStop::BadNumber(n as usize),
                            Some(v) => if v != SCHEMA_VERSION {
                                SnapshotStop::UnsupportedSchema(n as usize)
                            } else {
                                snapshot_header_scan(
                                    lines,
                                    n + 1,
                                    SnapshotHeader { schema_version: Some(v as u32), ..h },
                                )
                            },
                        }
                    }
                } else if key == "created_at"@ {
                    if h.created_at is Some {
                        SnapshotStop::Duplicate(n as usize)
                    } else {
                        match parsed_utc(value) {
                            None => SnapshotStop::BadTimestamp(n as usize),
                            Some(t) => snapshot_header_scan(
                                lines,
                                n + 1,
                                SnapshotHeader { created_at: Some(t as u64), ..h },
                            ),
                        }
                    }
                } else {
                    SnapshotStop::UnknownKey(n as usize)
                },
            }
        }
    }
}

pub open spec fn line_key(line: Seq<char>) -> Seq<char> {
    match field_line_parts(line) {
        Some((k, _)) => k,
        None => Seq::empty(),
    }
}

pub open spec fn line_value(line: Seq<char>) -> Seq<char> {
    match field_line_parts(line) {
        Some((_, v)) => v,
        None => Seq::empty(),
    }
}

/// The error for a snapshot header that stopped before the board block.
pub open spec fn snapshot_stop_error(
    r: Result<InMemoryBoard, BoardSnapshotReadError>,
    path: Seq<char>,
    lines: Seq<Seq<char>>,
    stop: SnapshotStop,
) -> bool {
    match stop {
                    SnapshotStop::Eof => r matches Err(
                        BoardSnapshotReadError::Parse(ParseError::UnexpectedEnd { location, expected }),
                    ) && location_is(location, path, eof_line(lines)) && expected@ == quoted(
                        fence_text(begin_keyword(), BOARD_BLOCK_LABEL@),
                    ),
                    SnapshotStop::BadLine(n) => r matches Err(
                        BoardSnapshotReadError::Parse(ParseError::MalformedFieldLine { location, line }),
                    ) && location_is(location, path, one_based(n as nat)) && line@ == lines[n as int],
                    SnapshotStop::Duplicate(n) => r matches Err(
                        BoardSnapshotReadError::Parse(ParseError::DuplicateField { location, field }),
                    ) && location_is(location, path, one_based(n as nat)) && field@ == line_key(
                        lines[n as int],
                    ),
                    SnapshotStop::BadNumber(n) => r matches Err(
                        BoardSnapshotReadError::Parse(ParseError::MalformedFieldLine { location, line }),
                    ) && location_is(location, path, one_based(n as nat)) && line@ == line_key(
                        lines[n as int],
                    ) + ": "@ + line_value(lines[n as int]),
                    SnapshotStop::UnsupportedSchema(n) => r matches Err(
                        BoardSnapshotReadError::Parse(ParseError::UnsupportedSchemaVersion { location, version }),
                    ) && location_is(location, path, one_based(n as nat)) && Some(version as nat)
                        == parse_unsigned(line_value(lines[n as int]), u32::MAX as nat),
                    SnapshotStop::BadTimestamp(n) => r matches Err(BoardSnapshotReadError::InvalidTimestamp(e))
                        && utc_result(Err(e), line_value(lines[n as int])),
                    SnapshotStop::UnknownKey(n) => r matches Err(
                        BoardSnapshotReadError::Parse(ParseError::MalformedFieldLine { location, line }),
                    ) && location_is(location, path, one_based(n as nat)) && line@ == line_key(
                        lines[n as int],
                    ) + ": "@ + line_value(lines[n as int]),
        SnapshotStop::Begin(_, _) => false,
    }
}

/// What reading a snapshot whose file is `path` and text `body` gives.
pub open spec fn snapshot_result(
    r: Result<BoardSnapshot, BoardSnapshotReadError>,
    path: Seq<char>,
    body: Seq<char>,
    max_mem: usize,
) -> bool {
    let bytes = vstd::utf8::encode_utf8(body);
    let lines = body_lines(body);
    let m = next_nonblank(lines, 0);
    let magic = if m < lines.len() {
        lines[m as int]
    } else {
        Seq::<char>::empty()
    };
    match magic_text(bytes) {
        None => r matches Err(BoardSnapshotReadError::Magic(e)) && magic_line_error(e, path, bytes),
        Some(first) => {
            let t = crate::text::trim(first);
            if version_of_magic(t) is Some {
                r matches Err(BoardSnapshotReadError::UnexpectedFileKind { path: p, expected, actual })
                    && p@ == path && expected == FileKind::BoardSnapshot && actual
                    == FileKind::RunRecord
            } else if t != BOARD_SNAPSHOT_MAGIC@ {
                r matches Err(BoardSnapshotReadError::Magic(e)) && (if t.len() == 0 {
                    e matches MagicError::EmptyFile { path: p } && p@ == path
                } else {
                    e matches MagicError::UnknownMagic { path: p, found } && p@ == path && found@ == t
                })
            } else if magic != BOARD_SNAPSHOT_MAGIC@ {
                r matches Err(BoardSnapshotReadError::Parse(ParseError::MalformedFieldLine { location, line }))
                    && location_is(location, path, one_based(m)) && line@ == magic
            } else {
                match snapshot_header_scan(lines, m + 1, SnapshotHeader { schema_version: None, created_at: None }) {
                    SnapshotStop::Begin(n, h) => if h.schema_version is None {
                        r matches Err(
                            BoardSnapshotReadError::Parse(ParseError::MissingRequiredField { section, field }),
                        ) && section@ == "header"@ && field@ == "schema_version"@
                    } else if h.created_at is None {
                        r matches Err(
                            BoardSnapshotReadError::Parse(ParseError::MissingRequiredField { section, field }),
                        ) && section@ == "header"@ && field@ == "created_at"@
                    } else {
                        block_result(
                            match r {
                                Ok(s) => Ok(s.board),
                                Err(e) => Err(e),
                            },
                            path,
                            lines,
                            n as nat,
                            BOARD_BLOCK_LABEL@,
                            max_mem,
                        ) && (r matches Ok(s) ==> s.schema_version == h.schema_version->0
                            && s.created_at == h.created_at->0)
                    },
                    stop => snapshot_stop_error(
                        match r {
                            Ok(s) => Ok(s.board),
                            Err(e) => Err(e),
                        },
                        path,
                        lines,
                        stop,
                    ),
                }
            }
        }
    }
}

fn key_value_text(key: &str, value: &str) -> (r: String)
    ensures
        r@ == key@ + ": "@ + value@,
{
    let mut s = key.to_owned();
    push_str(&mut s, ": ");
    push_str(&mut s, value);
    s
}

/// Reads one header line of a snapshot: `None` at the BEGIN fence (not
/// read), or the header values after the line.
#[verifier::rlimit(60)]
fn snapshot_header_step(cursor: &mut LineCursor, schema_version: Option<u32>, created_at: Option<u64>) -> (r: Result<
    Option<(Option<u32>, Option<u64>)>,
    BoardSnapshotReadError,
>)
    requires
        old(cursor).pos() <= old(cursor).lines_view().len(),
    ensures
        final(cursor).lines_view() == old(cursor).lines_view(),
        final(cursor).path_view() == old(cursor).path_view(),
        final(cursor).pos() <= final(cursor).lines_view().len(),
        ({
            let lines = old(cursor).lines_view();
            let h = SnapshotHeader { schema_version, created_at };
            let stop = snapshot_header_scan(lines, old(cursor).pos(), h);
            match r {
                Ok(None) => stop == SnapshotStop::Begin(final(cursor).pos() as usize, h)
                    && snapshot_header_scan(lines, final(cursor).pos(), h) == stop,
                Ok(Some((s, c))) => final(cursor).pos() > old(cursor).pos() && stop
                    == snapshot_header_scan(
                    lines,
                    final(cursor).pos(),
                    SnapshotHeader { schema_version: s, created_at: c },
                ),
                Err(e) => !(stop is Begin) && snapshot_stop_error(Err(e), old(cursor).path_view(), lines, stop),
            }
        }),
{
    let ghost lines = cursor.lines_view();
    let _ = cursor.line_count();
    proof {
        crate::persistence::lines::lemma_next_nonblank(lines, cursor.pos());
    }
    let line = match cursor.peek_logical() {
        Some(l) => l,
        None => {
            let mut e = "'".to_owned();
            push_str(&mut e, format_begin_fence(BOARD_BLOCK_LABEL).as_str());
            push_str(&mut e, "'");
            proof {
                reveal_strlit("'");
                assert(e@ =~= quoted(fence_text(begin_keyword(), BOARD_BLOCK_LABEL@)));
            }
            return Err(
                BoardSnapshotReadError::Parse(
                    ParseError::UnexpectedEnd { location: cursor.eof_location(), expected: e },
                ),
            );
        },
    };
    if parse_begin_fence(line.as_str()).is_some() {
        return Ok(None);
    }
    let location = cursor.current_location();
    cursor.consume();
    let (key, value) = match parse_field_line(location.duplicate(), line.as_str()) {
        Ok(kv) => kv,
        Err(e) => {
            return Err(BoardSnapshotReadError::Parse(e));
        },
    };
    if str_eq(key, "schema_version") {
        if schema_version.is_some() {
            return Err(
                BoardSnapshotReadError::Parse(ParseError::DuplicateField { location, field: key.to_owned() }),
            );
        }
        let parsed = match crate::text::parse_u32_str(value) {
            Some(v) => v,
            None => {
                return Err(
                    BoardSnapshotReadError::Parse(
                        ParseError::MalformedFieldLine { location, line: key_value_text(key, value) },
                    ),
                );
            },
        };
        if parsed != SCHEMA_VERSION {
            return Err(
                BoardSnapshotReadError::Parse(
                    ParseError::UnsupportedSchemaVersion { location, version: parsed },
                ),
            );
        }
        Ok(Some((Some(parsed), created_at)))
    } else if str_eq(key, "created_at") {
        if created_at.is_some() {
            return Err(
                BoardSnapshotReadError::Parse(ParseError::DuplicateField { location, field: key.to_owned() }),
            );
        }
        match parse_utc(value) {
            Ok(t) => Ok(Some((schema_version, Some(t)))),
            Err(e) => Err(BoardSnapshotReadError::InvalidTimestamp(e)),
        }
    } else {
        Err(
            BoardSnapshotReadError::Parse(
                ParseError::MalformedFieldLine { location, line: key_value_text(key, value) },
            ),
        )
    }
}

/// Reads the header lines of a snapshot up to the BEGIN fence of its board
/// block.
fn read_snapshot_header(cursor: &mut LineCursor) -> (r: Result<(Option<u32>, Option<u64>), BoardSnapshotReadError>)
    requires
        old(cursor).pos() <= old(cursor).lines_view().len(),
    ensures
        final(cursor).lines_view() == old(cursor).lines_view(),
        final(cursor).path_view() == old(cursor).path_view(),
        ({
            let stop = snapshot_header_scan(
                old(cursor).lines_view(),
                old(cursor).pos(),
                SnapshotHeader { schema_version: None, created_at: None },
            );
            match r {
                Ok((s, c)) => stop == SnapshotStop::Begin(
                    final(cursor).pos() as usize,
                    SnapshotHeader { schema_version: s, created_at: c },
                ) && final(cursor).pos() < old(cursor).lines_view().len(),
                Err(e) => !(stop is Begin) && snapshot_stop_error(
                    Err(e),
                    old(cursor).path_view(),
                    old(cursor).lines_view(),
                    stop,
                ),
            }
        }),
{
    let ghost lines = cursor.lines_view();
    let ghost path = cursor.path_view();
    let ghost q0 = cursor.pos();
    let mut schema_version: Option<u32> = None;
    let mut created_at: Option<u64> = None;
    let _ = cursor.position();
    let _ = cursor.line_count();
    loop
        invariant_except_break
            snapshot_header_scan(lines, q0, SnapshotHeader { schema_version: None, created_at: None })
                == snapshot_header_scan(
                lines,
                cursor.pos(),
                SnapshotHeader { schema_version, created_at },
            ),
        invariant
            lines == old(cursor).lines_view(),
            path == old(cursor).path_view(),
            q0 == old(cursor).pos(),
            cursor.lines_view() == lines,
            cursor.path_view() == path,
            cursor.pos() <= lines.len(),
            lines.len() <= usize::MAX,
        ensures
            snapshot_header_scan(lines, q0, SnapshotHeader { schema_version: None, created_at: None })
                == SnapshotStop::Begin(cursor.pos() as usize, SnapshotHeader { schema_version, created_at }),
            cursor.pos() < lines.len(),
        decreases lines.len() - cursor.pos(),
    {
        match snapshot_header_step(cursor, schema_version, created_at) {
            Ok(Some((s, c))) => {
                schema_version = s;
                created_at = c;
            },
            Ok(None) => {
                break;
            },
            Err(e) => {
                return Err(e);
            },
        }
    }
    Ok((schema_version, created_at))
}

/// Reads a standalone snapshot from the text `body` of the file at `path`.
#[verifier::rlimit(60)]
pub fn read_board_snapshot(path: &str, body: &str, max_board_memory_bytes: usize) -> (r: Result<
    BoardSnapshot,
    BoardSnapshotReadError,
>)
    ensures
        snapshot_result(r, path@, body@, max_board_memory_bytes),
{
    let kind = match sniff_from_reader(path, body.as_bytes()) {
        Ok(k) => k,
        Err(e) => {
            return Err(BoardSnapshotReadError::Magic(e));
        },
    };
    if kind != FileKind::BoardSnapshot {
        return Err(
            BoardSnapshotReadError::UnexpectedFileKind {
                path: path.to_owned(),
                expected: FileKind::BoardSnapshot,
                actual: kind,
            },
        );
    }
    let mut cursor = LineCursor::new(path, body);
    let ghost lines = cursor.lines_view();
    let magic = match cursor.peek_logical() {
        Some(l) => l,
        None => String::new(),
    };
    if !str_eq(magic.as_str(), BOARD_SNAPSHOT_MAGIC) {
        return Err(
            BoardSnapshotReadError::Parse(
                ParseError::MalformedFieldLine { location: cursor.current_location(), line: magic },
            ),
        );
    }
    cursor.consume();
    let ghost q0 = cursor.pos();
    let _ = cursor.line_count();
    let (schema_version, created_at) = match read_snapshot_header(&mut cursor) {
        Ok(h) => h,
        Err(e) => {
            return Err(e);
        },
    };
    let schema_version = match schema_version {
        Some(v) => v,
        None => {
            return Err(
                BoardSnapshotReadError::Parse(
                    ParseError::MissingRequiredField {
                        section: "header".to_owned(),
                        field: "schema_version".to_owned(),
                    },
                ),
            );
        },
    };
    let created_at = match created_at {
        Some(t) => t,
        None => {
            return Err(
                BoardSnapshotReadError::Parse(
                    ParseError::MissingRequiredField {
                        section: "header".to_owned(),
                        field: "created_at".to_owned(),
                    },
                ),
            );
        },
    };
    let ghost n = cursor.pos();
    proof {
        assert(n as usize as nat == n);
    }
    let board = match read_board_block(&mut cursor, BOARD_BLOCK_LABEL, max_board_memory_bytes) {
        Ok(b) => b,
        Err(e) => {
            return Err(e);
        },
    };
    Ok(BoardSnapshot { schema_version, created_at, board })
}

/// Reads a standalone snapshot; the default input-size limit applies where
/// the body is read.
pub fn read_board_snapshot_default(path: &str, body: &str, max_board_memory_bytes: usize) -> (r: Result<
    BoardSnapshot,
    BoardSnapshotReadError,
>)
    ensures
        snapshot_result(r, path@, body@, max_board_memory_bytes),
{
    read_board_snapshot(path, body, max_board_memory_bytes)
}

} // verus!
