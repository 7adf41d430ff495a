//! Run records: the configuration, statistics and initial and final boards
//! of one run, protected by a `content_hash` trailer.
//!
//! The trailer is the FNV-1a 64-bit hash of the canonical UTF-8 bytes of
//! everything from the magic line up to and including the newline before
//! `content_hash:`. Readers canonicalize the text first (LF line ends, no
//! trailing white space) so that a CRLF rewrite does not break the check.
use vstd::prelude::*;

use crate::board::{CellState, InMemoryBoard};
use crate::persistence::board_snapshot::{
    block_text, write_board_block_to, BoardSnapshotReadError, BoardSnapshotWriteError,
    LoadedBoardSizeError,
};
use crate::persistence::errors::PersistenceIoError;
use crate::persistence::hash::{fnv1a, fnv1a_64, format_hash, hash_text};
use crate::persistence::magic::{FileKind, MagicError, RUN_RECORD_MAGIC};
use crate::persistence::parser::{ParseError, ParseLocation};
use crate::persistence::run_id::{format_run_id, run_id_text, RunId};
use crate::persistence::timestamps::{format_utc, timestamp_text, TimestampParseError};
use crate::text::{decimal_digits, decimal_string, push_char, push_chars, push_str};

verus! {

pub const INITIAL_BOARD_LABEL: &'static str = "INITIAL BOARD";

pub const FINAL_BOARD_LABEL: &'static str = "FINAL BOARD";

pub const CONTENT_HASH_FIELD: &'static str = "content_hash";

/// The tool version written into every run record: this package's version.
pub const TOOL_VERSION: &'static str = "0.1.0";

/// How a reader treats a `content_hash` or board hash mismatch.
#[derive(Debug, Clone, Copy, PartialEq, Eq, Structural)]
pub enum ContentHashMode {
    Enforce,
    Ignore,
}

/// Which embedded board block to take from a run record.
#[derive(Debug, Clone, Copy, PartialEq, Eq, Structural)]
pub enum ExtractWhich {
    Initial,
    Final,
}

impl ExtractWhich {
    pub open spec fn label_text(self) -> Seq<char> {
        match self {
            ExtractWhich::Initial => INITIAL_BOARD_LABEL@,
            ExtractWhich::Final => FINAL_BOARD_LABEL@,
        }
    }

    /// The fence label of the selected block.
    pub fn label(self) -> (r: &'static str)
        ensures
            r@ == self.label_text(),
    {
        match self {
            ExtractWhich::Initial => INITIAL_BOARD_LABEL,
            ExtractWhich::Final => FINAL_BOARD_LABEL,
        }
    }

    /// Parses `initial` or `final` (surrounding white space ignored).
    pub fn parse(value: &str) -> (r: Result<Self, String>)
        ensures
            crate::text::trim(value@) == "initial"@ ==> r == Ok::<Self, String>(ExtractWhich::Initial),
            crate::text::trim(value@) == "final"@ ==> r == Ok::<Self, String>(ExtractWhich::Final),
            crate::text::trim(value@) != "initial"@ && crate::text::trim(value@) != "final"@ ==> (r matches Err(
                msg,
            ) && msg@ == "expected 'initial' or 'final' for --load-from, got '"@ + crate::text::trim(
                value@,
            ) + "'"@),
    {
        let t = crate::text::trim_str(value);
        proof {
            reveal_strlit("initial");
            reveal_strlit("final");
            assert("initial"@.len() == 7 && "final"@.len() == 5);
            assert("initial"@ != "final"@);
        }
        if crate::text::str_eq(t, "initial") {
            Ok(ExtractWhich::Initial)
        } else if crate::text::str_eq(t, "final") {
            Ok(ExtractWhich::Final)
        } else {
            let mut msg = "expected 'initial' or 'final' for --load-from, got '".to_owned();
            push_str(&mut msg, t);
            push_str(&mut msg, "'");
            Err(msg)
        }
    }
}

/// Everything a run record file holds.
#[derive(Debug)]
pub struct RunRecord {
    pub run_id: RunId,
    pub schema_version: u32,
    /// Seconds since the Unix epoch.
    pub created_at: u64,
    pub tool_version: String,
    pub config: RunRecordConfig,
    pub result: RunRecordResult,
    pub initial_board: InMemoryBoard,
    pub final_board: InMemoryBoard,
}

#[derive(Debug)]
pub struct RunRecordConfig {
    pub board_size: (usize, usize),
    pub max_iterations: usize,
    pub max_board_memory_bytes: usize,
    pub initial_board_source: String,
    pub random_seed: u64,
    pub updater: String,
    pub continued_from: Option<RunId>,
}

#[derive(Debug, Clone)]
pub struct RunRecordResult {
    pub status: String,
    pub iterations_run: u64,
    pub wall_time_ms: u64,
    pub initial_alive_count: u64,
    pub final_alive_count: u64,
    pub peak_alive_count: u64,
    pub peak_alive_generation: u64,
    pub min_alive_count: u64,
    pub min_alive_generation: u64,
    pub total_births: u64,
    pub total_deaths: u64,
    pub initial_board_hash: u64,
    pub final_board_hash: u64,
}

/// The run statuses a `status:` line may hold.
pub open spec fn recognized_status(s: Seq<char>) -> bool {
    s == "extinct"@ || s == "max_iterations"@ || s == "stable"@ || s == "cyclic"@
}

/// The recognized run statuses, in their documented order.
pub fn recognized_statuses() -> (r: Vec<&'static str>)
    ensures
        r@.len() == 4,
        r@[0]@ == "extinct"@,
        r@[1]@ == "max_iterations"@,
        r@[2]@ == "stable"@,
        r@[3]@ == "cyclic"@,
{
    vec!["extinct", "max_iterations", "stable", "cyclic"]
}

pub fn is_recognized_status(s: &str) -> (r: bool)
    ensures
        r == recognized_status(s@),
{
    crate::text::str_eq(s, "extinct") || crate::text::str_eq(s, "max_iterations")
        || crate::text::str_eq(s, "stable") || crate::text::str_eq(s, "cyclic")
}

/// Errors from writing a run record.
#[derive(Debug)]
pub enum RunRecordWriteError {
    Io(PersistenceIoError),
    OutputExists { path: String },
}

/// A snapshot write error as a run record write error.
pub fn write_error_from_snapshot(e: BoardSnapshotWriteError) -> (r: RunRecordWriteError)
    ensures
        match e {
            BoardSnapshotWriteError::Io(io) => r == RunRecordWriteError::Io(io),
            BoardSnapshotWriteError::OutputExists { path } => r == (RunRecordWriteError::OutputExists { path }),
        },
{
    match e {
        BoardSnapshotWriteError::Io(io) => RunRecordWriteError::Io(io),
        BoardSnapshotWriteError::OutputExists { path } => RunRecordWriteError::OutputExists { path },
    }
}

/// Errors from reading a run record.
#[derive(Debug)]
pub enum RunRecordReadError {
    Io(PersistenceIoError),
    Magic(MagicError),
    UnexpectedFileKind { path: String, expected: FileKind, actual: FileKind },
    InvalidTimestamp(TimestampParseError),
    Parse(ParseError),
    LoadedBoardSize(LoadedBoardSizeError),
    BoardBlockTooLarge { block: &'static str, run_id: RunId, source: LoadedBoardSizeError },
    FileTooLarge { path: String, actual_bytes: u64, limit_bytes: usize },
    MalformedSizeHeader { location: ParseLocation, value: String },
    Corrupted { path: String, expected_hash: u64, actual_hash: u64 },
    MissingContentHash { path: String },
    UnrecognizedStatus { location: ParseLocation, value: String },
    MalformedRunId { location: ParseLocation, value: String },
    MalformedField { location: ParseLocation, field: String, value: String },
    MissingField { section: String, field: String },
}

/// A snapshot read error carried over into a run record read error.
pub open spec fn snapshot_error_carried(e: BoardSnapshotReadError, r: RunRecordReadError) -> bool {
    match e {
        BoardSnapshotReadError::Io(x) => r == RunRecordReadError::Io(x),
        BoardSnapshotReadError::Magic(x) => r == RunRecordReadError::Magic(x),
        BoardSnapshotReadError::UnexpectedFileKind { path, expected, actual } => r
            == (RunRecordReadError::UnexpectedFileKind { path, expected, actual }),
        BoardSnapshotReadError::InvalidTimestamp(x) => r == RunRecordReadError::InvalidTimestamp(x),
        BoardSnapshotReadError::Parse(x) => r == RunRecordReadError::Parse(x),
        BoardSnapshotReadError::LoadedBoardSize(x) => r == RunRecordReadError::LoadedBoardSize(x),
        BoardSnapshotReadError::FileTooLarge { path, actual_bytes, limit_bytes } => r
            == (RunRecordReadError::FileTooLarge { path, actual_bytes, limit_bytes }),
        BoardSnapshotReadError::MalformedSizeHeader { location, value } => r
            == (RunRecordReadError::MalformedSizeHeader { location, value }),
    }
}

/// A snapshot read error as a run record read error, variant for variant.
pub fn read_error_from_snapshot(e: BoardSnapshotReadError) -> (r: RunRecordReadError)
    ensures
        snapshot_error_carried(e, r),
{
    match e {
        BoardSnapshotReadError::Io(x) => RunRecordReadError::Io(x),
        BoardSnapshotReadError::Magic(x) => RunRecordReadError::Magic(x),
        BoardSnapshotReadError::UnexpectedFileKind { path, expected, actual } => {
            RunRecordReadError::UnexpectedFileKind { path, expected, actual }
        },
        BoardSnapshotReadError::InvalidTimestamp(x) => RunRecordReadError::InvalidTimestamp(x),
        BoardSnapshotReadError::Parse(x) => RunRecordReadError::Parse(x),
        BoardSnapshotReadError::LoadedBoardSize(x) => RunRecordReadError::LoadedBoardSize(x),
        BoardSnapshotReadError::FileTooLarge { path, actual_bytes, limit_bytes } => {
            RunRecordReadError::FileTooLarge { path, actual_bytes, limit_bytes }
        },
        BoardSnapshotReadError::MalformedSizeHeader { location, value } => {
            RunRecordReadError::MalformedSizeHeader { location, value }
        },
    }
}

/// A run record together with the warnings raised while reading it.
#[derive(Debug)]
pub struct LoadedRunRecord {
    pub record: RunRecord,
    pub warnings: Vec<String>,
}

/// Errors from extracting a board of a run record into a snapshot.
#[derive(Debug)]
pub enum ExtractBoardError {
    Read(RunRecordReadError),
    Write(BoardSnapshotWriteError),
}

// -------- writing ------------------------------------------------------------
/// `key: value` and a newline.
pub open spec fn field_text(key: Seq<char>, value: Seq<char>) -> Seq<char> {
    key + ": "@ + value + seq!['\n']
}

pub open spec fn number_text(n: nat) -> Seq<char> {
    decimal_digits(n)
}

/// The `[config]` section of a run record.
pub open spec fn config_text(c: RunRecordConfig) -> Seq<char> {
    "[config]"@ + seq!['\n'] + field_text(
        "board_size"@,
        number_text(c.board_size.0 as nat) + seq!['x'] + number_text(c.board_size.1 as nat),
    ) + field_text("max_iterations"@, number_text(c.max_iterations as nat)) + field_text(
        "max_board_memory_bytes"@,
        number_text(c.max_board_memory_bytes as nat),
    ) + field_text("initial_board_source"@, c.initial_board_source@) + field_text(
        "random_seed"@,
        number_text(c.random_seed as nat),
    ) + field_text("updater"@, c.updater@) + match c.continued_from {
        Some(id) => field_text("continued_from"@, run_id_text(id.0@)),
        None => "continued_from:"@ + seq!['\n'],
    }
}

/// The `[result]` section of a run record.
pub open spec fn result_text(r: RunRecordResult) -> Seq<char> {
    "[result]"@ + seq!['\n'] + field_text("status"@, r.status@) + field_text(
        "iterations_run"@,
        number_text(r.iterations_run as nat),
    ) + field_text("wall_time_ms"@, number_text(r.wall_time_ms as nat)) + field_text(
        "initial_alive_count"@,
        number_text(r.initial_alive_count as nat),
    ) + field_text("final_alive_count"@, number_text(r.final_alive_count as nat)) + field_text(
        "peak_alive_count"@,
        number_text(r.peak_alive_count as nat),
    ) + field_text("peak_alive_generation"@, number_text(r.peak_alive_generation as nat))
        + field_text("min_alive_count"@, number_text(r.min_alive_count as nat)) + field_text(
        "min_alive_generation"@,
        number_text(r.min_alive_generation as nat),
    ) + field_text("total_births"@, number_text(r.total_births as nat)) + field_text(
        "total_deaths"@,
        number_text(r.total_deaths as nat),
    ) + field_text("initial_board_hash"@, hash_text(r.initial_board_hash)) + field_text(
        "final_board_hash"@,
        hash_text(r.final_board_hash),
    )
}

/// The magic line and the header fields of a run record.
pub open spec fn header_text(r: RunRecord) -> Seq<char> {
    RUN_RECORD_MAGIC@ + seq!['\n'] + field_text("run_id"@, run_id_text(r.run_id.0@)) + field_text(
        "schema_version"@,
        number_text(r.schema_version as nat),
    ) + field_text("created_at"@, timestamp_text(r.created_at as nat)) + field_text(
        "tool_version"@,
        r.tool_version@,
    )
}

/// The body of a run record: everything the `content_hash` trailer covers.
pub open spec fn run_record_body_text(r: RunRecord) -> Seq<char> {
    header_text(r) + seq!['\n'] + config_text(r.config) + seq!['\n'] + result_text(r.result)
        + seq!['\n'] + block_text(INITIAL_BOARD_LABEL@, r.initial_board) + seq!['\n'] + block_text(
        FINAL_BOARD_LABEL@,
        r.final_board,
    )
}

/// The whole file: the body, a blank line and the `content_hash` trailer.
pub open spec fn run_record_text(r: RunRecord) -> Seq<char> {
    let body = run_record_body_text(r);
    body + seq!['\n'] + field_text(
        CONTENT_HASH_FIELD@,
        hash_text(fnv1a(vstd::utf8::encode_utf8(body))),
    )
}

fn push_field(out: &mut String, key: &str, value: &str)
    ensures
        final(out)@ == old(out)@ + field_text(key@, value@),
{
    push_str(out, key);
    push_str(out, ": ");
    push_str(out, value);
    push_char(out, '\n');
}

fn push_number_field(out: &mut String, key: &str, n: u64)
    ensures
        final(out)@ == old(out)@ + field_text(key@, number_text(n as nat)),
{
    push_str(out, key);
    push_str(out, ": ");
    push_chars(out, decimal_string(n).as_slice());
    push_char(out, '\n');
}

fn write_config_to(out: &mut String, c: &RunRecordConfig)
    ensures
        final(out)@ == old(out)@ + config_text(*c),
{
    let ghost start = out@;
    push_str(out, "[config]");
    push_char(out, '\n');
    push_str(out, "board_size");
    push_str(out, ": ");
    push_chars(out, decimal_string(c.board_size.0 as u64).as_slice());
    push_char(out, 'x');
    push_chars(out, decimal_string(c.board_size.1 as u64).as_slice());
    push_char(out, '\n');
    push_number_field(out, "max_iterations", c.max_iterations as u64);
    push_number_field(out, "max_board_memory_bytes", c.max_board_memory_bytes as u64);
    push_field(out, "initial_board_source", c.initial_board_source.as_str());
    push_number_field(out, "random_seed", c.random_seed);
    push_field(out, "updater", c.updater.as_str());
    match &c.continued_from {
        Some(id) => {
            push_field(out, "continued_from", format_run_id(id).as_str());
        },
        None => {
            push_str(out, "continued_from:");
            push_char(out, '\n');
        },
    }
    proof {
        assert(out@ =~= start + config_text(*c));
    }
}

fn write_result_to(out: &mut String, r: &RunRecordResult)
    ensures
        final(out)@ == old(out)@ + result_text(*r),
{
    let ghost start = out@;
    push_str(out, "[result]");
    push_char(out, '\n');
    push_field(out, "status", r.status.as_str());
    push_number_field(out, "iterations_run", r.iterations_run);
    push_number_field(out, "wall_time_ms", r.wall_time_ms);
    push_number_field(out, "initial_alive_count", r.initial_alive_count);
    push_number_field(out, "final_alive_count", r.final_alive_count);
    push_number_field(out, "peak_alive_count", r.peak_alive_count);
    push_number_field(out, "peak_alive_generation", r.peak_alive_generation);
    push_number_field(out, "min_alive_count", r.min_alive_count);
    push_number_field(out, "min_alive_generation", r.min_alive_generation);
    push_number_field(out, "total_births", r.total_births);
    push_number_field(out, "total_deaths", r.total_deaths);
    push_field(out, "initial_board_hash", format_hash(r.initial_board_hash).as_str());
    push_field(out, "final_board_hash", format_hash(r.final_board_hash).as_str());
    proof {
        assert(out@ =~= start + result_text(*r));
    }
}

/// Appends the body of a run record (magic line through the final board
/// block) to `out`.
pub fn write_run_record_body(out: &mut String, record: &RunRecord)
    ensures
        final(out)@ == old(out)@ + run_record_body_text(*record),
{
    let ghost start = out@;
    write_header_to(out, record);
    let ghost s1 = out@;
    push_char(out, '\n');
    write_config_to(out, &record.config);
    let ghost s2 = out@;
    push_char(out, '\n');
    write_result_to(out, &record.result);
    let ghost s3 = out@;
    push_char(out, '\n');
    write_board_block_to(out, INITIAL_BOARD_LABEL, &record.initial_board);
    let ghost s4 = out@;
    push_char(out, '\n');
    write_board_block_to(out, FINAL_BOARD_LABEL, &record.final_board);
    proof {
        let r = *record;
        lemma_append_chain(
            start,
            header_text(r),
            config_text(r.config),
            result_text(r.result),
            block_text(INITIAL_BOARD_LABEL@, r.initial_board),
            block_text(FINAL_BOARD_LABEL@, r.final_board),
        );
    }
}

proof fn lemma_append_chain(
    start: Seq<char>,
    a: Seq<char>,
    b: Seq<char>,
    c: Seq<char>,
    d: Seq<char>,
    e: Seq<char>,
)
    ensures
        start + a + seq!['\n'] + b + seq!['\n'] + c + seq!['\n'] + d + seq!['\n'] + e == start + (a
            + seq!['\n'] + b + seq!['\n'] + c + seq!['\n'] + d + seq!['\n'] + e),
{
    assert(start + a + seq!['\n'] + b + seq!['\n'] + c + seq!['\n'] + d + seq!['\n'] + e =~= start + (a
        + seq!['\n'] + b + seq!['\n'] + c + seq!['\n'] + d + seq!['\n'] + e));
}

fn write_header_to(out: &mut String, record: &RunRecord)
    ensures
        final(out)@ == old(out)@ + header_text(*record),
{
    let ghost start = out@;
    push_str(out, RUN_RECORD_MAGIC);
    push_char(out, '\n');
    push_field(out, "run_id", format_run_id(&record.run_id).as_str());
    push_number_field(out, "schema_version", record.schema_version as u64);
    push_field(out, "created_at", format_utc(record.created_at).as_str());
    push_field(out, "tool_version", record.tool_version.as_str());
    proof {
        assert(out@ =~= start + header_text(*record));
    }
}

/// The full text of a run record file, `content_hash` trailer included.
pub fn encode_run_record(record: &RunRecord) -> (r: String)
    ensures
        r@ == run_record_text(*record),
{
    let mut body = String::new();
    write_run_record_body(&mut body, record);
    let content_hash = fnv1a_64(body.as_str().as_bytes());
    let mut out = body.clone();
    push_char(&mut out, '\n');
    push_field(&mut out, CONTENT_HASH_FIELD, format_hash(content_hash).as_str());
    proof {
        assert(body@ =~= run_record_body_text(*record));
    }
    out
}

/// The grid bytes of the first `n` rows: `#` for an alive cell, `.`
/// otherwise, each row ended by a newline.
pub open spec fn grid_bytes(b: InMemoryBoard, n: nat) -> Seq<u8>
    decreases n,
{
    if n == 0 {
        Seq::empty()
    } else {
        grid_bytes(b, (n - 1) as nat) + Seq::new(
            b.spec_width(),
            |x: int| if b.cell(x, n - 1) == CellState::Alive { 35u8 } else { 46u8 },
        ) + seq![10u8]
    }
}

/// The FNV-1a hash of a board's grid, encoded as the writer encodes it.
pub fn board_grid_hash(board: &InMemoryBoard) -> (r: u64)
    ensures
        r == fnv1a(grid_bytes(*board, board.spec_height())),
{
    let w = board.width();
    let h = board.height();
    let mut buffer: Vec<u8> = Vec::new();
    let mut y: usize = 0;
    while y < h
        invariant
            w == board.spec_width(),
            h == board.spec_height(),
            y <= h,
            buffer@ == grid_bytes(*board, y as nat),
        decreases h - y,
    {
        let ghost row_start = buffer@;
        let mut x: usize = 0;
        while x < w
            invariant
                w == board.spec_width(),
                h == board.spec_height(),
                y < h,
                x <= w,
                buffer@ == row_start + Seq::new(
                    x as nat,
                    |i: int| if board.cell(i, y as int) == CellState::Alive { 35u8 } else { 46u8 },
                ),
            decreases w - x,
        {
            let ch: u8 = if board.get(x, y) == CellState::Alive { 35u8 } else { 46u8 };
            buffer.push(ch);
            x += 1;
            proof {
                assert(buffer@ =~= row_start + Seq::new(
                    x as nat,
                    |i: int| if board.cell(i, y as int) == CellState::Alive { 35u8 } else { 46u8 },
                ));
            }
        }
        buffer.push(10u8);
        y += 1;
        proof {
            assert(buffer@ =~= grid_bytes(*board, y as nat));
        }
    }
    fnv1a_64(buffer.as_slice())
}

} // verus!
