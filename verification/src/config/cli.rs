//! The command-line parser: options are read left to right into a scan
//! state, then the verb (run, replay, extract) is decided and its
//! configuration built.
use vstd::prelude::*;

use crate::board::board_size::{board_size_result, board_size_value, lemma_board_size_result_value};
use crate::board::{BoardSize, BoardSizeParseError};
use crate::config::values::{
    initial_board_value, iterations_error, iterations_value, load_from_value, memory_error,
    memory_value, parse_max_iterations, parse_memory_size, InitialBoardSource,
    InitialBoardSourceParseError, IntegrityMode, IterationParseError, LoadFrom, LoadFromParseError,
    MemorySizeParseError, DEFAULT_MAX_BOARD_MEMORY_BYTES,
};
use crate::persistence::limits::DEFAULT_MAX_INPUT_FILE_BYTES;
use crate::text::{push_str, str_eq};
use crate::config::values::{source_name, DEFAULT_MAX_ITERATIONS};

verus! {

pub const DEFAULT_RUNS_DIR: &'static str = "runs";

pub const REPLAY_AND_EXTRACT: &'static str = "--replay and --extract-board cannot be combined; pick one";

pub const REPLAY_STANDALONE: &'static str = "--replay is a standalone verb; do not combine with run/load/continue/save options";

pub const EXTRACT_STANDALONE: &'static str = "--extract-board is a standalone verb; do not combine with run/load/continue/save options";

pub const CONTINUE_EXCLUSIVE: &'static str = "--continue is mutually exclusive with --load-board and --initial-board";

pub const BUDGET_EXCLUSIVE: &'static str = "--additional-iterations and --max-iterations are mutually exclusive with --continue; pick one (--additional-iterations N means N more steps; --max-iterations M means total chain target M)";

pub const BUDGET_OPTION: &'static str = "--additional-iterations or --max-iterations";

pub const BUDGET_CONTEXT: &'static str = "required when using --continue (either N more steps, or a cumulative chain target)";

pub const ADDITIONAL_NEEDS_CONTINUE: &'static str = "--additional-iterations is only valid together with --continue";

pub const LOAD_FROM_NEEDS_LOAD_BOARD: &'static str = "--load-from is only valid together with --load-board";

pub const OUTPUT_OPTION: &'static str = "--output";

pub const OUTPUT_CONTEXT: &'static str = "required when using --extract-board";

pub const LOAD_BOARD_WINS: &'static str = "Warning: --load-board takes precedence; --initial-board ignored.";

/// Where the initial board of a run comes from.
#[derive(Debug, Clone, PartialEq, Eq)]
pub enum InitialBoardSpec {
    Initializer(InitialBoardSource),
    LoadFromFile { path: String, from: Option<LoadFrom> },
    ContinueFromRun { path: String, budget: ContinuationBudget },
}

/// How a continuation states how many generations to run.
#[derive(Debug, Clone, Copy, PartialEq, Eq, Structural)]
pub enum ContinuationBudget {
    Additional(usize),
    CumulativeMax(usize),
}

/// Where, and whether, the run record is written.
#[derive(Debug, Clone, PartialEq, Eq)]
pub enum SaveSettings {
    AutoIntoDir(String),
    ExplicitFile(String),
    Suppressed,
}

#[derive(Debug, Clone, PartialEq, Eq)]
pub struct SimulationConfig {
    pub board_size: Option<BoardSize>,
    pub max_iterations: Option<usize>,
    pub max_board_memory_bytes: usize,
    pub initial_board: InitialBoardSpec,
    pub save: SaveSettings,
    pub integrity: IntegrityMode,
    pub max_input_file_bytes: usize,
    pub working_dir: Option<String>,
    pub save_board_path: Option<String>,
    pub warnings: Vec<String>,
}

#[derive(Debug, Clone, PartialEq, Eq)]
pub struct ReplayConfig {
    pub source: String,
    pub max_board_memory_bytes: usize,
    pub max_input_file_bytes: usize,
    pub integrity: IntegrityMode,
}

#[derive(Debug, Clone, PartialEq, Eq)]
pub struct ExtractBoardConfig {
    pub source: String,
    pub which: LoadFrom,
    pub output: String,
    pub max_board_memory_bytes: usize,
    pub max_input_file_bytes: usize,
    pub integrity: IntegrityMode,
}

#[derive(Debug, Clone, PartialEq, Eq)]
pub enum CliCommand {
    Help,
    Run(SimulationConfig),
    Replay(ReplayConfig),
    ExtractBoard(ExtractBoardConfig),
}

#[derive(Debug, Clone, PartialEq, Eq)]
pub enum ConfigError {
    MissingOptionValue { option: String, expected: &'static str },
    UnknownOption { option: String },
    UnexpectedArgument { argument: String },
    InvalidBoardSize(BoardSizeParseError),
    InvalidMaxIterations(IterationParseError),
    InvalidMaxBoardMemory(MemorySizeParseError),
    InvalidMaxInputFileBytes(MemorySizeParseError),
    InvalidInitialBoard(InitialBoardSourceParseError),
    InvalidLoadFrom(LoadFromParseError),
    ConflictingInitialBoardOptions { details: &'static str },
    ConflictingSaveOptions { details: &'static str },
    ConflictingCommands { details: &'static str },
    MissingRequiredOption { option: &'static str, context: &'static str },
}

impl Default for SimulationConfig {
    fn default() -> (r: Self)
        ensures
            r.board_size is None,
            r.max_iterations is None,
            r.max_board_memory_bytes == DEFAULT_MAX_BOARD_MEMORY_BYTES,
            r.initial_board == InitialBoardSpec::Initializer(InitialBoardSource::Demo),
            r.save matches SaveSettings::AutoIntoDir(d) && d@ == DEFAULT_RUNS_DIR@,
            r.integrity == IntegrityMode::Enforce,
            r.max_input_file_bytes == DEFAULT_MAX_INPUT_FILE_BYTES,
            r.working_dir is None,
            r.save_board_path is None,
            r.warnings@.len() == 0,
    {
        SimulationConfig {
            board_size: None,
            max_iterations: None,
            max_board_memory_bytes: DEFAULT_MAX_BOARD_MEMORY_BYTES,
            initial_board: InitialBoardSpec::Initializer(InitialBoardSource::Demo),
            save: SaveSettings::AutoIntoDir(DEFAULT_RUNS_DIR.to_owned()),
            integrity: IntegrityMode::Enforce,
            max_input_file_bytes: DEFAULT_MAX_INPUT_FILE_BYTES,
            working_dir: None,
            save_board_path: None,
            warnings: Vec::new(),
        }
    }
}

impl SimulationConfig {
    /// The board size, or the default size when none was given.
    pub fn effective_board_size(&self) -> (r: BoardSize)
        ensures
            r == (match self.board_size {
                Some(b) => b,
                None => BoardSize {
                    width: crate::board::DEFAULT_BOARD_WIDTH,
                    height: crate::board::DEFAULT_BOARD_HEIGHT,
                },
            }),
    {
        match self.board_size {
            Some(b) => b,
            None => BoardSize::default(),
        }
    }

    /// The size given with `--board-size` when it differs from the
    /// `width` x `height` of a board that was loaded from a file or a run;
    /// `None` when there is no conflict (no size given, the sizes agree, or
    /// the board was not loaded).
    pub fn loaded_board_size_conflict(&self, width: usize, height: usize) -> (r: Option<BoardSize>)
        ensures
            r == (match (self.initial_board, self.board_size) {
                (InitialBoardSpec::Initializer(_), _) => None,
                (_, Some(s)) => if s.width != width || s.height != height {
                    Some(s)
                } else {
                    None
                },
                (_, None) => None,
            }),
    {
        match &self.initial_board {
            InitialBoardSpec::Initializer(_) => None,
            _ => match self.board_size {
                Some(s) => if s.width != width || s.height != height {
                    Some(s)
                } else {
                    None
                },
                None => None,
            },
        }
    }

    /// The iteration limit, or the default when none was given.
    pub fn effective_max_iterations(&self) -> (r: usize)
        ensures
            r == (match self.max_iterations {
                Some(n) => n,
                None => DEFAULT_MAX_ITERATIONS,
            }),
    {
        match self.max_iterations {
            Some(n) => n,
            None => DEFAULT_MAX_ITERATIONS,
        }
    }
}

/// The label of an initial-board spec in a run record.
pub open spec fn record_label_text(spec: InitialBoardSpec) -> Seq<char> {
    match spec {
        InitialBoardSpec::Initializer(s) => source_name(s),
        InitialBoardSpec::LoadFromFile { path, from } => match from {
            Some(LoadFrom::Initial) => "load:"@ + path@ + " (initial)"@,
            Some(LoadFrom::Final) => "load:"@ + path@ + " (final)"@,
            None => "load:"@ + path@,
        },
        InitialBoardSpec::ContinueFromRun { path, .. } => "continue:"@ + path@,
    }
}

impl InitialBoardSpec {
    /// The label recorded for this spec in a run record's
    /// `initial_board_source` field.
    pub fn record_label(&self) -> (r: String)
        ensures
            r@ == record_label_text(*self),
    {
        match self {
            InitialBoardSpec::Initializer(source) => source.as_str().to_owned(),
            InitialBoardSpec::LoadFromFile { path, from } => {
                let mut s = "load:".to_owned();
                push_str(&mut s, path.as_str());
                match from {
                    Some(LoadFrom::Initial) => push_str(&mut s, " (initial)"),
                    Some(LoadFrom::Final) => push_str(&mut s, " (final)"),
                    None => {},
                }
                s
            },
            InitialBoardSpec::ContinueFromRun { path, .. } => {
                let mut s = "continue:".to_owned();
                push_str(&mut s, path.as_str());
                s
            },
        }
    }
}

/// The options that take a value.
#[derive(Debug, Clone, Copy, PartialEq, Eq, Structural)]
pub enum CliOption {
    BoardSize,
    MaxIterations,
    MaxBoardMemory,
    MaxInputFileBytes,
    InitialBoard,
    LoadBoard,
    LoadFrom,
    Continue,
    AdditionalIterations,
    SaveRun,
    RunsDir,
    WorkingDir,
    SaveBoard,
    Replay,
    ExtractBoard,
    Output,
}

pub const OPTION_COUNT: usize = 16;

/// The options in the order they are tried.
pub open spec fn option_at(k: int) -> CliOption {
    if k == 0 {
        CliOption::BoardSize
    } else if k == 1 {
        CliOption::MaxIterations
    } else if k == 2 {
        CliOption::MaxBoardMemory
    } else if k == 3 {
        CliOption::MaxInputFileBytes
    } else if k == 4 {
        CliOption::InitialBoard
    } else if k == 5 {
        CliOption::LoadBoard
    } else if k == 6 {
        CliOption::LoadFrom
    } else if k == 7 {
        CliOption::Continue
    } else if k == 8 {
        CliOption::AdditionalIterations
    } else if k == 9 {
        CliOption::SaveRun
    } else if k == 10 {
        CliOption::RunsDir
    } else if k == 11 {
        CliOption::WorkingDir
    } else if k == 12 {
        CliOption::SaveBoard
    } else if k == 13 {
        CliOption::Replay
    } else if k == 14 {
        CliOption::ExtractBoard
    } else {
        CliOption::Output
    }
}

/// The long flag of an option.
pub open spec fn option_name(o: CliOption) -> Seq<char> {
    match o {
        CliOption::BoardSize => "--board-size"@,
        CliOption::MaxIterations => "--max-iterations"@,
        CliOption::MaxBoardMemory => "--max-board-memory"@,
        CliOption::MaxInputFileBytes => "--max-input-file-bytes"@,
        CliOption::InitialBoard => "--initial-board"@,
        CliOption::LoadBoard => "--load-board"@,
        CliOption::LoadFrom => "--load-from"@,
        CliOption::Continue => "--continue"@,
        CliOption::AdditionalIterations => "--additional-iterations"@,
        CliOption::SaveRun => "--save-run"@,
        CliOption::RunsDir => "--runs-dir"@,
        CliOption::WorkingDir => "--working-dir"@,
        CliOption::SaveBoard => "--save-board"@,
        CliOption::Replay => "--replay"@,
        CliOption::ExtractBoard => "--extract-board"@,
        CliOption::Output => "--output"@,
    }
}

/// The short flag of an option, if it has one.
pub open spec fn option_alias(o: CliOption) -> Option<Seq<char>> {
    match o {
        CliOption::BoardSize => Some("-b"@),
        CliOption::MaxIterations => Some("-m"@),
        _ => None,
    }
}

/// What an option's value should look like, for the missing-value error.
pub open spec fn option_expects(o: CliOption) -> Seq<char> {
    match o {
        CliOption::BoardSize => "a board size like 5x5"@,
        CliOption::MaxIterations => "a non-negative integer like 10"@,
        CliOption::MaxBoardMemory => "a memory size like 64MB"@,
        CliOption::MaxInputFileBytes => "a memory size like 256MB"@,
        CliOption::InitialBoard => "an initial board source like demo, alive, blinker, or random"@,
        CliOption::LoadBoard => "a path to a .gol file"@,
        CliOption::LoadFrom => "'initial' or 'final'"@,
        CliOption::Continue => "a path to a run record file"@,
        CliOption::AdditionalIterations => "a non-negative integer like 100"@,
        CliOption::SaveRun => "an output file path"@,
        CliOption::RunsDir => "a directory path"@,
        CliOption::WorkingDir => "a path to a directory"@,
        CliOption::SaveBoard => "a path to save the final board snapshot"@,
        CliOption::Replay => "a path to a run record file"@,
        CliOption::ExtractBoard => "a path to a run record file"@,
        CliOption::Output => "an output file path"@,
    }
}

/// How one command-line argument is read.
#[derive(Debug, Clone, Copy, PartialEq, Eq, Structural)]
pub enum ArgKind {
    Help,
    NoSave,
    IgnoreIntegrity,
    /// The option's flag; its value is the next argument.
    Separate(CliOption),
    /// `--option=value`.
    Inline(CliOption),
    Unknown,
    Unexpected,
}

pub open spec fn is_prefix(p: Seq<char>, s: Seq<char>) -> bool {
    p.len() <= s.len() && s.take(p.len() as int) == p
}

/// The first of the options from `k` on that `a` names.
pub open spec fn option_match(a: Seq<char>, k: nat) -> Option<ArgKind>
    decreases 16 - k,
{
    if k >= 16 {
        None
    } else {
        let o = option_at(k as int);
        if a == option_name(o) || option_alias(o) == Some(a) {
            Some(ArgKind::Separate(o))
        } else if is_prefix(option_name(o) + seq!['='], a) {
            Some(ArgKind::Inline(o))
        } else {
            option_match(a, k + 1)
        }
    }
}

/// How the argument `a` is read.
pub open spec fn arg_kind(a: Seq<char>) -> ArgKind {
    if a == "--help"@ || a == "-h"@ {
        ArgKind::Help
    } else {
        match option_match(a, 0) {
            Some(kind) => kind,
            None => if a == "--no-save"@ {
                ArgKind::NoSave
            } else if a == "--ignore-integrity"@ {
                ArgKind::IgnoreIntegrity
            } else if a.len() > 0 && a[0] == '-' {
                ArgKind::Unknown
            } else {
                ArgKind::Unexpected
            },
        }
    }
}

/// The short flags stand for their long options: `-m` is read exactly as
/// `--max-iterations` and `-b` exactly as `--board-size`, each taking its
/// value from the next argument.
pub proof fn lemma_short_flags()
    ensures
        arg_kind("-m"@) == arg_kind("--max-iterations"@),
        arg_kind("-b"@) == arg_kind("--board-size"@),
        arg_kind("-m"@) is Separate,
        arg_kind("-b"@) is Separate,
{
    reveal_strlit("-m");
    reveal_strlit("-b");
    reveal_strlit("-h");
    reveal_strlit("--help");
    reveal_strlit("--max-iterations");
    reveal_strlit("--board-size");
    reveal_with_fuel(option_match, 3);
    assert("-m"@.len() == 2 && "-b"@.len() == 2 && "-h"@.len() == 2 && "--help"@.len() == 6);
    assert("--max-iterations"@.len() == 16 && "--board-size"@.len() == 12);
    assert("-m"@[1] == 'm' && "-b"@[1] == 'b' && "-h"@[1] == 'h');
    assert("-m"@ != "-h"@ && "-b"@ != "-h"@ && "-m"@ != "-b"@);
    assert(!is_prefix("--board-size"@ + seq!['='], "-m"@));
    assert(!is_prefix("--board-size"@ + seq!['='], "--max-iterations"@)) by {
        assert(("--board-size"@ + seq!['=']).len() == 13);
        assert("--max-iterations"@.take(13)[2] == 'm');
        assert(("--board-size"@ + seq!['='])[2] == 'b');
    }
}

/// A value taken from the arguments: argument `index` from character
/// `start` on.
#[derive(Debug, Clone, Copy, PartialEq, Eq, Structural)]
pub struct ArgSlice {
    pub index: usize,
    pub start: usize,
}

/// The options read so far.
#[derive(Debug, Clone, Copy, PartialEq, Eq, Structural)]
pub struct CliScan {
    pub board_size: Option<BoardSize>,
    pub max_iterations: Option<usize>,
    pub max_board_memory_bytes: usize,
    pub max_input_file_bytes: usize,
    pub initial_board: Option<InitialBoardSource>,
    pub load_board: Option<ArgSlice>,
    pub load_from: Option<LoadFrom>,
    pub continue_from: Option<ArgSlice>,
    pub additional_iterations: Option<usize>,
    pub save_run: Option<ArgSlice>,
    pub runs_dir: Option<ArgSlice>,
    pub no_save: bool,
    pub working_dir: Option<ArgSlice>,
    pub save_board: Option<ArgSlice>,
    pub integrity: IntegrityMode,
    pub replay: Option<ArgSlice>,
    pub extract_board: Option<ArgSlice>,
    pub output: Option<ArgSlice>,
}

/// Nothing read yet.
pub open spec fn initial_scan() -> CliScan {
    CliScan {
        board_size: None,
        max_iterations: None,
        max_board_memory_bytes: DEFAULT_MAX_BOARD_MEMORY_BYTES,
        max_input_file_bytes: DEFAULT_MAX_INPUT_FILE_BYTES,
        initial_board: None,
        load_board: None,
        load_from: None,
        continue_from: None,
        additional_iterations: None,
        save_run: None,
        runs_dir: None,
        no_save: false,
        working_dir: None,
        save_board: None,
        integrity: IntegrityMode::Enforce,
        replay: None,
        extract_board: None,
        output: None,
    }
}

/// The text a slice names.
pub open spec fn slice_text(args: Seq<Seq<char>>, s: ArgSlice) -> Seq<char> {
    args[s.index as int].skip(s.start as int)
}

/// The scan state after option `o` took the value `v` (found at `s`), or
/// `None` if the value is invalid.
#[verifier::opaque]
pub open spec fn with_value(st: CliScan, o: CliOption, v: Seq<char>, s: ArgSlice) -> Option<CliScan> {
    match o {
        CliOption::BoardSize => match board_size_value(v) {
            Some(b) => Some(CliScan { board_size: Some(b), ..st }),
            None => None,
        },
        CliOption::MaxIterations => match iterations_value(v) {
            Some(n) => Some(CliScan { max_iterations: Some(n as usize), ..st }),
            None => None,
        },
        CliOption::MaxBoardMemory => match memory_value(v) {
            Some(n) => Some(CliScan { max_board_memory_bytes: n as usize, ..st }),
            None => None,
        },
        CliOption::MaxInputFileBytes => match memory_value(v) {
            Some(n) => Some(CliScan { max_input_file_bytes: n as usize, ..st }),
            None => None,
        },
        CliOption::InitialBoard => match initial_board_value(v) {
            Some(b) => Some(CliScan { initial_board: Some(b), ..st }),
            None => None,
        },
        CliOption::LoadBoard => Some(CliScan { load_board: Some(s), ..st }),
        CliOption::LoadFrom => match load_from_value(v) {
            Some(l) => Some(CliScan { load_from: Some(l), ..st }),
            None => None,
        },
        CliOption::Continue => Some(CliScan { continue_from: Some(s), ..st }),
        CliOption::AdditionalIterations => match iterations_value(v) {
            Some(n) => Some(CliScan { additional_iterations: Some(n as usize), ..st }),
            None => None,
        },
        CliOption::SaveRun => Some(CliScan { save_run: Some(s), ..st }),
        CliOption::RunsDir => Some(CliScan { runs_dir: Some(s), ..st }),
        CliOption::WorkingDir => Some(CliScan { working_dir: Some(s), ..st }),
        CliOption::SaveBoard => Some(CliScan { save_board: Some(s), ..st }),
        CliOption::Replay => Some(CliScan { replay: Some(s), ..st }),
        CliOption::ExtractBoard => Some(CliScan { extract_board: Some(s), ..st }),
        CliOption::Output => Some(CliScan { output: Some(s), ..st }),
    }
}

/// The error reported when option `o` rejects the value `v`.
#[verifier::opaque]
pub open spec fn option_error(e: ConfigError, o: CliOption, v: Seq<char>) -> bool {
    match o {
        CliOption::BoardSize => e matches ConfigError::InvalidBoardSize(b) && board_size_result(
            Err(b),
            v,
        ),
        CliOption::MaxIterations | CliOption::AdditionalIterations => e matches ConfigError::InvalidMaxIterations(i)
            && iterations_error(i, v),
        CliOption::MaxBoardMemory => e matches ConfigError::InvalidMaxBoardMemory(m)
            && memory_error(m, v),
        CliOption::MaxInputFileBytes => e matches ConfigError::InvalidMaxInputFileBytes(m)
            && memory_error(m, v),
        CliOption::InitialBoard => e matches ConfigError::InvalidInitialBoard(
            InitialBoardSourceParseError::Unsupported { value: x },
        ) && x@ == v,
        CliOption::LoadFrom => e matches ConfigError::InvalidLoadFrom(
            LoadFromParseError::Unsupported { value: x },
        ) && x@ == crate::text::trim(v),
        _ => false,
    }
}

/// Where reading the arguments stopped.
#[derive(Debug, Clone, Copy, PartialEq, Eq, Structural)]
pub enum ScanStop {
    Help,
    MissingValue(usize),
    InvalidValue(CliOption, ArgSlice),
    UnknownOption(usize),
    UnexpectedArgument(usize),
    Finished(CliScan),
}

/// Reads the arguments from `i` on into `st`.
pub open spec fn scan(args: Seq<Seq<char>>, i: nat, st: CliScan) -> ScanStop
    decreases args.len() - i,
{
    if i >= args.len() {
        ScanStop::Finished(st)
    } else {
        let a = args[i as int];
        match arg_kind(a) {
            ArgKind::Help => ScanStop::Help,
            ArgKind::NoSave => scan(args, i + 1, CliScan { no_save: true, ..st }),
            ArgKind::IgnoreIntegrity => scan(
                args,
                i + 1,
                CliScan { integrity: IntegrityMode::Ignore, ..st },
            ),
            ArgKind::Separate(o) => if i + 1 >= args.len() {
                ScanStop::MissingValue(i as usize)
            } else {
                let s = ArgSlice { index: (i + 1) as usize, start: 0 };
                match with_value(st, o, args[i + 1 as int], s) {
                    Some(next) => scan(args, i + 2, next),
                    None => ScanStop::InvalidValue(o, s),
                }
            },
            ArgKind::Inline(o) => {
                let s = ArgSlice { index: i as usize, start: (option_name(o).len() + 1) as usize };
                match with_value(st, o, slice_text(args, s), s) {
                    Some(next) => scan(args, i + 1, next),
                    None => ScanStop::InvalidValue(o, s),
                }
            },
            ArgKind::Unknown => ScanStop::UnknownOption(i as usize),
            ArgKind::Unexpected => ScanStop::UnexpectedArgument(i as usize),
        }
    }
}

/// Whether a path option was given that only a run can use.
pub open spec fn has_run_options(st: CliScan) -> bool {
    st.load_board is Some || st.continue_from is Some || st.initial_board is Some || st.save_run is Some
        || st.runs_dir is Some || st.no_save || st.additional_iterations is Some
}

/// An optional path taken from the arguments.
pub open spec fn path_is(p: Option<String>, args: Seq<Seq<char>>, s: Option<ArgSlice>) -> bool {
    match s {
        Some(x) => p matches Some(t) && t@ == slice_text(args, x),
        None => p is None,
    }
}

/// The configuration of a run read from the scan `st`.
pub open spec fn run_config_is(c: SimulationConfig, args: Seq<Seq<char>>, st: CliScan) -> bool {
    &&& c.board_size == st.board_size
    &&& c.max_board_memory_bytes == st.max_board_memory_bytes
    &&& c.max_input_file_bytes == st.max_input_file_bytes
    &&& c.integrity == st.integrity
    &&& path_is(c.working_dir, args, st.working_dir)
    &&& path_is(c.save_board_path, args, st.save_board)
    &&& match st.continue_from {
        Some(p) => {
            &&& c.max_iterations is None
            &&& c.initial_board matches InitialBoardSpec::ContinueFromRun { path, budget } && path@
                == slice_text(args, p) && budget == (match st.additional_iterations {
                Some(a) => ContinuationBudget::Additional(a),
                None => ContinuationBudget::CumulativeMax(st.max_iterations->0),
            })
        },
        None => {
            &&& c.max_iterations == st.max_iterations
            &&& match st.load_board {
                Some(p) => c.initial_board matches InitialBoardSpec::LoadFromFile { path, from }
                    && path@ == slice_text(args, p) && from == st.load_from,
                None => c.initial_board matches InitialBoardSpec::Initializer(s) && s == (match st.initial_board {
                    Some(n) => n,
                    None => InitialBoardSource::Demo,
                }),
            }
        },
    }
    &&& if st.continue_from is None && st.load_board is Some && st.initial_board is Some {
        c.warnings@.len() == 1 && c.warnings@[0]@ == LOAD_BOARD_WINS@
    } else {
        c.warnings@.len() == 0
    }
    &&& if st.no_save {
        c.save is Suppressed
    } else {
        match (st.save_run, st.runs_dir) {
            (Some(p), _) => c.save matches SaveSettings::ExplicitFile(f) && f@ == slice_text(args, p),
            (None, Some(d)) => c.save matches SaveSettings::AutoIntoDir(f) && f@ == slice_text(args, d),
            (None, None) => c.save matches SaveSettings::AutoIntoDir(f) && f@ == DEFAULT_RUNS_DIR@,
        }
    }
}

/// The command, or error, that a finished scan gives.
#[verifier::opaque]
pub open spec fn command_is(r: Result<CliCommand, ConfigError>, args: Seq<Seq<char>>, st: CliScan) -> bool {
    if st.replay is Some && st.extract_board is Some {
        r matches Err(ConfigError::ConflictingCommands { details: d }) && d@ == REPLAY_AND_EXTRACT@
    } else if st.replay is Some {
        if has_run_options(st) {
            r matches Err(ConfigError::ConflictingCommands { details: d }) && d@ == REPLAY_STANDALONE@
        } else {
            r matches Ok(CliCommand::Replay(c)) && c.source@ == slice_text(args, st.replay->0)
                && c.max_board_memory_bytes == st.max_board_memory_bytes && c.max_input_file_bytes
                == st.max_input_file_bytes && c.integrity == st.integrity
        }
    } else if st.extract_board is Some {
        if st.output is None {
            r matches Err(ConfigError::MissingRequiredOption { option: o, context: x }) && o@
                == OUTPUT_OPTION@ && x@ == OUTPUT_CONTEXT@
        } else if has_run_options(st) {
            r matches Err(ConfigError::ConflictingCommands { details: d }) && d@ == EXTRACT_STANDALONE@
        } else {
            r matches Ok(CliCommand::ExtractBoard(c)) && c.source@ == slice_text(
                args,
                st.extract_board->0,
            ) && c.output@ == slice_text(args, st.output->0) && c.which == (match st.load_from {
                Some(l) => l,
                None => LoadFrom::Initial,
            }) && c.max_board_memory_bytes == st.max_board_memory_bytes && c.max_input_file_bytes
                == st.max_input_file_bytes && c.integrity == st.integrity
        }
    } else if st.continue_from is Some && (st.load_board is Some || st.initial_board is Some) {
        r matches Err(ConfigError::ConflictingCommands { details: d }) && d@ == CONTINUE_EXCLUSIVE@
    } else if st.continue_from is Some && st.additional_iterations is Some && st.max_iterations is Some {
        r matches Err(ConfigError::ConflictingCommands { details: d }) && d@ == BUDGET_EXCLUSIVE@
    } else if st.continue_from is Some && st.additional_iterations is None && st.max_iterations is None {
        r matches Err(ConfigError::MissingRequiredOption { option: o, context: x }) && o@
            == BUDGET_OPTION@ && x@ == BUDGET_CONTEXT@
    } else if st.continue_from is None && st.additional_iterations is Some {
        r matches Err(ConfigError::ConflictingCommands { details: d }) && d@ == ADDITIONAL_NEEDS_CONTINUE@
    } else if st.load_from is Some && st.load_board is None {
        r matches Err(ConfigError::ConflictingCommands { details: d }) && d@ == LOAD_FROM_NEEDS_LOAD_BOARD@
    } else {
        r matches Ok(CliCommand::Run(c)) && run_config_is(c, args, st)
    }
}

/// The option whose flag `a` is.
pub open spec fn flag_option(a: Seq<char>) -> CliOption {
    match arg_kind(a) {
        ArgKind::Separate(o) => o,
        _ => CliOption::BoardSize,
    }
}

/// What `parse_cli_args` returns for the arguments `args`.
pub open spec fn cli_result(r: Result<CliCommand, ConfigError>, args: Seq<Seq<char>>) -> bool {
    stop_result(r, args, scan(args, 0, initial_scan()))
}

/// The command, or error, for a scan of `args` that stopped at `stop`.
pub open spec fn stop_result(r: Result<CliCommand, ConfigError>, args: Seq<Seq<char>>, stop: ScanStop) -> bool {
    match stop {
        ScanStop::Help => r matches Ok(CliCommand::Help),
        ScanStop::MissingValue(i) => {
            &&& r matches Err(ConfigError::MissingOptionValue { option, expected }) && option@
                == args[i as int] && expected@ == option_expects(flag_option(args[i as int]))
            &&& arg_kind(args[i as int]) is Separate
        },
        ScanStop::InvalidValue(o, s) => r matches Err(e) && option_error(e, o, slice_text(args, s)),
        ScanStop::UnknownOption(i) => r matches Err(ConfigError::UnknownOption { option }) && option@
            == args[i as int],
        ScanStop::UnexpectedArgument(i) => r matches Err(ConfigError::UnexpectedArgument { argument })
            && argument@ == args[i as int],
        ScanStop::Finished(st) => command_is(r, args, st),
    }
}

/// The views of the strings `v`.
pub open spec fn views(v: Seq<String>) -> Seq<Seq<char>> {
    v.map_values(|s: String| s@)
}

/// Every path slice of `st` lies within the arguments.
pub open spec fn slice_ok(args: Seq<Seq<char>>, s: Option<ArgSlice>) -> bool {
    match s {
        Some(x) => x.index < args.len() && x.start <= args[x.index as int].len(),
        None => true,
    }
}

pub open spec fn scan_ok(args: Seq<Seq<char>>, st: CliScan) -> bool {
    &&& slice_ok(args, st.load_board)
    &&& slice_ok(args, st.continue_from)
    &&& slice_ok(args, st.save_run)
    &&& slice_ok(args, st.runs_dir)
    &&& slice_ok(args, st.working_dir)
    &&& slice_ok(args, st.save_board)
    &&& slice_ok(args, st.replay)
    &&& slice_ok(args, st.extract_board)
    &&& slice_ok(args, st.output)
}

fn option_index(k: usize) -> (r: CliOption)
    requires
        k < OPTION_COUNT,
    ensures
        r == option_at(k as int),
{
    match k {
        0 => CliOption::BoardSize,
        1 => CliOption::MaxIterations,
        2 => CliOption::MaxBoardMemory,
        3 => CliOption::MaxInputFileBytes,
        4 => CliOption::InitialBoard,
        5 => CliOption::LoadBoard,
        6 => CliOption::LoadFrom,
        7 => CliOption::Continue,
        8 => CliOption::AdditionalIterations,
        9 => CliOption::SaveRun,
        10 => CliOption::RunsDir,
        11 => CliOption::WorkingDir,
        12 => CliOption::SaveBoard,
        13 => CliOption::Replay,
        14 => CliOption::ExtractBoard,
        _ => CliOption::Output,
    }
}

/// The long flag of `o`.
pub fn option_flag(o: CliOption) -> (r: &'static str)
    ensures
        r@ == option_name(o),
{
    match o {
        CliOption::BoardSize => "--board-size",
        CliOption::MaxIterations => "--max-iterations",
        CliOption::MaxBoardMemory => "--max-board-memory",
        CliOption::MaxInputFileBytes => "--max-input-file-bytes",
        CliOption::InitialBoard => "--initial-board",
        CliOption::LoadBoard => "--load-board",
        CliOption::LoadFrom => "--load-from",
        CliOption::Continue => "--continue",
        CliOption::AdditionalIterations => "--additional-iterations",
        CliOption::SaveRun => "--save-run",
        CliOption::RunsDir => "--runs-dir",
        CliOption::WorkingDir => "--working-dir",
        CliOption::SaveBoard => "--save-board",
        CliOption::Replay => "--replay",
        CliOption::ExtractBoard => "--extract-board",
        CliOption::Output => "--output",
    }
}

fn option_short(o: CliOption) -> (r: Option<&'static str>)
    ensures
        match option_alias(o) {
            Some(a) => r matches Some(x) && x@ == a,
            None => r is None,
        },
{
    match o {
        CliOption::BoardSize => Some("-b"),
        CliOption::MaxIterations => Some("-m"),
        _ => None,
    }
}

fn option_expected(o: CliOption) -> (r: &'static str)
    ensures
        r@ == option_expects(o),
{
    match o {
        CliOption::BoardSize => "a board size like 5x5",
        CliOption::MaxIterations => "a non-negative integer like 10",
        CliOption::MaxBoardMemory => "a memory size like 64MB",
        CliOption::MaxInputFileBytes => "a memory size like 256MB",
        CliOption::InitialBoard => "an initial board source like demo, alive, blinker, or random",
        CliOption::LoadBoard => "a path to a .gol file",
        CliOption::LoadFrom => "'initial' or 'final'",
        CliOption::Continue => "a path to a run record file",
        CliOption::AdditionalIterations => "a non-negative integer like 100",
        CliOption::SaveRun => "an output file path",
        CliOption::RunsDir => "a directory path",
        CliOption::WorkingDir => "a path to a directory",
        CliOption::SaveBoard => "a path to save the final board snapshot",
        CliOption::Replay => "a path to a run record file",
        CliOption::ExtractBoard => "a path to a run record file",
        CliOption::Output => "an output file path",
    }
}

/// Whether `a` is `flag` followed by `=`.
fn is_inline_form(a: &str, flag: &str) -> (r: bool)
    ensures
        r == is_prefix(flag@ + seq!['='], a@),
{
    let n = flag.unicode_len();
    if a.unicode_len() <= n {
        return false;
    }
    let head = a.substring_char(0, n);
    let eq = str_eq(head, flag) && a.get_char(n) == '=';
    proof {
        let p = flag@ + seq!['='];
        if eq {
            assert(a@.take(p.len() as int) =~= p);
        } else if a@.take(p.len() as int) == p {
            assert(a@.take(n as int) =~= p.take(n as int));
            assert(p.take(n as int) =~= flag@);
            assert(a@[n as int] == a@.take(p.len() as int)[n as int]);
        }
    }
    eq
}

/// An inline option match has the option's flag and `=` in front.
proof fn lemma_option_match_inline(a: Seq<char>, k: nat)
    ensures
        option_match(a, k) matches Some(ArgKind::Inline(o)) ==> is_prefix(option_name(o) + seq!['='], a),
    decreases 16 - k,
{
    if k < 16 {
        lemma_option_match_inline(a, k + 1);
    }
}

/// How the argument `a` is read.
pub fn classify_arg(a: &str) -> (r: ArgKind)
    ensures
        r == arg_kind(a@),
{
    if str_eq(a, "--help") || str_eq(a, "-h") {
        return ArgKind::Help;
    }
    let mut k: usize = 0;
    while k < OPTION_COUNT
        invariant
            k <= 16,
            !(a@ == "--help"@ || a@ == "-h"@),
            option_match(a@, 0) == option_match(a@, k as nat),
        decreases 16 - k,
    {
        let o = option_index(k);
        let flag = option_flag(o);
        let short_hit = match option_short(o) {
            Some(x) => str_eq(a, x),
            None => false,
        };
        if str_eq(a, flag) || short_hit {
            return ArgKind::Separate(o);
        }
        if is_inline_form(a, flag) {
            return ArgKind::Inline(o);
        }
        k += 1;
    }
    if str_eq(a, "--no-save") {
        ArgKind::NoSave
    } else if str_eq(a, "--ignore-integrity") {
        ArgKind::IgnoreIntegrity
    } else if a.unicode_len() > 0 && a.get_char(0) == '-' {
        ArgKind::Unknown
    } else {
        ArgKind::Unexpected
    }
}

/// Gives option `o` the value `value`, found at `s`.
fn apply_option(st: &mut CliScan, o: CliOption, value: &str, s: ArgSlice) -> (r: Result<
    (),
    ConfigError,
>)
    ensures
        match with_value(*old(st), o, value@, s) {
            Some(n) => r is Ok && *final(st) == n,
            None => r matches Err(e) && option_error(e, o, value@),
        },
{
    reveal(with_value);
    reveal(option_error);
    match o {
        CliOption::BoardSize => {
            let parsed = BoardSize::parse(value);
            proof {
                lemma_board_size_result_value(parsed, value@);
            }
            match parsed {
                Ok(b) => {
                    st.board_size = Some(b);
                    Ok(())
                },
                Err(e) => Err(ConfigError::InvalidBoardSize(e)),
            }
        },
        CliOption::MaxIterations => match parse_max_iterations(value) {
            Ok(n) => {
                st.max_iterations = Some(n);
                Ok(())
            },
            Err(e) => Err(ConfigError::InvalidMaxIterations(e)),
        },
        CliOption::MaxBoardMemory => match parse_memory_size(value) {
            Ok(n) => {
                st.max_board_memory_bytes = n;
                Ok(())
            },
            Err(e) => Err(ConfigError::InvalidMaxBoardMemory(e)),
        },
        CliOption::MaxInputFileBytes => match parse_memory_size(value) {
            Ok(n) => {
                st.max_input_file_bytes = n;
                Ok(())
            },
            Err(e) => Err(ConfigError::InvalidMaxInputFileBytes(e)),
        },
        CliOption::InitialBoard => match InitialBoardSource::parse(value) {
            Ok(b) => {
                st.initial_board = Some(b);
                Ok(())
            },
            Err(e) => Err(ConfigError::InvalidInitialBoard(e)),
        },
        CliOption::LoadBoard => {
            st.load_board = Some(s);
            Ok(())
        },
        CliOption::LoadFrom => match LoadFrom::parse(value) {
            Ok(l) => {
                st.load_from = Some(l);
                Ok(())
            },
            Err(e) => Err(ConfigError::InvalidLoadFrom(e)),
        },
        CliOption::Continue => {
            st.continue_from = Some(s);
            Ok(())
        },
        CliOption::AdditionalIterations => match parse_max_iterations(value) {
            Ok(n) => {
                st.additional_iterations = Some(n);
                Ok(())
            },
            Err(e) => Err(ConfigError::InvalidMaxIterations(e)),
        },
        CliOption::SaveRun => {
            st.save_run = Some(s);
            Ok(())
        },
        CliOption::RunsDir => {
            st.runs_dir = Some(s);
            Ok(())
        },
        CliOption::WorkingDir => {
            st.working_dir = Some(s);
            Ok(())
        },
        CliOption::SaveBoard => {
            st.save_board = Some(s);
            Ok(())
        },
        CliOption::Replay => {
            st.replay = Some(s);
            Ok(())
        },
        CliOption::ExtractBoard => {
            st.extract_board = Some(s);
            Ok(())
        },
        CliOption::Output => {
            st.output = Some(s);
            Ok(())
        },
    }
}

/// The text of a slice of the arguments.
fn slice_string(args: &Vec<String>, s: ArgSlice) -> (r: String)
    requires
        slice_ok(views(args@), Some(s)),
    ensures
        r@ == slice_text(views(args@), s),
{
    let a = args[s.index].as_str();
    let n = a.unicode_len();
    a.substring_char(s.start, n).to_owned()
}

fn optional_path(args: &Vec<String>, s: Option<ArgSlice>) -> (r: Option<String>)
    requires
        slice_ok(views(args@), s),
    ensures
        path_is(r, views(args@), s),
{
    match s {
        Some(x) => Some(slice_string(args, x)),
        None => None,
    }
}

/// Decides the verb and builds its configuration from a finished scan.
fn build_command(st: CliScan, args: &Vec<String>) -> (r: Result<CliCommand, ConfigError>)
    requires
        scan_ok(views(args@), st),
    ensures
        command_is(r, views(args@), st),
{
    reveal(command_is);
    let run_options = st.load_board.is_some() || st.continue_from.is_some()
        || st.initial_board.is_some() || st.save_run.is_some() || st.runs_dir.is_some()
        || st.no_save || st.additional_iterations.is_some();
    if st.replay.is_some() && st.extract_board.is_some() {
        return Err(ConfigError::ConflictingCommands { details: REPLAY_AND_EXTRACT });
    }
    if let Some(source) = st.replay {
        if run_options {
            return Err(ConfigError::ConflictingCommands { details: REPLAY_STANDALONE });
        }
        return Ok(
            CliCommand::Replay(
                ReplayConfig {
                    source: slice_string(args, source),
                    max_board_memory_bytes: st.max_board_memory_bytes,
                    max_input_file_bytes: st.max_input_file_bytes,
                    integrity: st.integrity,
                },
            ),
        );
    }
    if let Some(source) = st.extract_board {
        let output = match st.output {
            Some(o) => o,
            None => {
                return Err(
                    ConfigError::MissingRequiredOption { option: OUTPUT_OPTION, context: OUTPUT_CONTEXT },
                );
            },
        };
        if run_options {
            return Err(ConfigError::ConflictingCommands { details: EXTRACT_STANDALONE });
        }
        let which = match st.load_from {
            Some(l) => l,
            None => LoadFrom::Initial,
        };
        return Ok(
            CliCommand::ExtractBoard(
                ExtractBoardConfig {
                    source: slice_string(args, source),
                    which,
                    output: slice_string(args, output),
                    max_board_memory_bytes: st.max_board_memory_bytes,
                    max_input_file_bytes: st.max_input_file_bytes,
                    integrity: st.integrity,
                },
            ),
        );
    }
    let mut warnings: Vec<String> = Vec::new();
    let mut max_iterations = st.max_iterations;
    let initial_board = match st.continue_from {
        Some(p) => {
            if st.load_board.is_some() || st.initial_board.is_some() {
                return Err(ConfigError::ConflictingCommands { details: CONTINUE_EXCLUSIVE });
            }
            let budget = match (st.additional_iterations, st.max_iterations) {
                (Some(_), Some(_)) => {
                    return Err(ConfigError::ConflictingCommands { details: BUDGET_EXCLUSIVE });
                },
                (Some(a), None) => ContinuationBudget::Additional(a),
                (None, Some(m)) => ContinuationBudget::CumulativeMax(m),
                (None, None) => {
                    return Err(
                        ConfigError::MissingRequiredOption {
                            option: BUDGET_OPTION,
                            context: BUDGET_CONTEXT,
                        },
                    );
                },
            };
            max_iterations = None;
            InitialBoardSpec::ContinueFromRun { path: slice_string(args, p), budget }
        },
        None => {
            if st.additional_iterations.is_some() {
                return Err(ConfigError::ConflictingCommands { details: ADDITIONAL_NEEDS_CONTINUE });
            }
            match st.load_board {
                Some(p) => {
                    if st.initial_board.is_some() {
                        warnings.push(LOAD_BOARD_WINS.to_owned());
                    }
                    InitialBoardSpec::LoadFromFile { path: slice_string(args, p), from: st.load_from }
                },
                None => {
                    if st.load_from.is_some() {
                        return Err(
                            ConfigError::ConflictingCommands { details: LOAD_FROM_NEEDS_LOAD_BOARD },
                        );
                    }
                    match st.initial_board {
                        Some(n) => InitialBoardSpec::Initializer(n),
                        None => InitialBoardSpec::Initializer(InitialBoardSource::Demo),
                    }
                },
            }
        },
    };
    if st.continue_from.is_some() && st.load_from.is_some() {
        return Err(ConfigError::ConflictingCommands { details: LOAD_FROM_NEEDS_LOAD_BOARD });
    }
    let save = if st.no_save {
        SaveSettings::Suppressed
    } else {
        match (st.save_run, st.runs_dir) {
            (Some(p), _) => SaveSettings::ExplicitFile(slice_string(args, p)),
            (None, Some(d)) => SaveSettings::AutoIntoDir(slice_string(args, d)),
            (None, None) => SaveSettings::AutoIntoDir(DEFAULT_RUNS_DIR.to_owned()),
        }
    };
    Ok(
        CliCommand::Run(
            SimulationConfig {
                board_size: st.board_size,
                max_iterations,
                max_board_memory_bytes: st.max_board_memory_bytes,
                initial_board,
                save,
                integrity: st.integrity,
                max_input_file_bytes: st.max_input_file_bytes,
                working_dir: optional_path(args, st.working_dir),
                save_board_path: optional_path(args, st.save_board),
                warnings,
            },
        ),
    )
}

fn initial_scan_value() -> (r: CliScan)
    ensures
        r == initial_scan(),
{
    CliScan {
        board_size: None,
        max_iterations: None,
        max_board_memory_bytes: DEFAULT_MAX_BOARD_MEMORY_BYTES,
        max_input_file_bytes: DEFAULT_MAX_INPUT_FILE_BYTES,
        initial_board: None,
        load_board: None,
        load_from: None,
        continue_from: None,
        additional_iterations: None,
        save_run: None,
        runs_dir: None,
        no_save: false,
        working_dir: None,
        save_board: None,
        integrity: IntegrityMode::Enforce,
        replay: None,
        extract_board: None,
        output: None,
    }
}

proof fn lemma_with_value_ok(args: Seq<Seq<char>>, st: CliScan, o: CliOption, v: Seq<char>, s: ArgSlice)
    requires
        scan_ok(args, st),
        slice_ok(args, Some(s)),
        with_value(st, o, v, s) is Some,
    ensures
        scan_ok(args, with_value(st, o, v, s)->0),
{
    reveal(with_value);
}

/// Reads the argument at `i`: either the index of the next argument to
/// read, or the final result when reading stops here.
#[verifier::spinoff_prover]
#[verifier::rlimit(100)]
fn scan_step(st: &mut CliScan, args: &Vec<String>, i: usize) -> (r: Result<
    usize,
    Result<CliCommand, ConfigError>,
>)
    requires
        i < args@.len(),
        scan_ok(views(args@), *old(st)),
    ensures
        match r {
            Ok(next) => i < next <= args@.len() && scan_ok(views(args@), *final(st)) && scan(
                views(args@),
                i as nat,
                *old(st),
            ) == scan(views(args@), next as nat, *final(st)),
            Err(res) => !(scan(views(args@), i as nat, *old(st)) is Finished) && stop_result(
                res,
                views(args@),
                scan(views(args@), i as nat, *old(st)),
            ),
        },
{
    let ghost argv = views(args@);
    let n = args.len();
    let a = args[i].as_str();
    proof {
        assert(a@ == argv[i as int]);
    }
    match classify_arg(a) {
        ArgKind::Help => Err(Ok(CliCommand::Help)),
        ArgKind::NoSave => {
            st.no_save = true;
            Ok(i + 1)
        },
        ArgKind::IgnoreIntegrity => {
            st.integrity = IntegrityMode::Ignore;
            Ok(i + 1)
        },
        ArgKind::Separate(o) => {
            if i + 1 >= args.len() {
                return Err(
                    Err(
                        ConfigError::MissingOptionValue {
                            option: a.to_owned(),
                            expected: option_expected(o),
                        },
                    ),
                );
            }
            let s = ArgSlice { index: i + 1, start: 0 };
            let v = args[i + 1].as_str();
            proof {
                assert(v@ == argv[i + 1]);
                assert(v@.skip(0) =~= v@);
            }
            proof {
                if with_value(*st, o, v@, s) is Some {
                    lemma_with_value_ok(argv, *st, o, v@, s);
                }
            }
            match apply_option(st, o, v, s) {
                Ok(()) => Ok(i + 2),
                Err(e) => Err(Err(e)),
            }
        },
        ArgKind::Inline(o) => {
            proof {
                lemma_option_match_inline(a@, 0);
            }
            let alen = a.unicode_len();
            let start = option_flag(o).unicode_len() + 1;
            let s = ArgSlice { index: i, start };
            let v = a.substring_char(start, alen);
            proof {
                if with_value(*st, o, v@, s) is Some {
                    lemma_with_value_ok(argv, *st, o, v@, s);
                }
            }
            match apply_option(st, o, v, s) {
                Ok(()) => Ok(i + 1),
                Err(e) => Err(Err(e)),
            }
        },
        ArgKind::Unknown => Err(Err(ConfigError::UnknownOption { option: a.to_owned() })),
        ArgKind::Unexpected => Err(Err(ConfigError::UnexpectedArgument { argument: a.to_owned() })),
    }
}

/// Parses the command-line arguments (without the program name) into the
/// command to run.
pub fn parse_cli_args(args: Vec<String>) -> (r: Result<CliCommand, ConfigError>)
    ensures
        cli_result(r, views(args@)),
{
    let ghost argv = views(args@);
    let mut st = initial_scan_value();
    let mut i: usize = 0;
    while i < args.len()
        invariant
            i <= args@.len(),
            argv == views(args@),
            scan_ok(argv, st),
            scan(argv, 0, initial_scan()) == scan(argv, i as nat, st),
        decreases args@.len() - i,
    {
        match scan_step(&mut st, &args, i) {
            Ok(next) => {
                i = next;
            },
            Err(res) => {
                return res;
            },
        }
    }
    build_command(st, &args)
}

} // verus!
