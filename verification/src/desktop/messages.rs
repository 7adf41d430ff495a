//! What the desktop front end is told when a session operation is refused.
use vstd::prelude::*;

use super::ipc_types::Mode;
use super::session::SessionError;
use crate::algorithms::random_board_initializer::{
    RandomBoardInitializerError, MAX_ALIVE_CELLS_PER_THOUSAND,
};
use crate::config::messages::{creation_error_text, push_decimal};
use crate::persistence::board_snapshot::{BoardSnapshotReadError, BoardSnapshotWriteError};
use crate::persistence::magic::FileKind;
use crate::persistence::messages::{describes, file_kind_name, io_error_prefix, loaded_size_error_text};
use crate::persistence::run_record::RunRecordReadError;
use crate::text::{decimal_digits, push_str};

verus! {

pub open spec fn random_init_error_text(e: RandomBoardInitializerError) -> Seq<char> {
    match e {
        RandomBoardInitializerError::AliveCellsPerThousandTooLarge { value } =>
            "Random board initializer density '"@ + decimal_digits(value as nat)
            + "' is too large; use a value from 0 to "@ + decimal_digits(
            MAX_ALIVE_CELLS_PER_THOUSAND as nat,
        ) + " alive cells per thousand."@,
    }
}

impl RandomBoardInitializerError {
    pub fn message(&self) -> (r: String)
        ensures
            r@ == random_init_error_text(*self),
    {
        let mut s = String::new();
        match self {
            RandomBoardInitializerError::AliveCellsPerThousandTooLarge { value } => {
                push_str(&mut s, "Random board initializer density '");
                push_decimal(&mut s, *value as u64);
                push_str(&mut s, "' is too large; use a value from 0 to ");
                push_decimal(&mut s, MAX_ALIVE_CELLS_PER_THOUSAND as u64);
                push_str(&mut s, " alive cells per thousand.");
            },
        }
        proof {
            assert(s@ =~= random_init_error_text(*self));
        }
        s
    }
}

/// A mode as it is named in messages.
pub open spec fn mode_name(m: Mode) -> Seq<char> {
    match m {
        Mode::Setup => "Setup"@,
        Mode::Paused => "Paused"@,
        Mode::Playing => "Playing"@,
        Mode::JumpingTo => "JumpingTo"@,
    }
}

fn push_mode(s: &mut String, m: Mode)
    ensures
        final(s)@ == old(s)@ + mode_name(m),
{
    match m {
        Mode::Setup => push_str(s, "Setup"),
        Mode::Paused => push_str(s, "Paused"),
        Mode::Playing => push_str(s, "Playing"),
        Mode::JumpingTo => push_str(s, "JumpingTo"),
    }
}

pub open spec fn session_error_text(e: SessionError) -> Seq<char> {
    match e {
        SessionError::WrongMode { current, required } => "operation requires "@ + required@
            + " mode but session is in "@ + mode_name(current),
        SessionError::NoBoard => "no board has been created in this session"@,
        SessionError::NoInitialSnapshot =>
            "session has no initial snapshot \u{2014} start_run was never called"@,
        SessionError::OutOfBounds { x, y } => "cell ("@ + decimal_digits(x as nat) + ", "@
            + decimal_digits(y as nat) + ") is out of bounds for the current board"@,
        SessionError::InvalidMaxIterations { new_total } => "max_iterations ("@ + decimal_digits(
            new_total as nat,
        ) + ") must be greater than or equal to current iteration"@,
        SessionError::RunCompleted => "the run has already completed; restart or edit_board to continue"@,
        SessionError::WorkerStopped => "worker stopped"@,
        SessionError::ZeroDimension => "board width and height must be greater than zero"@,
        SessionError::StreamingNotImplemented { width, height, required_bytes, budget_bytes } =>
            "Board "@ + decimal_digits(width as nat) + "x"@ + decimal_digits(height as nat)
            + " needs "@ + decimal_digits(required_bytes as nat)
            + " bytes but the desktop budget is "@ + decimal_digits(budget_bytes as nat)
            + ". Streaming-mode boards (which the CLI supports via --working-dir) are not yet wired into the desktop visualizer \u{2014} see issue #10. Pick a smaller board or raise the budget."@,
        SessionError::SaveBoardSnapshot(m) => "save board snapshot failed: "@ + m@,
        SessionError::LoadBoardSnapshot(m) => "load board snapshot failed: "@ + m@,
        SessionError::LoadRunRecord(m) => "load run record failed: "@ + m@,
        SessionError::Allocation(c) => creation_error_text(c),
        SessionError::RandomInit(c) => random_init_error_text(c),
    }
}

/// The stable tag the front end branches on.
pub open spec fn session_error_kind(e: SessionError) -> Seq<char> {
    match e {
        SessionError::WrongMode { .. } => "wrongMode"@,
        SessionError::NoBoard => "noBoard"@,
        SessionError::NoInitialSnapshot => "noInitialSnapshot"@,
        SessionError::OutOfBounds { .. } => "outOfBounds"@,
        SessionError::InvalidMaxIterations { .. } => "invalidMaxIterations"@,
        SessionError::RunCompleted => "runCompleted"@,
        SessionError::WorkerStopped => "workerStopped"@,
        SessionError::ZeroDimension => "zeroDimension"@,
        SessionError::StreamingNotImplemented { .. } => "streamingNotImplemented"@,
        SessionError::SaveBoardSnapshot(_) => "saveBoardSnapshot"@,
        SessionError::LoadBoardSnapshot(_) => "loadBoardSnapshot"@,
        SessionError::LoadRunRecord(_) => "loadRunRecord"@,
        SessionError::Allocation(_) => "allocation"@,
        SessionError::RandomInit(_) => "randomInit"@,
    }
}

fn push_usize(s: &mut String, n: usize)
    ensures
        final(s)@ == old(s)@ + decimal_digits(n as nat),
{
    push_decimal(s, n as u64);
}

impl SessionError {
    pub fn message(&self) -> (r: String)
        ensures
            r@ == session_error_text(*self),
    {
        match self {
            SessionError::Allocation(c) => return c.message(),
            SessionError::RandomInit(c) => return c.message(),
            _ => {},
        }
        let mut s = String::new();
        match self {
            SessionError::WrongMode { current, required } => {
                push_str(&mut s, "operation requires ");
                push_str(&mut s, required);
                push_str(&mut s, " mode but session is in ");
                push_mode(&mut s, *current);
            },
            SessionError::NoBoard => {
                push_str(&mut s, "no board has been created in this session");
            },
            SessionError::NoInitialSnapshot => {
                push_str(&mut s, "session has no initial snapshot \u{2014} start_run was never called");
            },
            SessionError::OutOfBounds { x, y } => {
                push_str(&mut s, "cell (");
                push_decimal(&mut s, *x as u64);
                push_str(&mut s, ", ");
                push_decimal(&mut s, *y as u64);
                push_str(&mut s, ") is out of bounds for the current board");
            },
            SessionError::InvalidMaxIterations { new_total } => {
                push_str(&mut s, "max_iterations (");
                push_decimal(&mut s, *new_total);
                push_str(&mut s, ") must be greater than or equal to current iteration");
            },
            SessionError::RunCompleted => {
                push_str(&mut s, "the run has already completed; restart or edit_board to continue");
            },
            SessionError::WorkerStopped => {
                push_str(&mut s, "worker stopped");
            },
            SessionError::ZeroDimension => {
                push_str(&mut s, "board width and height must be greater than zero");
            },
            SessionError::StreamingNotImplemented { width, height, required_bytes, budget_bytes } => {
                push_str(&mut s, "Board ");
                push_decimal(&mut s, *width as u64);
                push_str(&mut s, "x");
                push_decimal(&mut s, *height as u64);
                push_str(&mut s, " needs ");
                push_usize(&mut s, *required_bytes);
                push_str(&mut s, " bytes but the desktop budget is ");
                push_usize(&mut s, *budget_bytes);
                push_str(
                    &mut s,
                    ". Streaming-mode boards (which the CLI supports via --working-dir) are not yet wired into the desktop visualizer \u{2014} see issue #10. Pick a smaller board or raise the budget.",
                );
            },
            SessionError::SaveBoardSnapshot(m) => {
                push_str(&mut s, "save board snapshot failed: ");
                push_str(&mut s, m.as_str());
            },
            SessionError::LoadBoardSnapshot(m) => {
                push_str(&mut s, "load board snapshot failed: ");
                push_str(&mut s, m.as_str());
            },
            SessionError::LoadRunRecord(m) => {
                push_str(&mut s, "load run record failed: ");
                push_str(&mut s, m.as_str());
            },
            SessionError::Allocation(_) => {},
            SessionError::RandomInit(_) => {},
        }
        proof {
            assert(s@ =~= session_error_text(*self));
        }
        s
    }

    /// The stable tag of this error, for the front end to branch on.
    pub fn kind(&self) -> (r: &'static str)
        ensures
            r@ == session_error_kind(*self),
    {
        match self {
            SessionError::WrongMode { .. } => "wrongMode",
            SessionError::NoBoard => "noBoard",
            SessionError::NoInitialSnapshot => "noInitialSnapshot",
            SessionError::OutOfBounds { .. } => "outOfBounds",
            SessionError::InvalidMaxIterations { .. } => "invalidMaxIterations",
            SessionError::RunCompleted => "runCompleted",
            SessionError::WorkerStopped => "workerStopped",
            SessionError::ZeroDimension => "zeroDimension",
            SessionError::StreamingNotImplemented { .. } => "streamingNotImplemented",
            SessionError::SaveBoardSnapshot(_) => "saveBoardSnapshot",
            SessionError::LoadBoardSnapshot(_) => "loadBoardSnapshot",
            SessionError::LoadRunRecord(_) => "loadRunRecord",
            SessionError::Allocation(_) => "allocation",
            SessionError::RandomInit(_) => "randomInit",
        }
    }
}

pub open spec fn input_too_large_text(actual: u64, limit: usize) -> Seq<char> {
    "Selected file is "@ + decimal_digits(actual as nat) + " bytes, which exceeds the "@
        + decimal_digits(limit as nat) + "-byte input file limit."@
}

fn push_input_too_large(s: &mut String, actual: u64, limit: usize)
    ensures
        final(s)@ == old(s)@ + input_too_large_text(actual, limit),
{
    push_str(s, "Selected file is ");
    push_decimal(s, actual);
    push_str(s, " bytes, which exceeds the ");
    push_usize(s, limit);
    push_str(s, "-byte input file limit.");
}

fn push_kind(s: &mut String, k: FileKind)
    ensures
        final(s)@ == old(s)@ + file_kind_name(k),
{
    match k {
        FileKind::RunRecord => push_str(s, "run record"),
        FileKind::BoardSnapshot => push_str(s, "board snapshot"),
    }
}

/// What the desktop says when a board snapshot it was asked to open could
/// not be read.
pub open spec fn load_snapshot_error_text(e: BoardSnapshotReadError) -> Seq<char> {
    match e {
        BoardSnapshotReadError::Io(_) =>
            "Could not read the selected board snapshot. Confirm the file still exists and is readable."@,
        BoardSnapshotReadError::UnexpectedFileKind { expected, actual, .. } => "Selected file is a "@
            + file_kind_name(actual) + ", but expected a "@ + file_kind_name(expected) + "."@,
        BoardSnapshotReadError::LoadedBoardSize(x) => loaded_size_error_text(x),
        BoardSnapshotReadError::FileTooLarge { actual_bytes, limit_bytes, .. } => input_too_large_text(
            actual_bytes,
            limit_bytes,
        ),
        BoardSnapshotReadError::MalformedSizeHeader { .. } =>
            "Selected board snapshot has a malformed size header. Expected WIDTHxHEIGHT, for example 10x10."@,
        BoardSnapshotReadError::Magic(_)
        | BoardSnapshotReadError::InvalidTimestamp(_)
        | BoardSnapshotReadError::Parse(_) =>
            "Selected file is not a valid Game of Life board snapshot. Expected a GOL-BOARD-SNAPSHOT v1 .gol file with a #/. board grid."@,
    }
}

pub fn load_snapshot_error_message(error: &BoardSnapshotReadError) -> (r: String)
    ensures
        r@ == load_snapshot_error_text(*error),
{
    let mut s = String::new();
    match error {
        BoardSnapshotReadError::Io(_) => {
            push_str(
                &mut s,
                "Could not read the selected board snapshot. Confirm the file still exists and is readable.",
            );
        },
        BoardSnapshotReadError::UnexpectedFileKind { expected, actual, .. } => {
            push_str(&mut s, "Selected file is a ");
            push_kind(&mut s, *actual);
            push_str(&mut s, ", but expected a ");
            push_kind(&mut s, *expected);
            push_str(&mut s, ".");
        },
        BoardSnapshotReadError::LoadedBoardSize(x) => {
            s = x.message();
        },
        BoardSnapshotReadError::FileTooLarge { actual_bytes, limit_bytes, .. } => {
            push_input_too_large(&mut s, *actual_bytes, *limit_bytes);
        },
        BoardSnapshotReadError::MalformedSizeHeader { .. } => {
            push_str(
                &mut s,
                "Selected board snapshot has a malformed size header. Expected WIDTHxHEIGHT, for example 10x10.",
            );
        },
        BoardSnapshotReadError::Magic(_)
        | BoardSnapshotReadError::InvalidTimestamp(_)
        | BoardSnapshotReadError::Parse(_) => {
            push_str(
                &mut s,
                "Selected file is not a valid Game of Life board snapshot. Expected a GOL-BOARD-SNAPSHOT v1 .gol file with a #/. board grid.",
            );
        },
    }
    proof {
        assert(s@ =~= load_snapshot_error_text(*error));
    }
    s
}

/// What the desktop says when a run record it was asked to open could not
/// be read.
pub open spec fn load_run_error_text(e: RunRecordReadError) -> Seq<char> {
    match e {
        RunRecordReadError::Io(_) =>
            "Could not read the selected run record. Confirm the file still exists and is readable."@,
        RunRecordReadError::UnexpectedFileKind { actual, .. } => "Selected file is a "@ + file_kind_name(
            actual,
        ) + ", but expected a run record."@,
        RunRecordReadError::BoardBlockTooLarge { source, .. } => loaded_size_error_text(source),
        RunRecordReadError::FileTooLarge { actual_bytes, limit_bytes, .. } => input_too_large_text(
            actual_bytes,
            limit_bytes,
        ),
        RunRecordReadError::Corrupted { .. } | RunRecordReadError::MissingContentHash { .. } =>
            "Selected run record failed integrity validation. Recreate the run record, or extract a board snapshot from it with the CLI if you intentionally edited it."@,
        RunRecordReadError::MalformedSizeHeader { .. } =>
            "Selected run record has a malformed board size header. Expected WIDTHxHEIGHT, for example 10x10."@,
        RunRecordReadError::LoadedBoardSize(x) => loaded_size_error_text(x),
        RunRecordReadError::Magic(_)
        | RunRecordReadError::InvalidTimestamp(_)
        | RunRecordReadError::Parse(_)
        | RunRecordReadError::UnrecognizedStatus { .. }
        | RunRecordReadError::MalformedRunId { .. }
        | RunRecordReadError::MalformedField { .. }
        | RunRecordReadError::MissingField { .. } =>
            "Selected file is not a valid Game of Life run record. Expected a GOL-RUN-RECORD v1 or v2 .gol file."@,
    }
}

pub fn load_run_error_message(error: &RunRecordReadError) -> (r: String)
    ensures
        r@ == load_run_error_text(*error),
{
    let mut s = String::new();
    match error {
        RunRecordReadError::Io(_) => {
            push_str(
                &mut s,
                "Could not read the selected run record. Confirm the file still exists and is readable.",
            );
        },
        RunRecordReadError::UnexpectedFileKind { actual, .. } => {
            push_str(&mut s, "Selected file is a ");
            push_kind(&mut s, *actual);
            push_str(&mut s, ", but expected a run record.");
        },
        RunRecordReadError::BoardBlockTooLarge { source, .. } => {
            s = source.message();
        },
        RunRecordReadError::LoadedBoardSize(x) => {
            s = x.message();
        },
        RunRecordReadError::FileTooLarge { actual_bytes, limit_bytes, .. } => {
            push_input_too_large(&mut s, *actual_bytes, *limit_bytes);
        },
        RunRecordReadError::Corrupted { .. } | RunRecordReadError::MissingContentHash { .. } => {
            push_str(
                &mut s,
                "Selected run record failed integrity validation. Recreate the run record, or extract a board snapshot from it with the CLI if you intentionally edited it.",
            );
        },
        RunRecordReadError::MalformedSizeHeader { .. } => {
            push_str(
                &mut s,
                "Selected run record has a malformed board size header. Expected WIDTHxHEIGHT, for example 10x10.",
            );
        },
        RunRecordReadError::Magic(_)
        | RunRecordReadError::InvalidTimestamp(_)
        | RunRecordReadError::Parse(_)
        | RunRecordReadError::UnrecognizedStatus { .. }
        | RunRecordReadError::MalformedRunId { .. }
        | RunRecordReadError::MalformedField { .. }
        | RunRecordReadError::MissingField { .. } => {
            push_str(
                &mut s,
                "Selected file is not a valid Game of Life run record. Expected a GOL-RUN-RECORD v1 or v2 .gol file.",
            );
        },
    }
    proof {
        assert(s@ =~= load_run_error_text(*error));
    }
    s
}

/// The refusal the desktop reports when saving a board snapshot failed: an
/// existing file is never overwritten, and an I/O error is passed on with
/// its description.
pub fn save_snapshot_error(e: BoardSnapshotWriteError) -> (r: SessionError)
    ensures
        match e {
            BoardSnapshotWriteError::OutputExists { path } => r matches SessionError::SaveBoardSnapshot(m)
                && m@ == "Refusing to overwrite existing file '"@ + path@ + "'"@,
            BoardSnapshotWriteError::Io(io) => r matches SessionError::SaveBoardSnapshot(m) && describes(
                m@,
                io_error_prefix(io),
                false,
            ),
        },
{
    match e {
        BoardSnapshotWriteError::OutputExists { path } => {
            let mut s = String::new();
            push_str(&mut s, "Refusing to overwrite existing file '");
            push_str(&mut s, path.as_str());
            push_str(&mut s, "'");
            proof {
                assert(s@ =~= "Refusing to overwrite existing file '"@ + path@ + "'"@);
            }
            SessionError::SaveBoardSnapshot(s)
        },
        BoardSnapshotWriteError::Io(io) => SessionError::SaveBoardSnapshot(io.message()),
    }
}

} // verus!
