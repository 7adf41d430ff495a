//! Plain forms of the values that cross between the simulation and the
//! desktop front end; the front end's serialization adds its own derives to
//! copies of these.
use vstd::prelude::*;

use base64::Engine;

use crate::board::CellState;
use crate::stats::{AdvanceOutcome, RunStatistics, RunStatus};

verus! {

/// The front end's top-level mode.
#[derive(Debug, Clone, Copy, PartialEq, Eq, Structural)]
pub enum Mode {
    Setup,
    Paused,
    Playing,
    JumpingTo,
}

/// A cell as the front end draws it: transitional states collapse to the
/// state they are heading to.
#[derive(Debug, Clone, Copy, PartialEq, Eq, Structural)]
pub enum IpcCellState {
    Dead,
    Alive,
}

impl IpcCellState {
    pub open spec fn of(state: CellState) -> IpcCellState {
        if state == CellState::Alive || state == CellState::Resurrecting {
            IpcCellState::Alive
        } else {
            IpcCellState::Dead
        }
    }

    pub open spec fn core_state(self) -> CellState {
        if self == IpcCellState::Alive {
            CellState::Alive
        } else {
            CellState::Dead
        }
    }

    pub fn from_core(state: CellState) -> (r: Self)
        ensures
            r == Self::of(state),
    {
        match state {
            CellState::Alive | CellState::Resurrecting => IpcCellState::Alive,
            CellState::Dead | CellState::Dying => IpcCellState::Dead,
        }
    }

    pub fn to_core(self) -> (r: CellState)
        ensures
            r == self.core_state(),
    {
        match self {
            IpcCellState::Alive => CellState::Alive,
            IpcCellState::Dead => CellState::Dead,
        }
    }
}

/// A cell sent to the front end and back comes back in the state it was
/// heading to.
pub proof fn lemma_cell_state_round_trip(state: CellState)
    ensures
        IpcCellState::of(state).core_state() == state.normal_form(),
{
}

/// Built-in patterns offered for a new run.
#[derive(Debug, Clone, Copy, PartialEq, Eq, Structural)]
pub enum PatternName {
    Demo,
    Blinker,
    FullyAlive,
}

/// How a new run gets its starting board.
#[derive(Debug, Clone, Copy, PartialEq, Eq, Structural)]
pub enum InitialSource {
    Pattern(PatternName),
    Random { seed: u64, alive_cells_per_thousand: u16 },
    Empty,
}

/// Character `v` (below 64) of the standard `base64` alphabet.
pub open spec fn base64_digit(v: int) -> char {
    if v < 26 {
        (('A' as int) + v) as char
    } else if v < 52 {
        (('a' as int) + v - 26) as char
    } else if v < 62 {
        (('0' as int) + v - 52) as char
    } else if v == 62 {
        '+'
    } else {
        '/'
    }
}

/// `base64` (standard alphabet, padded with `=`) of `bytes`: each group of
/// three bytes becomes four digits of six bits each; a last group of one or
/// two bytes is padded to four characters.
pub open spec fn base64_standard_encoding(bytes: Seq<u8>) -> Seq<char>
    decreases bytes.len(),
{
    let a = bytes[0] as int;
    let b = bytes[1] as int;
    let c = bytes[2] as int;
    if bytes.len() == 0 {
        Seq::empty()
    } else if bytes.len() == 1 {
        seq![base64_digit(a / 4), base64_digit((a % 4) * 16), '=', '=']
    } else if bytes.len() == 2 {
        seq![base64_digit(a / 4), base64_digit((a % 4) * 16 + b / 16), base64_digit((b % 16) * 4), '=']
    } else {
        seq![
            base64_digit(a / 4),
            base64_digit((a % 4) * 16 + b / 16),
            base64_digit((b % 16) * 4 + c / 64),
            base64_digit(c % 64),
        ] + base64_standard_encoding(bytes.subrange(3, bytes.len() as int))
    }
}

/// The bytes whose standard padded `base64` is `text`, if any.
pub uninterp spec fn base64_standard_decoding(text: Seq<char>) -> Option<Seq<u8>>;

/// `base64::engine::general_purpose::STANDARD.encode`.
///
/// The result is the standard padded `base64` of the bytes, and the same
/// engine decodes it back to the input bytes. The function panics when the encoded
/// length overflows `usize`, which the bound on the input rules out.
#[verifier::external_body]
fn encode_standard(bytes: &[u8]) -> (r: String)
    requires
        bytes@.len() <= usize::MAX / 2,
    ensures
        r@ == base64_standard_encoding(bytes@),
        base64_standard_decoding(r@) == Some(bytes@),
{
    base64::engine::general_purpose::STANDARD.encode(bytes)
}

/// `base64::engine::general_purpose::STANDARD.decode`.
///
/// The result is named by `base64_standard_decoding`: `Ok` with the bytes
/// where the name gives some, an error where it gives none.
#[verifier::external_body]
fn decode_standard(text: &str) -> (r: Result<Vec<u8>, base64::DecodeError>)
    ensures
        r matches Ok(v) ==> base64_standard_decoding(text@) == Some(v@),
        r is Err ==> base64_standard_decoding(text@) is None,
{
    base64::engine::general_purpose::STANDARD.decode(text.as_bytes())
}

/// `base64::DecodeError`, carried through unchanged.
#[verifier::external_type_specification]
#[verifier::external_body]
pub struct ExDecodeError(base64::DecodeError);

/// A board's cells shipped to the front end: one byte per cell (0 dead, 1
/// alive), base64-encoded.
#[derive(Debug, Clone)]
pub struct BoardPayload {
    pub width: u32,
    pub height: u32,
    pub iteration: u64,
    pub cells_base64: String,
}

impl BoardPayload {
    pub fn from_bytes(width: u32, height: u32, iteration: u64, cells: &[u8]) -> (r: Self)
        requires
            cells@.len() <= usize::MAX / 2,
        ensures
            r.width == width,
            r.height == height,
            r.iteration == iteration,
            r.cells_base64@ == base64_standard_encoding(cells@),
            base64_standard_decoding(r.cells_base64@) == Some(cells@),
    {
        Self { width, height, iteration, cells_base64: encode_standard(cells) }
    }

    /// The cell bytes, decoded.
    pub fn decoded_cells(&self) -> (r: Result<Vec<u8>, base64::DecodeError>)
        ensures
            match base64_standard_decoding(self.cells_base64@) {
                Some(b) => r matches Ok(v) && v@ == b,
                None => r is Err,
            },
    {
        decode_standard(self.cells_base64.as_str())
    }
}

/// Per-generation counts with the iteration index.
#[derive(Debug, Clone, Copy, PartialEq, Eq, Structural)]
pub struct AdvanceTick {
    pub iteration: u64,
    pub alive: u64,
    pub dead: u64,
    pub births: u64,
    pub deaths: u64,
}

impl AdvanceTick {
    pub fn from_outcome(iteration: u64, total_cells: u64, outcome: AdvanceOutcome) -> (r: Self)
        ensures
            r.iteration == iteration,
            r.alive == outcome.alive_count,
            r.dead == if total_cells >= outcome.alive_count {
                (total_cells - outcome.alive_count) as u64
            } else {
                0
            },
            r.births == outcome.births,
            r.deaths == outcome.deaths,
    {
        Self {
            iteration,
            alive: outcome.alive_count,
            dead: total_cells.saturating_sub(outcome.alive_count),
            births: outcome.births,
            deaths: outcome.deaths,
        }
    }
}

/// The counts of a generation with the board they produced.
#[derive(Debug, Clone)]
pub struct BoardTick {
    pub stats: AdvanceTick,
    pub board: BoardPayload,
}

/// Progress of a jump or run to a target iteration.
#[derive(Debug, Clone, Copy, PartialEq, Eq, Structural)]
pub struct JumpProgress {
    pub current: u64,
    pub target: u64,
}

#[derive(Debug, Clone, Copy, PartialEq, Eq, Structural)]
pub enum IpcRunStatus {
    MaxIterations,
    Extinct,
    Stable,
    Cyclic,
}

impl IpcRunStatus {
    pub open spec fn of(status: RunStatus) -> IpcRunStatus {
        match status {
            RunStatus::MaxIterations => IpcRunStatus::MaxIterations,
            RunStatus::Extinct => IpcRunStatus::Extinct,
            RunStatus::Stable => IpcRunStatus::Stable,
            RunStatus::Cyclic => IpcRunStatus::Cyclic,
        }
    }

    pub fn from_core(status: RunStatus) -> (r: Self)
        ensures
            r == Self::of(status),
    {
        match status {
            RunStatus::MaxIterations => IpcRunStatus::MaxIterations,
            RunStatus::Extinct => IpcRunStatus::Extinct,
            RunStatus::Stable => IpcRunStatus::Stable,
            RunStatus::Cyclic => IpcRunStatus::Cyclic,
        }
    }
}

/// Final statistics of a run as the front end shows them.
#[derive(Debug, Clone, Copy, PartialEq, Eq, Structural)]
pub struct IpcRunStatistics {
    pub initial_alive_count: u64,
    pub final_alive_count: u64,
    pub peak_alive_count: u64,
    pub peak_alive_generation: u64,
    pub min_alive_count: u64,
    pub min_alive_generation: u64,
    pub total_births: u64,
    pub total_deaths: u64,
    pub iterations_run: u64,
    pub status: IpcRunStatus,
    pub cycle_start_generation: Option<u64>,
    pub cycle_detected_generation: Option<u64>,
    pub cycle_period: Option<u64>,
}

impl IpcRunStatistics {
    /// The front end's form of a run's statistics, field for field.
    pub fn from_statistics(s: &RunStatistics) -> (r: Self)
        ensures
            r.initial_alive_count == s.initial_alive_count,
            r.final_alive_count == s.final_alive_count,
            r.peak_alive_count == s.peak_alive_count,
            r.peak_alive_generation == s.peak_alive_generation,
            r.min_alive_count == s.min_alive_count,
            r.min_alive_generation == s.min_alive_generation,
            r.total_births == s.total_births,
            r.total_deaths == s.total_deaths,
            r.iterations_run == s.iterations_run,
            r.status == IpcRunStatus::of(s.status),
            r.cycle_start_generation == match s.cycle {
                Some(c) => Some(c.start_generation),
                None => None::<u64>,
            },
            r.cycle_detected_generation == match s.cycle {
                Some(c) => Some(c.detected_generation),
                None => None::<u64>,
            },
            r.cycle_period == match s.cycle {
                Some(c) => Some(c.period),
                None => None::<u64>,
            },
    {
        let (start, detected, period) = match s.cycle {
            Some(c) => (Some(c.start_generation), Some(c.detected_generation), Some(c.period)),
            None => (None, None, None),
        };
        Self {
            initial_alive_count: s.initial_alive_count,
            final_alive_count: s.final_alive_count,
            peak_alive_count: s.peak_alive_count,
            peak_alive_generation: s.peak_alive_generation,
            min_alive_count: s.min_alive_count,
            min_alive_generation: s.min_alive_generation,
            total_births: s.total_births,
            total_deaths: s.total_deaths,
            iterations_run: s.iterations_run,
            status: IpcRunStatus::from_core(s.status),
            cycle_start_generation: start,
            cycle_detected_generation: detected,
            cycle_period: period,
        }
    }
}

/// Notice that a run reached a terminal state.
#[derive(Debug, Clone, PartialEq, Eq, Structural)]
pub struct RunCompleted {
    pub iteration: u64,
    pub status: IpcRunStatus,
    pub stats: IpcRunStatistics,
}

/// What the front end is told about the current session.
#[derive(Debug, Clone, PartialEq, Eq)]
pub struct SessionInfo {
    pub mode: Mode,
    pub iteration: u64,
    pub width: u32,
    pub height: u32,
    pub max_iterations: u64,
    pub save_path: Option<String>,
    pub dirty: bool,
    pub completed: bool,
    pub jump_target: Option<u64>,
    pub status: Option<IpcRunStatus>,
}

/// One cell paint instruction.
#[derive(Debug, Clone, Copy, PartialEq, Eq, Structural)]
pub struct CellEdit {
    pub x: u32,
    pub y: u32,
    pub alive: bool,
}

} // verus!
