//! The state of a desktop session and the decisions on it: setting up a
//! board, editing it, starting, advancing, restarting and loading a run.
//! Locking, the play and jump workers and file access stay with the front
//! end, which calls these operations in turn.
use vstd::prelude::*;

use super::ipc_types::{
    AdvanceTick, BoardPayload, CellEdit, InitialSource, IpcCellState, IpcRunStatus, Mode, PatternName,
    SessionInfo,
};
use crate::algorithms::board_initializer::BoardInitializer;
use crate::algorithms::random_board_initializer::{RandomBoardInitializer, RandomBoardInitializerError};
use crate::board::grid::in_bounds;
use crate::board::view::BoardView;
use crate::board::in_memory_board::{allocation_result, InMemoryBoardCreationError};
use crate::board::{CellState, InMemoryBoard};
use crate::config::values::InitialBoardSource;
use crate::pattern_analysis::{
    analyzer_step, first_seen, PatternAnalyzer, PatternBackend, PatternObservation, SeenEntries,
};
use crate::simulation::seed_with_initializer;
use crate::repetition::{
    distinct_seen, lemma_seen_distinct, lemma_seen_new, lemma_seen_repeat, repeats_seen, signature_for,
    tracks_seen,
};
use crate::text::decimal_digits;
use crate::persistence::board_snapshot::{BoardSnapshot, BoardSnapshotReadError};
use crate::persistence::magic::FileKind;
use crate::persistence::run_record::{LoadedRunRecord, RunRecordReadError};
use super::messages::{
    load_run_error_message, load_run_error_text, load_snapshot_error_message, load_snapshot_error_text,
};
use crate::stats::{
    terminal_status_for_outcome, AdvanceOutcome, CycleStatistics, RunStatistics,
    RunStatisticsCollector, RunStatus,
};

verus! {

/// Longest alive-count history kept before it is thinned out.
pub const HISTORY_CAP: usize = 100_000;

/// Memory budget for a session's board when none is given (64 MiB).
pub const DEFAULT_MAX_BOARD_MEMORY_BYTES: usize = 67_108_864;

/// Generation cap for a board loaded without one.
pub const DEFAULT_MAX_ITERATIONS: u64 = 100;

/// Why a session operation was refused.
#[derive(Debug)]
pub enum SessionError {
    WrongMode { current: Mode, required: &'static str },
    NoBoard,
    NoInitialSnapshot,
    OutOfBounds { x: u32, y: u32 },
    InvalidMaxIterations { new_total: u64 },
    RunCompleted,
    WorkerStopped,
    ZeroDimension,
    StreamingNotImplemented { width: u32, height: u32, required_bytes: usize, budget_bytes: usize },
    SaveBoardSnapshot(String),
    LoadBoardSnapshot(String),
    LoadRunRecord(String),
    Allocation(InMemoryBoardCreationError),
    RandomInit(RandomBoardInitializerError),
}

/// The byte the front end gets for a cell: 1 alive (or coming alive), 0
/// otherwise.
pub open spec fn ipc_byte(c: CellState) -> u8 {
    if IpcCellState::of(c) == IpcCellState::Alive {
        1
    } else {
        0
    }
}

/// The cell bytes of the first `n` rows, row after row.
pub open spec fn cell_rows(b: InMemoryBoard, n: nat) -> Seq<u8>
    decreases n,
{
    if n == 0 {
        Seq::empty()
    } else {
        cell_rows(b, (n - 1) as nat) + Seq::new(b.spec_width(), |x: int| ipc_byte(b.cell(x, n - 1)))
    }
}

/// The cell bytes of a board.
pub open spec fn cell_bytes(b: InMemoryBoard) -> Seq<u8> {
    cell_rows(b, b.spec_height())
}

/// An alive-count history with one entry added, thinned to every other
/// entry once it grows past the cap.
pub open spec fn pushed_history(h: Seq<u64>, alive: u64) -> Seq<u64> {
    let p = h.push(alive);
    if p.len() > HISTORY_CAP {
        Seq::new(((p.len() + 1) / 2) as nat, |i: int| p[2 * i])
    } else {
        p
    }
}

/// Which board of a run record to load.
#[derive(Debug, Clone, Copy, PartialEq, Eq, Structural)]
pub enum RunBoardSelection {
    Initial,
    Final,
}

/// How a request to open a board snapshot was settled.
#[derive(Debug, Clone, Copy, PartialEq, Eq, Structural)]
pub enum SnapshotLoad {
    /// The board was loaded into setup mode.
    Loaded,
    /// The file is a run record; open it as one.
    RunRecord,
}

/// The state of a desktop session.
pub struct SessionState {
    mode: Mode,
    width: u32,
    height: u32,
    board: Option<InMemoryBoard>,
    initial_snapshot: Option<Vec<u8>>,
    iteration: u64,
    max_iterations: u64,
    alive_history: Vec<u64>,
    stats: Option<RunStatisticsCollector>,
    pattern_analyzer: Option<PatternAnalyzer>,
    seen_boards: Ghost<Seq<(u64, spec_fn(int, int) -> CellState)>>,
    final_stats: Option<RunStatistics>,
    save_path: Option<String>,
    saved_snapshot: Option<Vec<u8>>,
    dirty: bool,
    revision: u64,
    worker_generation: u64,
    jump_target: Option<u64>,
}

impl SessionState {
    pub closed spec fn spec_mode(&self) -> Mode {
        self.mode
    }

    pub closed spec fn spec_width(&self) -> u32 {
        self.width
    }

    pub closed spec fn spec_height(&self) -> u32 {
        self.height
    }

    pub closed spec fn spec_board(&self) -> Option<InMemoryBoard> {
        self.board
    }

    pub closed spec fn initial_cells(&self) -> Option<Seq<u8>> {
        match self.initial_snapshot {
            Some(v) => Some(v@),
            None => None,
        }
    }

    pub closed spec fn saved_cells(&self) -> Option<Seq<u8>> {
        match self.saved_snapshot {
            Some(v) => Some(v@),
            None => None,
        }
    }

    pub closed spec fn spec_iteration(&self) -> u64 {
        self.iteration
    }

    pub closed spec fn spec_max_iterations(&self) -> u64 {
        self.max_iterations
    }

    pub closed spec fn history(&self) -> Seq<u64> {
        self.alive_history@
    }

    pub closed spec fn running_stats(&self) -> Option<RunStatisticsCollector> {
        self.stats
    }

    pub closed spec fn spec_final_stats(&self) -> Option<RunStatistics> {
        self.final_stats
    }

    pub closed spec fn spec_save_path(&self) -> Option<Seq<char>> {
        match self.save_path {
            Some(p) => Some(p@),
            None => None,
        }
    }

    pub closed spec fn spec_dirty(&self) -> bool {
        self.dirty
    }

    pub closed spec fn spec_revision(&self) -> u64 {
        self.revision
    }

    pub closed spec fn spec_worker_generation(&self) -> u64 {
        self.worker_generation
    }

    pub closed spec fn spec_jump_target(&self) -> Option<u64> {
        self.jump_target
    }

    /// The board, when there is one, has the session's size, small enough to
    /// be signed; a run in progress has a collector and a cycle detector
    /// that has seen no generation after the current one.
    /// The boards the run's cycle detector has seen, each with the
    /// generation it was seen at.
    pub closed spec fn seen_boards(&self) -> Seq<(u64, spec_fn(int, int) -> CellState)> {
        self.seen_boards@
    }

    /// During a run, no two of the boards the cycle detector has seen are
    /// the same board.
    pub proof fn lemma_seen_boards_distinct(&self)
        requires
            self.wf(),
            self.running_stats() is Some || self.spec_final_stats() is Some,
        ensures
            distinct_seen(self.seen_boards(), self.spec_width() as nat, self.spec_height() as nat),
    {
        let a = self.pattern_analyzer->0;
        lemma_seen_distinct(a.detector_entries()[0], self.seen_boards@, self.width as nat, self.height as nat);
    }

    pub closed spec fn wf(&self) -> bool {
        &&& self.board matches Some(b) ==> b.spec_width() == self.width && b.spec_height() == self.height
            && session_sized(self.width, self.height)
        &&& self.final_stats matches Some(f) ==> {
            &&& f.iterations_run == self.iteration
            &&& f.total_births <= self.iteration * (self.width * self.height)
            &&& f.total_deaths <= self.iteration * (self.width * self.height)
            &&& self.pattern_analyzer matches Some(a) && a.detector_entries().len() == 1
                && forall|j: int|
                0 <= j < a.detector_entries()[0].len() ==> #[trigger] a.detector_entries()[0][j].1
                    <= self.iteration
        }
        &&& self.pattern_analyzer is Some ==> (self.stats is Some || self.final_stats is Some)
        &&& self.pattern_analyzer matches Some(a) ==> a.detector_entries().len() == 1 && forall|j: int|
            0 <= j < a.detector_entries()[0].len() ==> #[trigger] a.detector_entries()[0][j].1 <= self.iteration
        &&& self.pattern_analyzer matches Some(a) ==> tracks_seen(
            a.detector_entries()[0],
            self.seen_boards@,
            self.width as nat,
            self.height as nat,
        )
        &&& self.stats is Some ==> {
            &&& self.pattern_analyzer is Some
            &&& self.stats->0.iterations() == self.iteration
            &&& self.stats->0.births() <= self.iteration * (self.width * self.height)
            &&& self.stats->0.deaths() <= self.iteration * (self.width * self.height)
        }
    }

    /// A session with no board, in setup.
    pub fn new() -> (r: Self)
        ensures
            r.wf(),
            r.spec_mode() == Mode::Setup,
            r.spec_board() is None,
            r.spec_width() == 0 && r.spec_height() == 0,
            r.spec_iteration() == 0 && r.spec_max_iterations() == 0,
            r.history().len() == 0,
            r.spec_final_stats() is None,
            !r.spec_dirty(),
            r.spec_revision() == 0,
            r.spec_worker_generation() == 0,
            r.spec_jump_target() is None,
    {
        SessionState {
            mode: Mode::Setup,
            width: 0,
            height: 0,
            board: None,
            initial_snapshot: None,
            iteration: 0,
            max_iterations: 0,
            alive_history: Vec::new(),
            stats: None,
            pattern_analyzer: None,
            seen_boards: Ghost(Seq::empty()),
            final_stats: None,
            save_path: None,
            saved_snapshot: None,
            dirty: false,
            revision: 0,
            worker_generation: 0,
            jump_target: None,
        }
    }

    /// What the front end shows of the session.
    pub fn info(&self) -> (r: SessionInfo)
        ensures
            r.mode == self.spec_mode(),
            r.iteration == self.spec_iteration(),
            r.width == self.spec_width(),
            r.height == self.spec_height(),
            r.max_iterations == self.spec_max_iterations(),
            match r.save_path {
                Some(p) => self.spec_save_path() == Some(p@),
                None => self.spec_save_path() is None,
            },
            r.dirty == self.spec_dirty(),
            r.completed == self.spec_final_stats() is Some,
            r.jump_target == self.spec_jump_target(),
            r.status == match self.spec_final_stats() {
                Some(s) => Some(IpcRunStatus::of(s.status)),
                None => None::<IpcRunStatus>,
            },
    {
        SessionInfo {
            mode: self.mode,
            iteration: self.iteration,
            width: self.width,
            height: self.height,
            max_iterations: self.max_iterations,
            save_path: match &self.save_path {
                Some(p) => Some(p.clone()),
                None => None,
            },
            dirty: self.dirty,
            completed: self.final_stats.is_some(),
            jump_target: self.jump_target,
            status: match &self.final_stats {
                Some(s) => Some(IpcRunStatus::from_core(s.status)),
                None => None,
            },
        }
    }

    /// The alive counts of the run so far.
    pub fn alive_history(&self) -> (r: Vec<u64>)
        ensures
            r@ == self.history(),
    {
        self.alive_history.clone()
    }

    /// The statistics of the finished run.
    pub fn final_stats(&self) -> (r: Option<RunStatistics>)
        ensures
            r == self.spec_final_stats(),
    {
        match &self.final_stats {
            Some(s) => Some(copy_stats(s)),
            None => None,
        }
    }
}

fn copy_stats(s: &RunStatistics) -> (r: RunStatistics)
    ensures
        r == *s,
{
    RunStatistics {
        initial_alive_count: s.initial_alive_count,
        final_alive_count: s.final_alive_count,
        peak_alive_count: s.peak_alive_count,
        peak_alive_generation: s.peak_alive_generation,
        min_alive_count: s.min_alive_count,
        min_alive_generation: s.min_alive_generation,
        total_births: s.total_births,
        total_deaths: s.total_deaths,
        iterations_run: s.iterations_run,
        status: s.status,
        cycle: s.cycle,
    }
}

/// The cell bytes of a board, row after row.
pub fn collect_cells(board: &InMemoryBoard) -> (r: Vec<u8>)
    ensures
        r@ == cell_bytes(*board),
{
    let w = board.width();
    let h = board.height();
    let mut out: Vec<u8> = Vec::new();
    let mut y: usize = 0;
    while y < h
        invariant
            w == board.spec_width(),
            h == board.spec_height(),
            y <= h,
            out@ == cell_rows(*board, y as nat),
        decreases h - y,
    {
        let ghost row_start = out@;
        let mut x: usize = 0;
        while x < w
            invariant
                w == board.spec_width(),
                h == board.spec_height(),
                y < h,
                x <= w,
                out@ == row_start + Seq::new(x as nat, |i: int| ipc_byte(board.cell(i, y as int))),
            decreases w - x,
        {
            let b: u8 = match IpcCellState::from_core(board.get(x, y)) {
                IpcCellState::Alive => 1,
                IpcCellState::Dead => 0,
            };
            out.push(b);
            x += 1;
            proof {
                assert(out@ =~= row_start + Seq::new(x as nat, |i: int| ipc_byte(board.cell(i, y as int))));
            }
        }
        y += 1;
        proof {
            assert(out@ =~= cell_rows(*board, y as nat));
        }
    }
    out
}

/// Whether two byte strings are equal.
fn bytes_equal(a: &Vec<u8>, b: &Vec<u8>) -> (r: bool)
    ensures
        r == (a@ == b@),
{
    if a.len() != b.len() {
        return false;
    }
    let mut i: usize = 0;
    while i < a.len()
        invariant
            a@.len() == b@.len(),
            i <= a@.len(),
            forall|j: int| 0 <= j < i ==> a@[j] == b@[j],
        decreases a@.len() - i,
    {
        if a[i] != b[i] {
            return false;
        }
        i += 1;
    }
    proof {
        assert(a@ =~= b@);
    }
    true
}

/// `n + 1`, wrapping to 0 past the largest value.
pub open spec fn wrap_inc(n: u64) -> u64 {
    if n == u64::MAX {
        0
    } else {
        (n + 1) as u64
    }
}

fn wrapping_inc(n: u64) -> (r: u64)
    ensures
        r == wrap_inc(n),
{
    if n == u64::MAX {
        0
    } else {
        n + 1
    }
}

/// The initializer a named pattern stands for.
pub open spec fn pattern_source(p: PatternName) -> InitialBoardSource {
    match p {
        PatternName::Demo => InitialBoardSource::Demo,
        PatternName::Blinker => InitialBoardSource::Blinker,
        PatternName::FullyAlive => InitialBoardSource::Alive,
    }
}

/// Each named pattern seeds a board as the initializer of the same name
/// does: the demo pattern as the demo initializer, the blinker as the
/// centered-blinker initializer, fully alive as the fully-alive initializer;
/// so a new board started from a pattern holds that initializer's cells.
pub proof fn lemma_patterns_seed_as_their_initializers(w: nat, h: nat, x: int, y: int, prev: CellState)
    ensures
        crate::simulation::seeded_cell(pattern_source(PatternName::Demo), 0, w, h, x, y, prev)
            == crate::algorithms::demo_board_initializer::DemoBoardInitializer.initialized_cell(w, h, x, y, prev),
        crate::simulation::seeded_cell(pattern_source(PatternName::Blinker), 0, w, h, x, y, prev)
            == crate::algorithms::centered_blinker_initializer::CenteredBlinkerInitializer.initialized_cell(
            w,
            h,
            x,
            y,
            prev,
        ),
        crate::simulation::seeded_cell(pattern_source(PatternName::FullyAlive), 0, w, h, x, y, prev)
            == crate::algorithms::fully_alive_initializer::FullyAliveInitializer.initialized_cell(w, h, x, y, prev),
        source_cell(InitialSource::Pattern(PatternName::Demo), w, h, x, y)
            == crate::algorithms::demo_board_initializer::DemoBoardInitializer.initialized_cell(
            w,
            h,
            x,
            y,
            CellState::Dead,
        ),
        source_cell(InitialSource::Pattern(PatternName::Blinker), w, h, x, y)
            == crate::algorithms::centered_blinker_initializer::CenteredBlinkerInitializer.initialized_cell(
            w,
            h,
            x,
            y,
            CellState::Dead,
        ),
        source_cell(InitialSource::Pattern(PatternName::FullyAlive), w, h, x, y)
            == crate::algorithms::fully_alive_initializer::FullyAliveInitializer.initialized_cell(
            w,
            h,
            x,
            y,
            CellState::Dead,
        ),
{
}

fn pattern_initializer(p: PatternName) -> (r: InitialBoardSource)
    ensures
        r == pattern_source(p),
{
    match p {
        PatternName::Demo => InitialBoardSource::Demo,
        PatternName::Blinker => InitialBoardSource::Blinker,
        PatternName::FullyAlive => InitialBoardSource::Alive,
    }
}

/// Cell `(x, y)` of a `w × h` board seeded with `density` alive cells per
/// thousand from `seed`.
pub open spec fn random_cell(seed: u64, density: u16, w: nat, x: int, y: int) -> CellState {
    if crate::algorithms::random_board_initializer::draw_per_thousand(seed, (y * w + x + 1) as nat) < density {
        CellState::Alive
    } else {
        CellState::Dead
    }
}

/// Cell `(x, y)` of a new `w × h` board started from `source`.
pub open spec fn source_cell(source: InitialSource, w: nat, h: nat, x: int, y: int) -> CellState {
    match source {
        InitialSource::Empty => CellState::Dead,
        InitialSource::Pattern(p) => crate::simulation::seeded_cell(pattern_source(p), 0, w, h, x, y, CellState::Dead),
        InitialSource::Random { seed, alive_cells_per_thousand } => random_cell(
            seed,
            alive_cells_per_thousand,
            w,
            x,
            y,
        ),
    }
}

/// Whether a `w × h` board is small enough for a session: its cells can be
/// counted and signed in memory.
pub open spec fn session_sized(w: u32, h: u32) -> bool {
    w * h <= usize::MAX / 2
}

/// The state after a fresh board was set up: setup mode, no run, nothing
/// saved, the revision and worker generation moved on.
pub open spec fn fresh_setup(
    new: SessionState,
    old: SessionState,
    w: u32,
    h: u32,
    max_iterations: u64,
    save_path: Option<Seq<char>>,
) -> bool {
    &&& new.wf()
    &&& new.spec_mode() == Mode::Setup
    &&& new.spec_width() == w
    &&& new.spec_height() == h
    &&& new.spec_board() is Some
    &&& new.initial_cells() is None
    &&& new.spec_iteration() == 0
    &&& new.spec_max_iterations() == max_iterations
    &&& new.history().len() == 0
    &&& new.running_stats() is None
    &&& new.spec_final_stats() is None
    &&& new.spec_save_path() == save_path
    &&& !new.spec_dirty()
    &&& new.spec_revision() == wrap_inc(old.spec_revision())
    &&& new.spec_worker_generation() == wrap_inc(old.spec_worker_generation())
    &&& new.spec_jump_target() is None
}

/// A loaded board the desktop can hold: each side fits in a `u32` and the
/// cell count in half the address space.
pub open spec fn board_fits_desktop(b: InMemoryBoard) -> bool {
    &&& b.spec_width() <= u32::MAX
    &&& b.spec_height() <= u32::MAX
    &&& session_sized(b.spec_width() as u32, b.spec_height() as u32)
}

/// Why a loaded board does not fit the desktop.
pub open spec fn desktop_limit_text(b: InMemoryBoard) -> Seq<char> {
    if b.spec_width() > u32::MAX {
        "Loaded board width "@ + decimal_digits(b.spec_width() as nat) + " exceeds desktop limits."@
    } else if b.spec_height() > u32::MAX {
        "Loaded board height "@ + decimal_digits(b.spec_height() as nat) + " exceeds desktop limits."@
    } else {
        "Loaded board of "@ + decimal_digits(b.spec_width() as nat) + "x"@ + decimal_digits(
            b.spec_height() as nat,
        ) + " cells exceeds desktop limits."@
    }
}

/// The state after `board` was loaded into setup mode: `save_path` is where
/// it came from, the cap is `max_iterations`, else the current cap, else
/// the default; the board counts as saved.
pub open spec fn loaded_into_setup(
    new: SessionState,
    old: SessionState,
    board: InMemoryBoard,
    save_path: Option<Seq<char>>,
    max_iterations: Option<u64>,
) -> bool {
    &&& fresh_setup(
        new,
        old,
        board.spec_width() as u32,
        board.spec_height() as u32,
        match max_iterations {
            Some(m) => m,
            None => if old.spec_max_iterations() == 0 {
                DEFAULT_MAX_ITERATIONS
            } else {
                old.spec_max_iterations()
            },
        },
        save_path,
    )
    &&& new.spec_board() == Some(board)
    &&& new.saved_cells() == Some(cell_bytes(board))
}

/// The density a random source asks for.
pub open spec fn random_density(source: InitialSource) -> Option<u16> {
    match source {
        InitialSource::Random { alive_cells_per_thousand, .. } => Some(alive_cells_per_thousand),
        _ => None,
    }
}

/// The operation was refused for not being in setup mode.
pub open spec fn refused_setup(r: Result<(), SessionError>, mode: Mode) -> bool {
    r matches Err(e) && setup_refusal(e, mode)
}

/// The refusal of an operation that needs setup mode.
pub open spec fn setup_refusal(e: SessionError, mode: Mode) -> bool {
    e matches SessionError::WrongMode { current, required } && current == mode && required@ == "Setup"@
}

/// A board after `edits` were painted on it in order.
pub open spec fn painted(b: InMemoryBoard, edits: Seq<CellEdit>, x: int, y: int) -> CellState
    decreases edits.len(),
{
    if edits.len() == 0 {
        b.cell(x, y)
    } else {
        let e = edits.last();
        if e.x == x && e.y == y {
            if e.alive {
                CellState::Alive
            } else {
                CellState::Dead
            }
        } else {
            painted(b, edits.drop_last(), x, y)
        }
    }
}

/// The first edit that falls off a `w × h` board.
pub open spec fn first_off_board(edits: Seq<CellEdit>, w: u32, h: u32) -> Option<int>
    decreases edits.len(),
{
    if edits.len() == 0 {
        None
    } else {
        match first_off_board(edits.drop_last(), w, h) {
            Some(i) => Some(i),
            None => if edits.last().x >= w || edits.last().y >= h {
                Some(edits.len() - 1)
            } else {
                None
            },
        }
    }
}

impl SessionState {
    /// Sets up a new board in setup mode, replacing any run. A board that
    /// would not fit the budget (64 MiB by default) is refused with the note
    /// that large boards need the streaming board.
    pub fn create_run(
        &mut self,
        width: u32,
        height: u32,
        source: InitialSource,
        max_iterations: u64,
        max_memory_bytes: Option<usize>,
    ) -> (r: Result<(), SessionError>)
        requires
            old(self).wf(),
        ensures
            r is Err ==> *final(self) == *old(self),
            (width == 0 || height == 0) <==> r matches Err(SessionError::ZeroDimension),
            width > 0 && height > 0 ==> match allocation_result(width as usize, height as usize) {
                Err(e) => r == Err::<(), SessionError>(SessionError::Allocation(e)),
                Ok(bytes) => {
                    let budget = match max_memory_bytes {
                        Some(b) => b,
                        None => DEFAULT_MAX_BOARD_MEMORY_BYTES,
                    };
                    if bytes > budget {
                        r == Err::<(), SessionError>(
                            SessionError::StreamingNotImplemented {
                                width,
                                height,
                                required_bytes: bytes,
                                budget_bytes: budget,
                            },
                        )
                    } else if !session_sized(width, height) {
                        r == Err::<(), SessionError>(
                            SessionError::Allocation(
                                InMemoryBoardCreationError::CellCountOverflow {
                                    width: width as usize,
                                    height: height as usize,
                                },
                            ),
                        )
                    } else if random_density(source) matches Some(d)
                        && d > crate::algorithms::random_board_initializer::MAX_ALIVE_CELLS_PER_THOUSAND {
                        r == Err::<(), SessionError>(
                            SessionError::RandomInit(
                                RandomBoardInitializerError::AliveCellsPerThousandTooLarge {
                                    value: random_density(source)->0,
                                },
                            ),
                        )
                    } else {
                        &&& r is Ok
                        &&& fresh_setup(*final(self), *old(self), width, height, max_iterations, None)
                        &&& final(self).saved_cells() is None
                        &&& forall|x: int, y: int|
                            in_bounds(width as int, height as int, x, y)
                                ==> #[trigger] final(self).spec_board()->0.cell(x, y) == source_cell(
                                source,
                                width as nat,
                                height as nat,
                                x,
                                y,
                            )
                    }
                },
            },
    {
        if width == 0 || height == 0 {
            return Err(SessionError::ZeroDimension);
        }
        let budget = match max_memory_bytes {
            Some(b) => b,
            None => DEFAULT_MAX_BOARD_MEMORY_BYTES,
        };
        let allocation = match InMemoryBoard::allocation_bytes(width as usize, height as usize) {
            Ok(bytes) => bytes,
            Err(e) => return Err(SessionError::Allocation(e)),
        };
        if allocation > budget {
            return Err(
                SessionError::StreamingNotImplemented {
                    width,
                    height,
                    required_bytes: allocation,
                    budget_bytes: budget,
                },
            );
        }
        let cells = (width as usize) * (height as usize);
        if cells > usize::MAX / 2 {
            return Err(
                SessionError::Allocation(
                    InMemoryBoardCreationError::CellCountOverflow {
                        width: width as usize,
                        height: height as usize,
                    },
                ),
            );
        }
        let mut board = match InMemoryBoard::try_new(width as usize, height as usize, budget) {
            Ok(b) => b,
            Err(e) => return Err(SessionError::Allocation(e)),
        };
        match source {
            InitialSource::Empty => {},
            InitialSource::Pattern(name) => {
                seed_with_initializer(pattern_initializer(name), &mut board, 0);
            },
            InitialSource::Random { seed, alive_cells_per_thousand } => {
                let init = match RandomBoardInitializer::with_alive_cells_per_thousand(
                    seed,
                    alive_cells_per_thousand,
                ) {
                    Ok(i) => i,
                    Err(e) => return Err(SessionError::RandomInit(e)),
                };
                let _ = init.initialize(&mut board);
                proof {
                    assert forall|x: int, y: int| in_bounds(width as int, height as int, x, y) implies #[trigger] board.cell(x, y)
                        == source_cell(source, width as nat, height as nat, x, y) by {
                        assert(board.view_cell(x, y) == board.cell(x, y));
                    }
                }
            },
        }
        self.mode = Mode::Setup;
        self.width = width;
        self.height = height;
        self.board = Some(board);
        self.initial_snapshot = None;
        self.iteration = 0;
        self.max_iterations = max_iterations;
        self.alive_history = Vec::new();
        self.stats = None;
        self.pattern_analyzer = None;
        self.final_stats = None;
        self.save_path = None;
        self.saved_snapshot = None;
        self.dirty = false;
        self.revision = wrapping_inc(self.revision);
        self.worker_generation = wrapping_inc(self.worker_generation);
        self.jump_target = None;
        Ok(())
    }

    fn require_setup(&self) -> (r: Result<(), SessionError>)
        ensures
            r is Ok <==> self.spec_mode() == Mode::Setup,
            r matches Err(e) ==> setup_refusal(e, self.spec_mode()),
    {
        match self.mode {
            Mode::Setup => Ok(()),
            _ => Err(SessionError::WrongMode { current: self.mode, required: "Setup" }),
        }
    }

    /// Paints one cell in setup mode.
    pub fn set_cell(&mut self, x: u32, y: u32, alive: bool) -> (r: Result<(), SessionError>)
        requires
            old(self).wf(),
        ensures
            final(self).wf(),
            r is Err ==> *final(self) == *old(self),
            old(self).spec_mode() != Mode::Setup ==> refused_setup(r, old(self).spec_mode()),
            old(self).spec_mode() == Mode::Setup && (x >= old(self).spec_width() || y >= old(self).spec_height())
                ==> r == Err::<(), SessionError>(SessionError::OutOfBounds { x, y }),
            old(self).spec_mode() == Mode::Setup && x < old(self).spec_width() && y < old(self).spec_height()
                ==> match old(self).spec_board() {
                None => r matches Err(SessionError::NoBoard),
                Some(b) => {
                    &&& r is Ok
                    &&& final(self).spec_board() matches Some(nb) && nb.spec_width() == b.spec_width()
                        && nb.spec_height() == b.spec_height() && forall|px: int, py: int|
                        in_bounds(b.spec_width() as int, b.spec_height() as int, px, py)
                            ==> #[trigger] nb.cell(px, py) == if px == x && py == y {
                            if alive {
                                CellState::Alive
                            } else {
                                CellState::Dead
                            }
                        } else {
                            b.cell(px, py)
                        }
                    &&& final(self).spec_dirty()
                    &&& final(self).spec_revision() == wrap_inc(old(self).spec_revision())
                    &&& final(self).spec_mode() == old(self).spec_mode()
                    &&& final(self).spec_iteration() == old(self).spec_iteration()
                },
            },
    {
        match self.require_setup() {
            Ok(()) => {},
            Err(e) => return Err(e),
        }
        if x >= self.width || y >= self.height {
            return Err(SessionError::OutOfBounds { x, y });
        }
        let mut board = match self.board.take() {
            Some(b) => b,
            None => return Err(SessionError::NoBoard),
        };
        let state = if alive {
            CellState::Alive
        } else {
            CellState::Dead
        };
        board.set(x as usize, y as usize, state);
        self.board = Some(board);
        self.dirty = true;
        self.revision = wrapping_inc(self.revision);
        Ok(())
    }

    /// Paints a batch of cells in setup mode, in order. An edit off the
    /// board stops the batch with an error, the edits before it applied.
    pub fn paint_cells(&mut self, edits: &[CellEdit]) -> (r: Result<(), SessionError>)
        requires
            old(self).wf(),
        ensures
            final(self).wf(),
            old(self).spec_mode() != Mode::Setup ==> *final(self) == *old(self) && refused_setup(
                r,
                old(self).spec_mode(),
            ),
            old(self).spec_mode() == Mode::Setup ==> match old(self).spec_board() {
                None => *final(self) == *old(self) && r matches Err(SessionError::NoBoard),
                Some(b) => {
                    let done = match first_off_board(edits@, old(self).spec_width(), old(self).spec_height()) {
                        Some(i) => i,
                        None => edits@.len() as int,
                    };
                    &&& final(self).spec_board() matches Some(nb) && nb.spec_width() == b.spec_width()
                        && nb.spec_height() == b.spec_height() && forall|px: int, py: int|
                        in_bounds(b.spec_width() as int, b.spec_height() as int, px, py)
                            ==> #[trigger] nb.cell(px, py) == painted(b, edits@.take(done), px, py)
                    &&& final(self).spec_mode() == old(self).spec_mode()
                    &&& match first_off_board(edits@, old(self).spec_width(), old(self).spec_height()) {
                        Some(i) => r == Err::<(), SessionError>(
                            SessionError::OutOfBounds { x: edits@[i].x, y: edits@[i].y },
                        ) && final(self).spec_dirty() == old(self).spec_dirty() && final(self).spec_revision()
                            == old(self).spec_revision(),
                        None => r is Ok && (edits@.len() > 0 ==> final(self).spec_dirty()
                            && final(self).spec_revision() == wrap_inc(old(self).spec_revision())) && (
                        edits@.len() == 0 ==> final(self).spec_dirty() == old(self).spec_dirty()
                            && final(self).spec_revision() == old(self).spec_revision()),
                    }
                },
            },
    {
        match self.require_setup() {
            Ok(()) => {},
            Err(e) => return Err(e),
        }
        let w = self.width;
        let h = self.height;
        let mut board = match self.board.take() {
            Some(b) => b,
            None => return Err(SessionError::NoBoard),
        };
        let ghost b0 = board;
        let mut i: usize = 0;
        while i < edits.len()
            invariant
                *self == (SessionState { board: None, ..*old(self) }),
                old(self).wf(),
                old(self).spec_mode() == Mode::Setup,
                old(self).spec_board() == Some(b0),
                w == old(self).spec_width(),
                h == old(self).spec_height(),
                b0.spec_width() == w && b0.spec_height() == h,
                board.spec_width() == w && board.spec_height() == h,
                i <= edits@.len(),
                first_off_board(edits@.take(i as int), w, h) is None,
                forall|px: int, py: int|
                    in_bounds(w as int, h as int, px, py) ==> #[trigger] board.cell(px, py) == painted(
                        b0,
                        edits@.take(i as int),
                        px,
                        py,
                    ),
            decreases edits@.len() - i,
        {
            let edit = edits[i];
            proof {
                assert(edits@.take(i + 1int).drop_last() =~= edits@.take(i as int));
                assert(edits@.take(i + 1int).last() == edit);
            }
            if edit.x >= w || edit.y >= h {
                proof {
                    lemma_first_off_board_prefix(edits@, i as int, w, h);
                }
                self.board = Some(board);
                return Err(SessionError::OutOfBounds { x: edit.x, y: edit.y });
            }
            let state = if edit.alive {
                CellState::Alive
            } else {
                CellState::Dead
            };
            board.set(edit.x as usize, edit.y as usize, state);
            i += 1;
        }
        proof {
            assert(edits@.take(edits@.len() as int) =~= edits@);
        }
        self.board = Some(board);
        if edits.len() > 0 {
            self.dirty = true;
            self.revision = wrapping_inc(self.revision);
        }
        Ok(())
    }

    /// Paints a named pattern over the board in setup mode.
    pub fn apply_pattern(&mut self, pattern: PatternName) -> (r: Result<(), SessionError>)
        requires
            old(self).wf(),
        ensures
            final(self).wf(),
            r is Err ==> *final(self) == *old(self),
            old(self).spec_mode() != Mode::Setup ==> refused_setup(r, old(self).spec_mode()),
            old(self).spec_mode() == Mode::Setup ==> match old(self).spec_board() {
                None => r matches Err(SessionError::NoBoard),
                Some(b) => {
                    &&& r is Ok
                    &&& final(self).spec_board() matches Some(nb) && nb.spec_width() == b.spec_width()
                        && nb.spec_height() == b.spec_height() && forall|px: int, py: int|
                        in_bounds(b.spec_width() as int, b.spec_height() as int, px, py)
                            ==> #[trigger] nb.cell(px, py) == crate::simulation::seeded_cell(
                            pattern_source(pattern),
                            0,
                            b.spec_width(),
                            b.spec_height(),
                            px,
                            py,
                            b.cell(px, py),
                        )
                    &&& final(self).spec_dirty()
                    &&& final(self).spec_revision() == wrap_inc(old(self).spec_revision())
                    &&& final(self).spec_mode() == Mode::Setup
                },
            },
    {
        match self.require_setup() {
            Ok(()) => {},
            Err(e) => return Err(e),
        }
        let mut board = match self.board.take() {
            Some(b) => b,
            None => return Err(SessionError::NoBoard),
        };
        seed_with_initializer(pattern_initializer(pattern), &mut board, 0);
        self.board = Some(board);
        self.dirty = true;
        self.revision = wrapping_inc(self.revision);
        Ok(())
    }

    /// Fills the board at random in setup mode.
    pub fn randomize(&mut self, seed: u64, alive_cells_per_thousand: u16) -> (r: Result<(), SessionError>)
        requires
            old(self).wf(),
        ensures
            final(self).wf(),
            r is Err ==> *final(self) == *old(self),
            old(self).spec_mode() != Mode::Setup ==> refused_setup(r, old(self).spec_mode()),
            old(self).spec_mode() == Mode::Setup ==> match old(self).spec_board() {
                None => r matches Err(SessionError::NoBoard),
                Some(b) => if alive_cells_per_thousand
                    > crate::algorithms::random_board_initializer::MAX_ALIVE_CELLS_PER_THOUSAND {
                    r == Err::<(), SessionError>(
                        SessionError::RandomInit(
                            RandomBoardInitializerError::AliveCellsPerThousandTooLarge {
                                value: alive_cells_per_thousand,
                            },
                        ),
                    )
                } else {
                    &&& r is Ok
                    &&& final(self).spec_board() matches Some(nb) && nb.spec_width() == b.spec_width()
                        && nb.spec_height() == b.spec_height() && forall|px: int, py: int|
                        in_bounds(b.spec_width() as int, b.spec_height() as int, px, py)
                            ==> #[trigger] nb.cell(px, py) == random_cell(
                            seed,
                            alive_cells_per_thousand,
                            b.spec_width(),
                            px,
                            py,
                        )
                    &&& final(self).spec_dirty()
                    &&& final(self).spec_revision() == wrap_inc(old(self).spec_revision())
                    &&& final(self).spec_mode() == Mode::Setup
                },
            },
    {
        match self.require_setup() {
            Ok(()) => {},
            Err(e) => return Err(e),
        }
        if self.board.is_none() {
            return Err(SessionError::NoBoard);
        }
        let init = match RandomBoardInitializer::with_alive_cells_per_thousand(seed, alive_cells_per_thousand) {
            Ok(i) => i,
            Err(e) => return Err(SessionError::RandomInit(e)),
        };
        let mut board = match self.board.take() {
            Some(b) => b,
            None => return Err(SessionError::NoBoard),
        };
        let ghost b0 = board;
        let _ = init.initialize(&mut board);
        proof {
            assert forall|px: int, py: int|
                in_bounds(b0.spec_width() as int, b0.spec_height() as int, px, py) implies #[trigger] board.cell(px, py)
                    == random_cell(seed, alive_cells_per_thousand, b0.spec_width(), px, py) by {
                assert(board.view_cell(px, py) == board.cell(px, py));
            }
        }
        self.board = Some(board);
        self.dirty = true;
        self.revision = wrapping_inc(self.revision);
        Ok(())
    }

    /// Kills every cell in setup mode.
    pub fn clear_board(&mut self) -> (r: Result<(), SessionError>)
        requires
            old(self).wf(),
        ensures
            final(self).wf(),
            r is Err ==> *final(self) == *old(self),
            old(self).spec_mode() != Mode::Setup ==> refused_setup(r, old(self).spec_mode()),
            old(self).spec_mode() == Mode::Setup ==> match old(self).spec_board() {
                None => r matches Err(SessionError::NoBoard),
                Some(b) => {
                    &&& r is Ok
                    &&& final(self).spec_board() matches Some(nb) && nb.spec_width() == b.spec_width()
                        && nb.spec_height() == b.spec_height() && forall|px: int, py: int|
                        in_bounds(b.spec_width() as int, b.spec_height() as int, px, py)
                            ==> #[trigger] nb.cell(px, py) == CellState::Dead
                    &&& final(self).spec_dirty()
                    &&& final(self).spec_revision() == wrap_inc(old(self).spec_revision())
                    &&& final(self).spec_mode() == Mode::Setup
                },
            },
    {
        match self.require_setup() {
            Ok(()) => {},
            Err(e) => return Err(e),
        }
        let mut board = match self.board.take() {
            Some(b) => b,
            None => return Err(SessionError::NoBoard),
        };
        let w = board.width();
        let h = board.height();
        let mut y: usize = 0;
        while y < h
            invariant
                board.spec_width() == w,
                board.spec_height() == h,
                y <= h,
                forall|px: int, py: int| 0 <= px < w && 0 <= py < y ==> #[trigger] board.cell(px, py) == CellState::Dead,
            decreases h - y,
        {
            let mut x: usize = 0;
            while x < w
                invariant
                    board.spec_width() == w,
                    board.spec_height() == h,
                    y < h,
                    x <= w,
                    forall|px: int, py: int|
                        0 <= px < w && 0 <= py < y ==> #[trigger] board.cell(px, py) == CellState::Dead,
                    forall|px: int| 0 <= px < x ==> #[trigger] board.cell(px, y as int) == CellState::Dead,
                decreases w - x,
            {
                board.set(x, y, CellState::Dead);
                x += 1;
            }
            y += 1;
        }
        self.board = Some(board);
        self.dirty = true;
        self.revision = wrapping_inc(self.revision);
        Ok(())
    }
}

/// The first edit off the board in a prefix that has none before `i` and
/// whose edit `i` is off the board is `i`.
proof fn lemma_first_off_board_prefix(edits: Seq<CellEdit>, i: int, w: u32, h: u32)
    requires
        0 <= i < edits.len(),
        first_off_board(edits.take(i), w, h) is None,
        edits[i].x >= w || edits[i].y >= h,
    ensures
        first_off_board(edits, w, h) == Some(i),
    decreases edits.len(),
{
    if i < edits.len() - 1 {
        let d = edits.drop_last();
        assert(d.take(i) =~= edits.take(i));
        lemma_first_off_board_prefix(d, i, w, h);
    } else {
        assert(edits.drop_last() =~= edits.take(i));
    }
}

/// A board's cells written back from bytes: alive where the byte is not 0,
/// dead where it is 0 or missing.
pub open spec fn written_cell(bytes: Seq<u8>, w: nat, x: int, y: int) -> CellState {
    let i = y * w + x;
    if i < bytes.len() && bytes[i] != 0 {
        CellState::Alive
    } else {
        CellState::Dead
    }
}

/// Writes cell bytes back into a board.
pub fn write_cells(board: &mut InMemoryBoard, bytes: &Vec<u8>)
    requires
        old(board).spec_width() * old(board).spec_height() <= usize::MAX,
    ensures
        final(board).spec_width() == old(board).spec_width(),
        final(board).spec_height() == old(board).spec_height(),
        forall|x: int, y: int|
            in_bounds(old(board).spec_width() as int, old(board).spec_height() as int, x, y)
                ==> #[trigger] final(board).cell(x, y) == written_cell(bytes@, old(board).spec_width(), x, y),
{
    let w = board.width();
    let h = board.height();
    let mut y: usize = 0;
    while y < h
        invariant
            board.spec_width() == w,
            board.spec_height() == h,
            w * h <= usize::MAX,
            y <= h,
            forall|px: int, py: int|
                0 <= px < w && 0 <= py < y ==> #[trigger] board.cell(px, py) == written_cell(bytes@, w as nat, px, py),
        decreases h - y,
    {
        let mut x: usize = 0;
        while x < w
            invariant
                board.spec_width() == w,
                board.spec_height() == h,
                w * h <= usize::MAX,
                y < h,
                x <= w,
                forall|px: int, py: int|
                    0 <= px < w && 0 <= py < y ==> #[trigger] board.cell(px, py) == written_cell(bytes@, w as nat, px, py),
                forall|px: int| 0 <= px < x ==> #[trigger] board.cell(px, y as int) == written_cell(bytes@, w as nat, px, y as int),
            decreases w - x,
        {
            proof {
                assert(y * w + x < w * h) by (nonlinear_arith)
                    requires
                        y < h,
                        x < w,
                ;
            }
            let i = y * w + x;
            let alive = i < bytes.len() && bytes[i] != 0;
            let state = if alive {
                CellState::Alive
            } else {
                CellState::Dead
            };
            board.set(x, y, state);
            x += 1;
        }
        y += 1;
    }
}

/// The signature of a session's board and its alive count.
fn signature_of(board: &InMemoryBoard) -> (r: crate::board::BoardSignature)
    requires
        board.spec_width() * board.spec_height() + 7 <= usize::MAX,
    ensures
        r@.0 == board.spec_width(),
        r@.1 == board.spec_height(),
        r@.2 == crate::simulation::alive_in(crate::board::view::cells_of(board), board.spec_width(), board.spec_height()),
        signature_for(r@, crate::board::view::cells_of(board), board.spec_width(), board.spec_height()),
{
    let r = crate::board::BoardSignature::from_view(board);
    proof {
        let f = |x: int, y: int| board.view_cell(x, y).normal_form() == CellState::Alive;
        let g = |x: int, y: int| crate::board::view::cells_of(board)(x, y).normal_form() == CellState::Alive;
        assert(f =~= g);
    }
    r.unwrap()
}

/// The refusal of an operation for the mode the session is in.
pub open spec fn mode_refusal(e: SessionError, mode: Mode, required: Seq<char>) -> bool {
    e matches SessionError::WrongMode { current, required: req } && current == mode && req@ == required
}

/// `s` with another mode, worker generation and jump target.
pub closed spec fn updated(s: SessionState, mode: Mode, worker_generation: u64, jump_target: Option<u64>) -> SessionState {
    SessionState { mode, worker_generation, jump_target, ..s }
}

/// `s` with another save path.
pub closed spec fn with_save_path(s: SessionState, save_path: Option<String>) -> SessionState {
    SessionState { save_path, ..s }
}

/// `s` with another unsaved-changes flag.
pub closed spec fn with_dirty(s: SessionState, dirty: bool) -> SessionState {
    SessionState { dirty, ..s }
}

/// `s` after its board was saved to `path` as `saved`.
pub closed spec fn saved_as(s: SessionState, path: String, saved: Vec<u8>, dirty: bool) -> SessionState {
    SessionState { save_path: Some(path), saved_snapshot: Some(saved), dirty, ..s }
}

/// The operation was refused for the mode the session is in.
pub open spec fn refused_mode<T>(r: Result<T, SessionError>, mode: Mode, required: Seq<char>) -> bool {
    r matches Err(e) && mode_refusal(e, mode, required)
}

/// A run started afresh on board `b`: paused at generation 0, its history
/// the alive count of `b`, its collector at generation 0.
pub open spec fn run_started(s: SessionState, b: InMemoryBoard) -> bool {
    let alive = crate::simulation::alive_in(crate::board::view::cells_of(&b), b.spec_width(), b.spec_height());
    &&& s.wf()
    &&& s.spec_mode() == Mode::Paused
    &&& s.spec_board() == Some(b)
    &&& s.spec_iteration() == 0
    &&& s.history() == seq![alive as u64]
    &&& s.running_stats() matches Some(c) && c.alive_seq() == seq![alive as u64] && c.iterations() == 0
        && c.consistent()
    &&& s.spec_final_stats() is None
    &&& s.spec_jump_target() is None
}

impl SessionState {
    /// Starts a run from the setup board: it becomes the board a restart
    /// goes back to, and the session pauses at generation 0.
    pub fn start_run(&mut self) -> (r: Result<(), SessionError>)
        requires
            old(self).wf(),
        ensures
            r is Err ==> *final(self) == *old(self),
            old(self).spec_mode() != Mode::Setup ==> refused_mode(r, old(self).spec_mode(), "Setup"@),
            old(self).spec_mode() == Mode::Setup ==> match old(self).spec_board() {
                None => r matches Err(SessionError::NoBoard),
                Some(b) => {
                    &&& r is Ok
                    &&& run_started(*final(self), b)
                    &&& final(self).initial_cells() == Some(cell_bytes(b))
                    &&& final(self).spec_max_iterations() == old(self).spec_max_iterations()
                    &&& final(self).spec_dirty() == old(self).spec_dirty()
                    &&& final(self).spec_revision() == old(self).spec_revision()
                    &&& final(self).spec_worker_generation() == old(self).spec_worker_generation()
                },
            },
    {
        match self.mode {
            Mode::Setup => {},
            _ => return Err(SessionError::WrongMode { current: self.mode, required: "Setup" }),
        }
        let board = match &self.board {
            Some(b) => b,
            None => return Err(SessionError::NoBoard),
        };
        let initial_snapshot = collect_cells(board);
        let signature = signature_of(board);
        let alive = signature.alive_count();
        let mut analyzer = PatternAnalyzer::in_memory_cycle_detection();
        if alive != 0 {
            proof {
                reveal_with_fuel(analyzer_step, 2);
            }
            let _ = analyzer.observe(&PatternObservation::new(0, PatternBackend::InMemory, None, Some(&signature)));
        }
        let ghost seen: Seq<(u64, spec_fn(int, int) -> CellState)> = if alive != 0 {
            seq![(0u64, crate::board::view::cells_of(&*board))]
        } else {
            Seq::empty()
        };
        proof {
            if alive != 0 {
                assert(analyzer.detector_entries()[0] =~= seq![(signature@, 0u64)]);
            } else {
                assert(analyzer.detector_entries()[0] =~= Seq::<((usize, usize, u64, Seq<u8>), u64)>::empty());
            }
        }
        let stats = RunStatisticsCollector::starting_from(alive);
        proof {
            reveal_with_fuel(crate::stats::run_statistics::series_sum, 2);
        }
        self.initial_snapshot = Some(initial_snapshot);
        self.iteration = 0;
        self.alive_history = vec![alive];
        proof {
            assert(self.alive_history@ =~= seq![alive]);
        }
        self.stats = Some(stats);
        self.pattern_analyzer = Some(analyzer);
        self.seen_boards = Ghost(seen);
        self.final_stats = None;
        self.mode = Mode::Paused;
        self.jump_target = None;
        Ok(())
    }

    /// Goes back to the board the run started from, paused at generation 0;
    /// the board counts as unsaved unless it is the one last saved.
    pub fn restart(&mut self) -> (r: Result<(), SessionError>)
        requires
            old(self).wf(),
        ensures
            r is Err ==> *final(self) == *old(self),
            old(self).spec_mode() == Mode::Setup ==> refused_mode(r, Mode::Setup, "Running"@),
            old(self).spec_mode() != Mode::Setup ==> match (old(self).initial_cells(), old(self).spec_board()) {
                (None, _) => r matches Err(SessionError::NoInitialSnapshot),
                (Some(_), None) => r matches Err(SessionError::NoBoard),
                (Some(cells), Some(b)) => {
                    &&& r is Ok
                    &&& final(self).spec_board() matches Some(nb) && run_started(*final(self), nb)
                        && nb.spec_width() == b.spec_width() && nb.spec_height() == b.spec_height()
                        && forall|x: int, y: int|
                        in_bounds(b.spec_width() as int, b.spec_height() as int, x, y) ==> #[trigger] nb.cell(x, y)
                            == written_cell(cells, b.spec_width(), x, y)
                    &&& final(self).initial_cells() == old(self).initial_cells()
                    &&& final(self).spec_dirty() == match old(self).saved_cells() {
                        Some(saved) => saved != cells,
                        None => true,
                    }
                    &&& final(self).spec_revision() == wrap_inc(old(self).spec_revision())
                    &&& final(self).spec_worker_generation() == wrap_inc(old(self).spec_worker_generation())
                    &&& final(self).spec_max_iterations() == old(self).spec_max_iterations()
                },
            },
    {
        match self.mode {
            Mode::Setup => return Err(SessionError::WrongMode { current: self.mode, required: "Running" }),
            _ => {},
        }
        let snapshot = match &self.initial_snapshot {
            Some(s) => s.clone(),
            None => return Err(SessionError::NoInitialSnapshot),
        };
        let mut board = match self.board.take() {
            Some(b) => b,
            None => return Err(SessionError::NoBoard),
        };
        write_cells(&mut board, &snapshot);
        let signature = signature_of(&board);
        let alive = signature.alive_count();
        let mut analyzer = PatternAnalyzer::in_memory_cycle_detection();
        if alive != 0 {
            proof {
                reveal_with_fuel(analyzer_step, 2);
            }
            let _ = analyzer.observe(&PatternObservation::new(0, PatternBackend::InMemory, None, Some(&signature)));
        }
        let ghost seen: Seq<(u64, spec_fn(int, int) -> CellState)> = if alive != 0 {
            seq![(0u64, crate::board::view::cells_of(&board))]
        } else {
            Seq::empty()
        };
        proof {
            if alive != 0 {
                assert(analyzer.detector_entries()[0] =~= seq![(signature@, 0u64)]);
            } else {
                assert(analyzer.detector_entries()[0] =~= Seq::<((usize, usize, u64, Seq<u8>), u64)>::empty());
            }
        }
        let stats = RunStatisticsCollector::starting_from(alive);
        proof {
            reveal_with_fuel(crate::stats::run_statistics::series_sum, 2);
        }
        let dirty = match &self.saved_snapshot {
            Some(saved) => !bytes_equal(saved, &snapshot),
            None => true,
        };
        self.board = Some(board);
        self.iteration = 0;
        self.alive_history = vec![alive];
        proof {
            assert(self.alive_history@ =~= seq![alive]);
        }
        self.stats = Some(stats);
        self.pattern_analyzer = Some(analyzer);
        self.seen_boards = Ghost(seen);
        self.final_stats = None;
        self.mode = Mode::Paused;
        self.dirty = dirty;
        self.revision = wrapping_inc(self.revision);
        self.worker_generation = wrapping_inc(self.worker_generation);
        self.jump_target = None;
        Ok(())
    }

    /// Leaves a run for setup, keeping the current board.
    pub fn edit_board(&mut self)
        requires
            old(self).wf(),
        ensures
            final(self).wf(),
            old(self).spec_mode() == Mode::Setup ==> *final(self) == *old(self),
            old(self).spec_mode() != Mode::Setup ==> {
                &&& final(self).spec_mode() == Mode::Setup
                &&& final(self).spec_board() == old(self).spec_board()
                &&& final(self).initial_cells() is None
                &&& final(self).spec_iteration() == 0
                &&& final(self).history().len() == 0
                &&& final(self).running_stats() is None
                &&& final(self).spec_final_stats() is None
                &&& final(self).spec_worker_generation() == wrap_inc(old(self).spec_worker_generation())
                &&& final(self).spec_jump_target() is None
                &&& final(self).spec_dirty() == old(self).spec_dirty()
                &&& final(self).spec_revision() == old(self).spec_revision()
            },
    {
        match self.mode {
            Mode::Setup => return,
            _ => {},
        }
        self.mode = Mode::Setup;
        self.initial_snapshot = None;
        self.iteration = 0;
        self.alive_history = Vec::new();
        self.stats = None;
        self.pattern_analyzer = None;
        self.final_stats = None;
        self.worker_generation = wrapping_inc(self.worker_generation);
        self.jump_target = None;
    }

    /// Raises the generation cap. A run that had stopped at the old cap
    /// goes on, its statistics picked up from where they stopped.
    pub fn extend_max_iterations(&mut self, new_total: u64) -> (r: Result<(), SessionError>)
        requires
            old(self).wf(),
        ensures
            final(self).wf(),
            new_total < old(self).spec_iteration() <==> r is Err,
            r is Err ==> *final(self) == *old(self) && r == Err::<(), SessionError>(
                SessionError::InvalidMaxIterations { new_total },
            ),
            r is Ok ==> {
                &&& final(self).spec_max_iterations() == new_total
                &&& final(self).spec_mode() == old(self).spec_mode()
                &&& final(self).spec_board() == old(self).spec_board()
                &&& final(self).spec_iteration() == old(self).spec_iteration()
                &&& if old(self).spec_final_stats() matches Some(f) && f.status == RunStatus::MaxIterations
                    && new_total > old(self).spec_iteration() {
                    let f = old(self).spec_final_stats()->0;
                    &&& final(self).spec_final_stats() is None
                    &&& final(self).running_stats() is Some
                    &&& old(self).running_stats() is None ==> final(self).running_stats()->0.iterations()
                        == f.iterations_run && final(self).running_stats()->0.births() == f.total_births
                        && final(self).running_stats()->0.deaths() == f.total_deaths
                        && final(self).running_stats()->0.last_alive() == f.final_alive_count
                } else {
                    final(self).spec_final_stats() == old(self).spec_final_stats() && final(self).running_stats()
                        == old(self).running_stats()
                }
            },
    {
        if new_total < self.iteration {
            return Err(SessionError::InvalidMaxIterations { new_total });
        }
        self.max_iterations = new_total;
        let was_at_max = match &self.final_stats {
            Some(f) => match f.status {
                RunStatus::MaxIterations => true,
                _ => false,
            },
            None => false,
        };
        if was_at_max && new_total > self.iteration {
            let restored = match (&self.stats, &self.final_stats) {
                (None, Some(f)) => Some(RunStatisticsCollector::from_statistics(f)),
                _ => None,
            };
            self.final_stats = None;
            match restored {
                Some(c) => {
                    self.stats = Some(c);
                },
                None => {},
            }
        }
        Ok(())
    }

    /// Paused to playing; the new worker generation is returned.
    pub fn begin_playing(&mut self) -> (r: Result<u64, SessionError>)
        requires
            old(self).wf(),
        ensures
            final(self).wf(),
            r is Err ==> *final(self) == *old(self),
            old(self).spec_mode() != Mode::Paused ==> refused_mode(r, old(self).spec_mode(), "Paused"@),
            old(self).spec_mode() == Mode::Paused && old(self).spec_final_stats() is Some ==> r matches Err(
                SessionError::RunCompleted,
            ),
            old(self).spec_mode() == Mode::Paused && old(self).spec_final_stats() is None ==> r == Ok::<
                u64,
                SessionError,
            >(wrap_inc(old(self).spec_worker_generation())) && *final(self) == updated(
                *old(self),
                Mode::Playing,
                wrap_inc(old(self).spec_worker_generation()),
                old(self).spec_jump_target(),
            ),
    {
        match self.mode {
            Mode::Paused => {},
            _ => return Err(SessionError::WrongMode { current: self.mode, required: "Paused" }),
        }
        if self.final_stats.is_some() {
            return Err(SessionError::RunCompleted);
        }
        self.worker_generation = wrapping_inc(self.worker_generation);
        self.mode = Mode::Playing;
        Ok(self.worker_generation)
    }

    /// Paused to jumping towards generation `target`; the new worker
    /// generation is returned. A finished run can only jump back.
    pub fn begin_jumping(&mut self, target: u64) -> (r: Result<u64, SessionError>)
        requires
            old(self).wf(),
        ensures
            final(self).wf(),
            r is Err ==> *final(self) == *old(self),
            old(self).spec_mode() != Mode::Paused ==> refused_mode(r, old(self).spec_mode(), "Paused"@),
            old(self).spec_mode() == Mode::Paused && old(self).spec_final_stats() is Some && target
                > old(self).spec_iteration() ==> r matches Err(SessionError::RunCompleted),
            old(self).spec_mode() == Mode::Paused && !(old(self).spec_final_stats() is Some && target
                > old(self).spec_iteration()) ==> r == Ok::<u64, SessionError>(
                wrap_inc(old(self).spec_worker_generation()),
            ) && *final(self) == updated(
                *old(self),
                Mode::JumpingTo,
                wrap_inc(old(self).spec_worker_generation()),
                Some(target),
            ),
    {
        match self.mode {
            Mode::Paused => {},
            _ => return Err(SessionError::WrongMode { current: self.mode, required: "Paused" }),
        }
        if self.final_stats.is_some() && target > self.iteration {
            return Err(SessionError::RunCompleted);
        }
        self.worker_generation = wrapping_inc(self.worker_generation);
        self.mode = Mode::JumpingTo;
        self.jump_target = Some(target);
        Ok(self.worker_generation)
    }

    /// A worker of generation `worker_generation` has finished: if it is the
    /// current one, the jump target is dropped and a running session pauses.
    pub fn finish_worker(&mut self, worker_generation: u64)
        requires
            old(self).wf(),
        ensures
            final(self).wf(),
            worker_generation != old(self).spec_worker_generation() ==> *final(self) == *old(self),
            worker_generation == old(self).spec_worker_generation() ==> *final(self) == updated(
                *old(self),
                if old(self).spec_mode() == Mode::Setup {
                    Mode::Setup
                } else {
                    Mode::Paused
                },
                old(self).spec_worker_generation(),
                None,
            ),
    {
        if self.worker_generation != worker_generation {
            return;
        }
        self.jump_target = None;
        match self.mode {
            Mode::Setup => {},
            _ => {
                self.mode = Mode::Paused;
            },
        }
    }

    /// Whether `worker_generation` is the session's current worker.
    pub fn worker_is_current(&self, worker_generation: u64) -> (r: bool)
        ensures
            r == (worker_generation == self.spec_worker_generation()),
    {
        self.worker_generation == worker_generation
    }

    pub fn set_mode(&mut self, mode: Mode)
        requires
            old(self).wf(),
        ensures
            final(self).wf(),
            *final(self) == updated(*old(self), mode, old(self).spec_worker_generation(), old(self).spec_jump_target()),
    {
        self.mode = mode;
    }

    pub fn set_jump_target(&mut self, target: Option<u64>)
        requires
            old(self).wf(),
        ensures
            final(self).wf(),
            *final(self) == updated(*old(self), old(self).spec_mode(), old(self).spec_worker_generation(), target),
    {
        self.jump_target = target;
    }

    pub fn set_save_path(&mut self, path: Option<String>)
        requires
            old(self).wf(),
        ensures
            final(self).wf(),
            *final(self) == with_save_path(*old(self), path),
    {
        self.save_path = path;
    }

    pub fn mark_dirty(&mut self, dirty: bool)
        requires
            old(self).wf(),
        ensures
            final(self).wf(),
            *final(self) == with_dirty(*old(self), dirty),
    {
        self.dirty = dirty;
    }

    /// The board to save, with the revision it was taken at.
    pub fn board_to_save(&self) -> (r: Result<(InMemoryBoard, u64), SessionError>)
        ensures
            match self.spec_board() {
                Some(b) => r matches Ok((c, rev)) && c.same_cells(&b) && rev == self.spec_revision(),
                None => r matches Err(SessionError::NoBoard),
            },
    {
        match &self.board {
            Some(b) => Ok((b.clone(), self.revision)),
            None => Err(SessionError::NoBoard),
        }
    }

    /// Records that the board taken at `revision` was saved to `path` with
    /// the cells `saved`: the board is clean unless it changed since.
    pub fn record_saved(&mut self, path: String, saved: Vec<u8>, revision: u64)
        requires
            old(self).wf(),
        ensures
            final(self).wf(),
            *final(self) == saved_as(
                *old(self),
                path,
                saved,
                if revision == old(self).spec_revision() {
                    false
                } else {
                    old(self).spec_dirty()
                },
            ),
    {
        self.save_path = Some(path);
        self.saved_snapshot = Some(saved);
        if self.revision == revision {
            self.dirty = false;
        }
    }

    /// Puts a loaded board into setup mode, with `save_path` as where it came
    /// from and `max_iterations` as the cap (else the current cap, or 100 if
    /// there is none). A board too large for the desktop is refused.
    pub fn load_board_into_setup(
        &mut self,
        board: InMemoryBoard,
        save_path: Option<String>,
        max_iterations: Option<u64>,
    ) -> (r: Result<(), SessionError>)
        requires
            old(self).wf(),
        ensures
            r is Ok <==> board_fits_desktop(board),
            r is Err ==> *final(self) == *old(self),
            r is Err ==> (r matches Err(SessionError::LoadBoardSnapshot(m)) && m@ == desktop_limit_text(board)),
            r is Ok ==> loaded_into_setup(
                *final(self),
                *old(self),
                board,
                match save_path {
                    Some(p) => Some(p@),
                    None => None,
                },
                max_iterations,
            ),
    {
        let w = board.width();
        let h = board.height();
        if w > u32::MAX as usize {
            let mut m = String::new();
            crate::text::push_str(&mut m, "Loaded board width ");
            crate::config::messages::push_decimal(&mut m, w as u64);
            crate::text::push_str(&mut m, " exceeds desktop limits.");
            return Err(SessionError::LoadBoardSnapshot(m));
        }
        if h > u32::MAX as usize {
            let mut m = String::new();
            crate::text::push_str(&mut m, "Loaded board height ");
            crate::config::messages::push_decimal(&mut m, h as u64);
            crate::text::push_str(&mut m, " exceeds desktop limits.");
            return Err(SessionError::LoadBoardSnapshot(m));
        }
        if w > 0 && h > (usize::MAX / 2) / w {
            proof {
                assert(w * h > usize::MAX / 2) by (nonlinear_arith)
                    requires
                        w > 0,
                        h > (usize::MAX / 2) / w,
                ;
            }
            let mut m = String::new();
            crate::text::push_str(&mut m, "Loaded board of ");
            crate::config::messages::push_decimal(&mut m, w as u64);
            crate::text::push_str(&mut m, "x");
            crate::config::messages::push_decimal(&mut m, h as u64);
            crate::text::push_str(&mut m, " cells exceeds desktop limits.");
            return Err(SessionError::LoadBoardSnapshot(m));
        }
        proof {
            if w > 0 {
                assert(w * h <= usize::MAX / 2) by (nonlinear_arith)
                    requires
                        w > 0,
                        h <= (usize::MAX / 2) / w,
                ;
            }
        }
        let saved = collect_cells(&board);
        let cap = match max_iterations {
            Some(m) => m,
            None => if self.max_iterations == 0 {
                DEFAULT_MAX_ITERATIONS
            } else {
                self.max_iterations
            },
        };
        self.mode = Mode::Setup;
        self.width = w as u32;
        self.height = h as u32;
        self.board = Some(board);
        self.initial_snapshot = None;
        self.iteration = 0;
        self.max_iterations = cap;
        self.alive_history = Vec::new();
        self.stats = None;
        self.pattern_analyzer = None;
        self.final_stats = None;
        self.save_path = save_path;
        self.saved_snapshot = Some(saved);
        self.dirty = false;
        self.revision = wrapping_inc(self.revision);
        self.worker_generation = wrapping_inc(self.worker_generation);
        self.jump_target = None;
        Ok(())
    }

    /// Settles a request to open a board snapshot, given what reading the
    /// file gave. A file that turns out to be a run record is left for the
    /// caller to open as one (its initial board); any other read error is
    /// refused with the message the desktop shows for it, and a snapshot is
    /// loaded with `path` as where it came from.
    pub fn load_board_snapshot(
        &mut self,
        read: Result<BoardSnapshot, BoardSnapshotReadError>,
        path: String,
    ) -> (r: Result<SnapshotLoad, SessionError>)
        requires
            old(self).wf(),
        ensures
            r is Err ==> *final(self) == *old(self),
            r matches Ok(SnapshotLoad::RunRecord) ==> *final(self) == *old(self),
            match read {
                Err(BoardSnapshotReadError::UnexpectedFileKind { actual: FileKind::RunRecord, .. }) => r
                    == Ok::<SnapshotLoad, SessionError>(SnapshotLoad::RunRecord),
                Err(e) => r matches Err(SessionError::LoadBoardSnapshot(m)) && m@ == load_snapshot_error_text(e),
                Ok(snapshot) => {
                    &&& r is Ok <==> board_fits_desktop(snapshot.board)
                    &&& r is Ok ==> r == Ok::<SnapshotLoad, SessionError>(SnapshotLoad::Loaded)
                        && loaded_into_setup(*final(self), *old(self), snapshot.board, Some(path@), None)
                    &&& r is Err ==> (r matches Err(SessionError::LoadBoardSnapshot(m)) && m@
                        == desktop_limit_text(snapshot.board))
                },
            },
    {
        match read {
            Ok(snapshot) => {
                match self.load_board_into_setup(snapshot.board, Some(path), None) {
                    Ok(()) => Ok(SnapshotLoad::Loaded),
                    Err(e) => Err(e),
                }
            },
            Err(e) => {
                if let BoardSnapshotReadError::UnexpectedFileKind { actual: FileKind::RunRecord, .. } = e {
                    return Ok(SnapshotLoad::RunRecord);
                }
                Err(SessionError::LoadBoardSnapshot(load_snapshot_error_message(&e)))
            },
        }
    }

    /// Loads the selected board of a run record into setup mode, given what
    /// reading the record gave; the record's iteration cap becomes the cap.
    /// A read error is refused with the message the desktop shows for it.
    pub fn load_run_board(
        &mut self,
        loaded: Result<LoadedRunRecord, RunRecordReadError>,
        selection: RunBoardSelection,
    ) -> (r: Result<(), SessionError>)
        requires
            old(self).wf(),
        ensures
            r is Err ==> *final(self) == *old(self),
            match loaded {
                Err(e) => r matches Err(SessionError::LoadRunRecord(m)) && m@ == load_run_error_text(e),
                Ok(l) => {
                    let board = match selection {
                        RunBoardSelection::Initial => l.record.initial_board,
                        RunBoardSelection::Final => l.record.final_board,
                    };
                    &&& r is Ok <==> board_fits_desktop(board)
                    &&& r is Ok ==> loaded_into_setup(
                        *final(self),
                        *old(self),
                        board,
                        None,
                        Some(l.record.config.max_iterations as u64),
                    )
                    &&& r is Err ==> (r matches Err(SessionError::LoadBoardSnapshot(m)) && m@
                        == desktop_limit_text(board))
                },
            },
    {
        match loaded {
            Err(e) => Err(SessionError::LoadRunRecord(load_run_error_message(&e))),
            Ok(l) => {
                let max_iterations = l.record.config.max_iterations as u64;
                let board = match selection {
                    RunBoardSelection::Initial => l.record.initial_board,
                    RunBoardSelection::Final => l.record.final_board,
                };
                self.load_board_into_setup(board, None, Some(max_iterations))
            },
        }
    }

    /// The board as the front end receives it.
    pub fn board_payload(&self) -> (r: BoardPayload)
        requires
            self.wf(),
        ensures
            r.width == self.spec_width(),
            r.height == self.spec_height(),
            r.iteration == self.spec_iteration(),
            crate::desktop::ipc_types::base64_standard_decoding(r.cells_base64@) == Some(
                match self.spec_board() {
                    Some(b) => cell_bytes(b),
                    None => Seq::<u8>::empty(),
                },
            ),
    {
        let cells = match &self.board {
            Some(b) => collect_cells(b),
            None => Vec::new(),
        };
        proof {
            if self.board is Some {
                let b = self.board->0;
                lemma_cell_rows_len(b, b.spec_height());
                assert(cells@.len() == (b.spec_height() as int) * (b.spec_width() as int));
                assert((b.spec_height() as int) * (b.spec_width() as int) == b.spec_width() * b.spec_height()) by (nonlinear_arith);
            }
        }
        BoardPayload::from_bytes(self.width, self.height, self.iteration, cells.as_slice())
    }

    /// The board for the worker of generation `worker_generation`, if it is
    /// still the current one.
    pub fn board_payload_for_worker(&self, worker_generation: u64) -> (r: Option<BoardPayload>)
        requires
            self.wf(),
        ensures
            r is Some <==> worker_generation == self.spec_worker_generation(),
            r matches Some(p) ==> p.width == self.spec_width() && p.height == self.spec_height() && p.iteration
                == self.spec_iteration(),
    {
        if self.worker_generation != worker_generation {
            return None;
        }
        Some(self.board_payload())
    }
}

proof fn lemma_cell_rows_len(b: InMemoryBoard, n: nat)
    ensures
        cell_rows(b, n).len() == (n as int) * (b.spec_width() as int),
    decreases n,
{
    if n > 0 {
        lemma_cell_rows_len(b, (n - 1) as nat);
        let w = b.spec_width() as int;
        let m = n as int;
        let prev = cell_rows(b, (n - 1) as nat);
        let row = Seq::new(b.spec_width(), |x: int| ipc_byte(b.cell(x, n - 1)));
        assert(cell_rows(b, n) == prev + row);
        assert(cell_rows(b, n).len() == prev.len() + w);
        assert(prev.len() == (m - 1) * w);
        assert(m * w == (m - 1) * w + w) by (nonlinear_arith);
    } else {
        assert((n as int) * (b.spec_width() as int) == 0) by (nonlinear_arith)
            requires
                n == 0,
        ;
    }
}

/// The status a run is finalized with after a generation that changed
/// nothing: extinct if nothing is alive, else stable.
pub open spec fn still_status(outcome: AdvanceOutcome) -> RunStatus {
    if outcome.alive_count == 0 {
        RunStatus::Extinct
    } else {
        RunStatus::Stable
    }
}

impl SessionState {
    /// Advances the board by one generation (for the worker of generation
    /// `worker_generation`, if one is given). A generation that changes
    /// nothing confirms the board was stable: the run is finalized without
    /// counting it. Otherwise the generation is counted and the run is
    /// finalized when the board dies out, repeats, or reaches the cap.
    #[verifier::spinoff_prover]
    #[verifier::rlimit(100)]
    pub fn advance_one(&mut self, worker_generation: Option<u64>) -> (r: Result<AdvanceTick, SessionError>)
        requires
            old(self).wf(),
            old(self).spec_iteration() < u64::MAX,
            old(self).running_stats() matches Some(c) ==> (old(self).spec_board() matches Some(b) ==> totals_fit_next(c, b)),
        ensures
            final(self).wf(),
            r is Err ==> *final(self) == *old(self),
            worker_generation matches Some(g) && g != old(self).spec_worker_generation() ==> r matches Err(
                SessionError::WorkerStopped,
            ),
            !(worker_generation matches Some(g) && g != old(self).spec_worker_generation()) ==> {
                if old(self).spec_final_stats() is Some {
                    r matches Err(SessionError::RunCompleted)
                } else {
                    match old(self).spec_board() {
                        None => r matches Err(SessionError::NoBoard),
                        Some(b) => r matches Ok(tick) && advanced_session(*old(self), *final(self), b, tick),
                    }
                }
            },
    {
        match worker_generation {
            Some(g) => {
                if self.worker_generation != g {
                    return Err(SessionError::WorkerStopped);
                }
            },
            None => {},
        }
        if self.final_stats.is_some() {
            return Err(SessionError::RunCompleted);
        }
        let mut board = match self.board.take() {
            Some(b) => b,
            None => return Err(SessionError::NoBoard),
        };
        let ghost prev = board;
        let ghost old_state = *old(self);
        let rule = crate::algorithms::in_place_transitional_updater::InPlaceTransitionalUpdater;
        proof {
            assert(board.spec_width() * board.spec_height() <= u64::MAX) by (nonlinear_arith)
                requires
                    board.spec_width() * board.spec_height() <= usize::MAX / 2,
            ;
        }
        let outcome = crate::board::editor::BoardEditor::advance_with_rule(&mut board, &rule).unwrap();
        let signature = signature_of(&board);
        self.board = Some(board);
        let total_cells = (self.width as u64) * (self.height as u64);
        let terminal = terminal_status_for_outcome(outcome);
        if outcome.is_stable() {
            let tick = AdvanceTick::from_outcome(self.iteration, total_cells, outcome);
            let status = match terminal {
                Some(s) => s,
                None => RunStatus::Stable,
            };
            match self.stats.take() {
                Some(c) => {
                    let f = c.finalize(status);
                    self.final_stats = Some(f);
                },
                None => {},
            }
            self.mode = Mode::Paused;
            proof {
                assert(crate::board::editor::advanced(&prev, &self.board->0, &rule, outcome));
                assert(advanced_session(old_state, *self, prev, tick));
            }
            return Ok(tick);
        }
        self.dirty = true;
        self.revision = wrapping_inc(self.revision);
        self.iteration = self.iteration + 1;
        let area: Ghost<int> = Ghost(self.width * self.height);
        match self.stats.take() {
            Some(mut c) => {
                proof {
                    crate::board::grid::lemma_grid_count_bound(
                        crate::board::grid::births_of(crate::board::view::cells_of(&prev), prev.spec_width() as int, prev.spec_height() as int, &rule),
                        prev.spec_width(),
                        prev.spec_height(),
                    );
                    crate::board::grid::lemma_grid_count_bound(
                        crate::board::grid::deaths_of(crate::board::view::cells_of(&prev), prev.spec_width() as int, prev.spec_height() as int, &rule),
                        prev.spec_width(),
                        prev.spec_height(),
                    );
                    assert(totals_fit_next(c, prev));
                    let k = self.iteration - 1;
                    assert((k + 1) * area@ == k * area@ + area@) by (nonlinear_arith);
                }
                c.record(outcome);
                self.stats = Some(c);
            },
            None => {},
        }
        self.push_history(outcome.alive_count);
        let tick = AdvanceTick::from_outcome(self.iteration, total_cells, outcome);
        let mut cycle: Option<CycleStatistics> = None;
        if terminal.is_none() {
            match self.pattern_analyzer.take() {
                Some(mut analyzer) => {
                    let observation = PatternObservation::new(
                        self.iteration,
                        PatternBackend::InMemory,
                        Some(outcome),
                        Some(&signature),
                    );
                    let ghost entries = analyzer.detector_entries()[0];
                    let ghost now = crate::board::view::cells_of(&self.board->0);
                    proof {
                        lemma_first_seen_below(entries, signature@, self.iteration as int);
                        reveal_with_fuel(analyzer_step, 2);
                    }
                    let found = analyzer.observe(&observation);
                    proof {
                        if first_seen(entries, signature@) is None {
                            lemma_seen_new(entries, self.seen_boards@, signature@, self.iteration, now, self.width as nat, self.height as nat);
                        } else {
                            lemma_seen_repeat(entries, self.seen_boards@, signature@, now, self.width as nat, self.height as nat);
                        }
                    }
                    if found.is_none() {
                        self.seen_boards = Ghost(self.seen_boards@.push((self.iteration, now)));
                    }
                    match found {
                        Some(m) => {
                            let c = m.cycle_pattern();
                            cycle = Some(
                                CycleStatistics {
                                    start_generation: c.start_generation,
                                    detected_generation: c.detected_generation,
                                    period: c.period,
                                },
                            );
                        },
                        None => {},
                    }
                    self.pattern_analyzer = Some(analyzer);
                },
                None => {},
            }
        }
        let hit_cap = self.iteration >= self.max_iterations;
        if terminal.is_some() || cycle.is_some() || hit_cap {
            let status = match terminal {
                Some(s) => s,
                None => if cycle.is_some() {
                    RunStatus::Cyclic
                } else {
                    RunStatus::MaxIterations
                },
            };
            match self.stats.take() {
                Some(c) => {
                    self.final_stats = Some(c.finalize_with_cycle(status, cycle));
                },
                None => {},
            }
            self.mode = Mode::Paused;
        }
        proof {
            let n = (old_state.spec_iteration() + 1) as u64;
            assert(crate::board::editor::advanced(&prev, &self.board->0, &rule, outcome));
            assert(tick.iteration == n);
            assert(self.spec_iteration() == n);
            assert(self.history() == pushed_history(old_state.history(), outcome.alive_count));
            assert(self.spec_dirty());
            assert(self.spec_revision() == wrap_inc(old_state.spec_revision()));
            if old_state.running_stats() is Some {
                assert(outcome.alive_count == 0 ==> (self.spec_final_stats() matches Some(f) && f.status
                        == RunStatus::Extinct && f.iterations_run == n && f.final_alive_count == 0));
                if self.spec_final_stats() is Some {
                    let f = self.spec_final_stats()->0;
                    assert(self.spec_mode() == Mode::Paused);
                    assert(self.running_stats() is None);
                    assert(f.iterations_run == n);
                    assert(f.final_alive_count == outcome.alive_count);
                    assert(f.status == RunStatus::Extinct <==> outcome.alive_count == 0);
                    assert(f.status == RunStatus::MaxIterations ==> n >= old_state.spec_max_iterations());
                    assert(f.status == RunStatus::Cyclic <==> f.cycle is Some);
                    assert(f.cycle matches Some(c) ==> c.detected_generation == n && c.start_generation < n
                            && c.period == n - c.start_generation);
                } else {
                    assert(self.spec_mode() == old_state.spec_mode());
                    assert(outcome.alive_count > 0);
                    assert(n < old_state.spec_max_iterations());
                    assert(self.running_stats() matches Some(c) && c.iterations() == n && c.last_alive() == outcome.alive_count);
                }
            } else {
                assert(self.spec_final_stats() is None);
                assert(self.running_stats() is None);
                assert(self.spec_mode() == if outcome.alive_count == 0 || n >= old_state.spec_max_iterations() {
                    Mode::Paused
                } else {
                    old_state.spec_mode()
                });
            }
            assert(self.spec_board() is Some);
            assert(total_cells == old_state.spec_width() * old_state.spec_height());
            assert(tick.dead == if old_state.spec_width() * old_state.spec_height() >= outcome.alive_count {
                (old_state.spec_width() * old_state.spec_height() - outcome.alive_count) as u64
            } else {
                0
            });
            assert(!outcome.no_change());
            assert(advanced_session(old_state, *self, prev, tick));
        }
        Ok(tick)
    }

    fn push_history(&mut self, alive: u64)
        ensures
            same_but_history(*old(self), *final(self)),
            final(self).history() == pushed_history(old(self).history(), alive),
    {
        self.alive_history.push(alive);
        if self.alive_history.len() > HISTORY_CAP {
            let mut kept: Vec<u64> = Vec::new();
            let mut i: usize = 0;
            while i < self.alive_history.len()
                invariant
                    i <= self.alive_history@.len(),
                    kept@.len() == (i + 1) / 2,
                    forall|j: int| 0 <= j < kept@.len() ==> #[trigger] kept@[j] == self.alive_history@[2 * j],
                decreases self.alive_history@.len() - i,
            {
                if i % 2 == 0 {
                    kept.push(self.alive_history[i]);
                }
                i += 1;
            }
            let ghost p = self.alive_history@;
            proof {
                assert(kept@ =~= Seq::new(((p.len() + 1) / 2) as nat, |j: int| p[2 * j]));
            }
            self.alive_history = kept;
        }
    }
}

/// `b` is `a` but for its alive-count history.
pub closed spec fn same_but_history(a: SessionState, b: SessionState) -> bool {
    (SessionState { alive_history: b.alive_history, ..a }) == b
}

/// What one counted or confirming advance did to a session holding board
/// `b`, reporting `tick`.
pub open spec fn advanced_session(old: SessionState, new: SessionState, b: InMemoryBoard, tick: AdvanceTick) -> bool {
    let w = old.spec_width();
    let h = old.spec_height();
    exists|outcome: AdvanceOutcome|
        #![trigger crate::board::editor::advanced(&b, &new.spec_board()->0, &crate::algorithms::in_place_transitional_updater::InPlaceTransitionalUpdater, outcome)]
        {
        &&& new.spec_board() is Some
        &&& crate::board::editor::advanced(
            &b,
            &new.spec_board()->0,
            &crate::algorithms::in_place_transitional_updater::InPlaceTransitionalUpdater,
            outcome,
        )
        &&& tick.alive == outcome.alive_count
        &&& tick.births == outcome.births
        &&& tick.deaths == outcome.deaths
        &&& tick.dead == if w * h >= outcome.alive_count {
            (w * h - outcome.alive_count) as u64
        } else {
            0
        }
        &&& if outcome.no_change() {
            &&& tick.iteration == old.spec_iteration()
            &&& new.spec_iteration() == old.spec_iteration()
            &&& new.history() == old.history()
            &&& new.spec_mode() == Mode::Paused
            &&& new.running_stats() is None
            &&& new.spec_dirty() == old.spec_dirty()
            &&& new.spec_revision() == old.spec_revision()
            &&& match old.running_stats() {
                Some(c) => new.spec_final_stats() matches Some(f) && crate::stats::run_statistics::summary_of(
                    f,
                    &c,
                    still_status(outcome),
                    None,
                ),
                None => new.spec_final_stats() is None,
            }
        } else {
            let n = (old.spec_iteration() + 1) as u64;
            &&& tick.iteration == n
            &&& new.spec_iteration() == n
            &&& new.history() == pushed_history(old.history(), outcome.alive_count)
            &&& new.spec_dirty()
            &&& new.spec_revision() == wrap_inc(old.spec_revision())
            &&& match old.running_stats() {
                Some(_) => {
                    &&& outcome.alive_count == 0 ==> (new.spec_final_stats() matches Some(f) && f.status
                        == RunStatus::Extinct && f.iterations_run == n && f.final_alive_count == 0)
                    &&& new.spec_final_stats() matches Some(f) ==> {
                        &&& new.spec_mode() == Mode::Paused
                        &&& new.running_stats() is None
                        &&& f.iterations_run == n
                        &&& f.final_alive_count == outcome.alive_count
                        &&& (f.status == RunStatus::Extinct <==> outcome.alive_count == 0)
                        &&& f.status == RunStatus::MaxIterations ==> n >= old.spec_max_iterations()
                        &&& (f.status == RunStatus::Cyclic <==> f.cycle is Some)
                        &&& f.cycle matches Some(c) ==> c.detected_generation == n && c.start_generation < n
                            && c.period == n - c.start_generation
                    }
                    &&& outcome.alive_count > 0 ==> if new.spec_final_stats() matches Some(f) && f.cycle is Some {
                        &&& new.seen_boards() == old.seen_boards()
                        &&& repeats_seen(
                            old.seen_boards(),
                            new.spec_final_stats()->0.cycle->0.start_generation,
                            crate::board::view::cells_of(&new.spec_board()->0),
                            w as nat,
                            h as nat,
                        )
                    } else {
                        new.seen_boards() == old.seen_boards().push((n, crate::board::view::cells_of(&new.spec_board()->0)))
                    }
                    &&& new.spec_final_stats() is None ==> {
                        &&& new.spec_mode() == old.spec_mode()
                        &&& outcome.alive_count > 0
                        &&& n < old.spec_max_iterations()
                        &&& new.running_stats() matches Some(c) && c.iterations() == n && c.last_alive()
                            == outcome.alive_count
                    }
                },
                None => new.spec_final_stats() is None && new.running_stats() is None && (new.spec_mode()
                    == if outcome.alive_count == 0 || n >= old.spec_max_iterations() {
                    Mode::Paused
                } else {
                    old.spec_mode()
                }),
            }
        }
    }
}

/// The run's birth and death totals still fit in 64 bits once the next
/// generation of `b` is added.
pub open spec fn totals_fit_next(c: RunStatisticsCollector, b: InMemoryBoard) -> bool {
    let g = crate::board::view::cells_of(&b);
    let w = b.spec_width();
    let h = b.spec_height();
    let rule = crate::algorithms::in_place_transitional_updater::InPlaceTransitionalUpdater;
    &&& c.births() + crate::board::grid::grid_count(crate::board::grid::births_of(g, w as int, h as int, &rule), w, h) <= u64::MAX
    &&& c.deaths() + crate::board::grid::grid_count(crate::board::grid::deaths_of(g, w as int, h as int, &rule), w, h) <= u64::MAX
}

proof fn lemma_first_seen_below(entries: SeenEntries, key: (usize, usize, u64, Seq<u8>), bound: int)
    requires
        forall|j: int| 0 <= j < entries.len() ==> #[trigger] entries[j].1 < bound,
    ensures
        first_seen(entries, key) matches Some(g) ==> g < bound,
    decreases entries.len(),
{
    if entries.len() > 0 {
        let rest = entries.drop_first();
        assert forall|j: int| 0 <= j < rest.len() implies #[trigger] rest[j].1 < bound by {
            assert(rest[j] == entries[j + 1]);
        }
        lemma_first_seen_below(rest, key, bound);
    }
}

} // verus!
