//! Detection of patterns across generations: a cycle is found when a board
//! signature seen at an earlier generation comes back.
use vstd::prelude::*;

use crate::board::BoardSignature;
use crate::stats::AdvanceOutcome;

verus! {

#[derive(Debug, Clone, Copy, PartialEq, Eq, Structural)]
pub enum PatternBackend {
    InMemory,
    Streaming,
}

#[derive(Debug, Clone, Copy, PartialEq, Eq, Structural)]
pub enum PatternKind {
    Cycle,
}

#[derive(Debug, Clone, Copy, PartialEq, Eq, Structural)]
pub struct PatternSpan {
    pub start_generation: u64,
    pub end_generation: u64,
}

#[derive(Debug, Clone, Copy, PartialEq, Eq, Structural)]
pub struct CyclePattern {
    pub start_generation: u64,
    pub detected_generation: u64,
    pub period: u64,
}

#[derive(Debug, Clone, Copy, PartialEq, Eq, Structural)]
pub enum PatternMatchDetails {
    Cycle(CyclePattern),
}

#[derive(Debug, Clone, Copy, PartialEq, Eq, Structural)]
pub struct PatternMatch {
    pub kind: PatternKind,
    pub detected_generation: u64,
    pub span: Option<PatternSpan>,
    pub terminal: bool,
    pub details: PatternMatchDetails,
}

/// The terminal match that reports `cycle`.
pub open spec fn cycle_match(cycle: CyclePattern) -> PatternMatch {
    PatternMatch {
        kind: PatternKind::Cycle,
        detected_generation: cycle.detected_generation,
        span: Some(
            PatternSpan {
                start_generation: cycle.start_generation,
                end_generation: cycle.detected_generation,
            },
        ),
        terminal: true,
        details: PatternMatchDetails::Cycle(cycle),
    }
}

impl PatternMatch {
    pub fn cycle(cycle: CyclePattern) -> (r: Self)
        ensures
            r == cycle_match(cycle),
    {
        Self {
            kind: PatternKind::Cycle,
            detected_generation: cycle.detected_generation,
            span: Some(
                PatternSpan {
                    start_generation: cycle.start_generation,
                    end_generation: cycle.detected_generation,
                },
            ),
            terminal: true,
            details: PatternMatchDetails::Cycle(cycle),
        }
    }

    pub fn cycle_pattern(self) -> (r: CyclePattern)
        ensures
            self.details == PatternMatchDetails::Cycle(r),
    {
        match self.details {
            PatternMatchDetails::Cycle(cycle) => cycle,
        }
    }
}

/// What a detector is shown after a generation.
#[derive(Debug, Clone, Copy)]
pub struct PatternObservation<'a> {
    pub generation: u64,
    pub backend: PatternBackend,
    pub outcome: Option<AdvanceOutcome>,
    pub signature: Option<&'a BoardSignature>,
}

impl<'a> PatternObservation<'a> {
    pub fn new(
        generation: u64,
        backend: PatternBackend,
        outcome: Option<AdvanceOutcome>,
        signature: Option<&'a BoardSignature>,
    ) -> (r: Self)
        ensures
            r.generation == generation,
            r.backend == backend,
            r.outcome == outcome,
            r.signature == signature,
    {
        Self { generation, backend, outcome, signature }
    }
}

/// Something that watches generations go by and may report a pattern.
pub trait PatternDetector: Send {
    /// Whether the detector can take `observation` in its current state.
    spec fn accepts(&self, observation: PatternObservation) -> bool;

    fn observe(&mut self, observation: &PatternObservation<'_>) -> Option<PatternMatch>
        requires
            old(self).accepts(*observation),
    ;
}

/// The signatures a cycle detector has seen, each with the generation it
/// was first seen at.
pub type SeenEntries = Seq<((usize, usize, u64, Seq<u8>), u64)>;

/// The generation at which `key` was first seen.
pub open spec fn first_seen(entries: SeenEntries, key: (usize, usize, u64, Seq<u8>)) -> Option<u64>
    decreases entries.len(),
{
    if entries.len() == 0 {
        None
    } else if entries[0].0 == key {
        Some(entries[0].1)
    } else {
        first_seen(entries.drop_first(), key)
    }
}

/// Whether the detector would need the generation to go back in time: a
/// signature seen later than the observation.
pub open spec fn observation_ok(entries: SeenEntries, o: PatternObservation) -> bool {
    o.backend == PatternBackend::InMemory && o.signature is Some ==> match first_seen(
        entries,
        o.signature->0@,
    ) {
        Some(g) => g <= o.generation,
        None => true,
    }
}

/// What a cycle detector reports for observation `o`, and the entries it
/// keeps afterwards.
pub open spec fn cycle_step(entries: SeenEntries, o: PatternObservation) -> (Option<PatternMatch>, SeenEntries) {
    if o.backend != PatternBackend::InMemory || o.signature is None {
        (None, entries)
    } else {
        let key = o.signature->0@;
        match first_seen(entries, key) {
            Some(g) => (
                Some(
                    cycle_match(
                        CyclePattern {
                            start_generation: g,
                            detected_generation: o.generation,
                            period: (o.generation - g) as u64,
                        },
                    ),
                ),
                entries,
            ),
            None => (None, entries.push((key, o.generation))),
        }
    }
}

/// Detects a cycle the first time a signature comes back (in-memory boards
/// only).
#[derive(Debug)]
pub struct CycleDetector {
    seen: Vec<(BoardSignature, u64)>,
}

impl CycleDetector {
    pub closed spec fn entries(&self) -> SeenEntries {
        self.seen@.map_values(|e: (BoardSignature, u64)| (e.0@, e.1))
    }

    /// A detector that has seen nothing.
    pub fn new() -> (r: Self)
        ensures
            r.entries() == Seq::<((usize, usize, u64, Seq<u8>), u64)>::empty(),
    {
        let r = CycleDetector { seen: Vec::new() };
        proof {
            assert(r.entries() =~= Seq::<((usize, usize, u64, Seq<u8>), u64)>::empty());
        }
        r
    }

    fn find(&self, signature: &BoardSignature) -> (r: Option<u64>)
        ensures
            r == first_seen(self.entries(), signature@),
    {
        let ghost es = self.entries();
        let mut i: usize = 0;
        proof {
            assert(es.skip(0) =~= es);
        }
        while i < self.seen.len()
            invariant
                i <= self.seen@.len(),
                es == self.entries(),
                es.len() == self.seen@.len(),
                first_seen(es, signature@) == first_seen(es.skip(i as int), signature@),
            decreases self.seen@.len() - i,
        {
            proof {
                assert(es.skip(i as int)[0] == es[i as int]);
                assert(es.skip(i as int).drop_first() =~= es.skip(i + 1));
            }
            if self.seen[i].0.same_as(signature) {
                return Some(self.seen[i].1);
            }
            i += 1;
        }
        None
    }

}

impl Default for CycleDetector {
    fn default() -> (r: Self)
        ensures
            r.entries() == Seq::<((usize, usize, u64, Seq<u8>), u64)>::empty(),
    {
        CycleDetector::new()
    }
}

impl PatternDetector for CycleDetector {
    open spec fn accepts(&self, observation: PatternObservation) -> bool {
        observation_ok(self.entries(), observation)
    }

    /// Reports a cycle when the observed signature was seen before, and
    /// otherwise remembers it.
    fn observe(&mut self, observation: &PatternObservation<'_>) -> (r: Option<PatternMatch>)
        ensures
            (r, final(self).entries()) == cycle_step(old(self).entries(), *observation),
    {
        if observation.backend != PatternBackend::InMemory {
            return None;
        }
        let signature = match observation.signature {
            Some(s) => s,
            None => {
                return None;
            },
        };
        match self.find(signature) {
            Some(first_seen_generation) => {
                let cycle = CyclePattern {
                    start_generation: first_seen_generation,
                    detected_generation: observation.generation,
                    period: observation.generation - first_seen_generation,
                };
                Some(PatternMatch::cycle(cycle))
            },
            None => {
                let ghost es = self.entries();
                self.seen.push((signature.duplicate(), observation.generation));
                proof {
                    assert(self.entries() =~= es.push((signature@, observation.generation)));
                }
                None
            },
        }
    }
}

/// Runs each detector in turn and reports the first terminal match.
pub struct PatternAnalyzer {
    detectors: Vec<CycleDetector>,
}

/// The detectors' entries after observing `o` with detectors `k..` still to
/// run, and the match reported.
pub open spec fn analyzer_step(ds: Seq<SeenEntries>, o: PatternObservation, k: nat) -> (Option<PatternMatch>, Seq<SeenEntries>)
    decreases ds.len() - k,
{
    if k >= ds.len() {
        (None, ds)
    } else {
        let (m, e) = cycle_step(ds[k as int], o);
        let ds1 = ds.update(k as int, e);
        match m {
            Some(pm) => if pm.terminal {
                (Some(pm), ds1)
            } else {
                analyzer_step(ds1, o, k + 1)
            },
            None => analyzer_step(ds1, o, k + 1),
        }
    }
}

/// An analyzer with one cycle detector that has seen `e`: an observation of
/// an in-memory board with a signature reports a cycle, from the generation
/// the signature was first seen at to this one, when that signature was seen
/// before, and otherwise records the signature at this generation; any other
/// observation reports nothing and records nothing.
pub proof fn lemma_single_detector_step(e: SeenEntries, o: PatternObservation)
    ensures
        analyzer_step(seq![e], o, 0) == if o.backend != PatternBackend::InMemory || o.signature is None {
            (None, seq![e])
        } else {
            match first_seen(e, o.signature->0@) {
                Some(g) => (
                    Some(
                        cycle_match(
                            CyclePattern {
                                start_generation: g,
                                detected_generation: o.generation,
                                period: (o.generation - g) as u64,
                            },
                        ),
                    ),
                    seq![e],
                ),
                None => (None, seq![e.push((o.signature->0@, o.generation))]),
            }
        },
{
    reveal_with_fuel(analyzer_step, 2);
    let e1 = cycle_step(e, o).1;
    assert(seq![e].update(0, e1) =~= seq![e1]);
}

impl PatternAnalyzer {
    pub closed spec fn detector_entries(&self) -> Seq<SeenEntries> {
        self.detectors@.map_values(|d: CycleDetector| d.entries())
    }

    /// An analyzer with one cycle detector.
    pub fn in_memory_cycle_detection() -> (r: Self)
        ensures
            r.detector_entries() == seq![Seq::<((usize, usize, u64, Seq<u8>), u64)>::empty()],
    {
        let mut detectors: Vec<CycleDetector> = Vec::new();
        detectors.push(CycleDetector::new());
        let r = Self { detectors };
        proof {
            assert(r.detector_entries() =~= seq![Seq::<((usize, usize, u64, Seq<u8>), u64)>::empty()]);
        }
        r
    }

    /// Shows the observation to each detector in turn and returns the first
    /// terminal match; detectors after it are not run.
    pub fn observe(&mut self, observation: &PatternObservation<'_>) -> (r: Option<PatternMatch>)
        requires
            forall|k: int|
                0 <= k < old(self).detector_entries().len() ==> observation_ok(
                    #[trigger] old(self).detector_entries()[k],
                    *observation,
                ),
        ensures
            (r, final(self).detector_entries()) == analyzer_step(
                old(self).detector_entries(),
                *observation,
                0,
            ),
    {
        let mut i: usize = 0;
        while i < self.detectors.len()
            invariant_except_break
                analyzer_step(old(self).detector_entries(), *observation, 0) == analyzer_step(
                    self.detector_entries(),
                    *observation,
                    i as nat,
                ),
            invariant
                i <= self.detectors@.len(),
                self.detectors@.len() == old(self).detectors@.len(),
                forall|k: int|
                    i <= k < self.detector_entries().len() ==> #[trigger] self.detector_entries()[k]
                        == old(self).detector_entries()[k],
                forall|k: int|
                    0 <= k < old(self).detector_entries().len() ==> observation_ok(
                        #[trigger] old(self).detector_entries()[k],
                        *observation,
                    ),
            ensures
                analyzer_step(old(self).detector_entries(), *observation, 0) == (
                    None::<PatternMatch>,
                    self.detector_entries(),
                ),
            decreases self.detectors@.len() - i,
        {
            let ghost ds = self.detector_entries();
            proof {
                assert(self.detector_entries().len() == self.detectors@.len());
            }
            let mut detector = self.detectors.remove(i);
            let found = detector.observe(observation);
            self.detectors.insert(i, detector);
            proof {
                assert(self.detector_entries() =~= ds.update(i as int, cycle_step(ds[i as int], *observation).1));
            }
            if let Some(pattern_match) = found {
                if pattern_match.terminal {
                    return Some(pattern_match);
                }
            }
            i += 1;
        }
        None
    }
}

impl Default for PatternAnalyzer {
    fn default() -> (r: Self)
        ensures
            r.detector_entries() == Seq::<SeenEntries>::empty(),
    {
        let r = PatternAnalyzer { detectors: Vec::new() };
        proof {
            assert(r.detector_entries() =~= Seq::<SeenEntries>::empty());
        }
        r
    }
}

} // verus!
