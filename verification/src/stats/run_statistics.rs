//! Run-level statistics accumulated generation by generation.
use vstd::prelude::*;

use crate::stats::advance_outcome::AdvanceOutcome;

verus! {

/// Per-generation series; index 0 is generation 0 (the initial board), whose
/// births and deaths are 0.
#[derive(Debug, Clone, PartialEq, Eq)]
pub struct IterationSeries {
    pub alive: Vec<u64>,
    pub births: Vec<u64>,
    pub deaths: Vec<u64>,
}

impl IterationSeries {
    pub fn len(&self) -> (r: usize)
        ensures
            r == self.alive@.len(),
    {
        self.alive.len()
    }

    pub fn is_empty(&self) -> (r: bool)
        ensures
            r == (self.alive@.len() == 0),
    {
        self.alive.len() == 0
    }
}

/// The label of how a run ended.
#[derive(Debug, Clone, Copy, PartialEq, Eq, Structural)]
pub enum RunStatus {
    MaxIterations,
    Extinct,
    Stable,
    Cyclic,
}

pub open spec fn status_name(s: RunStatus) -> Seq<char> {
    match s {
        RunStatus::MaxIterations => "max_iterations"@,
        RunStatus::Extinct => "extinct"@,
        RunStatus::Stable => "stable"@,
        RunStatus::Cyclic => "cyclic"@,
    }
}

impl RunStatus {
    pub fn as_str(self) -> (r: &'static str)
        ensures
            r@ == status_name(self),
    {
        match self {
            RunStatus::MaxIterations => "max_iterations",
            RunStatus::Extinct => "extinct",
            RunStatus::Stable => "stable",
            RunStatus::Cyclic => "cyclic",
        }
    }
}

#[derive(Debug, Clone, Copy, PartialEq, Eq, Structural)]
pub struct CycleStatistics {
    pub start_generation: u64,
    pub detected_generation: u64,
    pub period: u64,
}

#[derive(Debug, Clone, PartialEq, Eq, Structural)]
pub struct RunStatistics {
    pub initial_alive_count: u64,
    pub final_alive_count: u64,
    pub peak_alive_count: u64,
    pub peak_alive_generation: u64,
    pub min_alive_count: u64,
    pub min_alive_generation: u64,
    pub total_births: u64,
    pub total_deaths: u64,
    pub iterations_run: u64,
    pub status: RunStatus,
    pub cycle: Option<CycleStatistics>,
}

/// The status a generation ends a run with, if any: extinct when nothing is
/// alive, stable when nothing changed.
pub fn terminal_status_for_outcome(outcome: AdvanceOutcome) -> (r: Option<RunStatus>)
    ensures
        r == if outcome.alive_count == 0 {
            Some(RunStatus::Extinct)
        } else if outcome.no_change() {
            Some(RunStatus::Stable)
        } else {
            None
        },
{
    if outcome.alive_count == 0 {
        Some(RunStatus::Extinct)
    } else if outcome.is_stable() {
        Some(RunStatus::Stable)
    } else {
        None
    }
}

/// Sum of a series.
pub open spec fn series_sum(s: Seq<u64>) -> int
    decreases s.len(),
{
    if s.len() == 0 {
        0
    } else {
        series_sum(s.drop_last()) + s.last()
    }
}

/// Accumulates run statistics, one generation at a time; generation 0 is
/// the initial board.
#[derive(Debug, Clone)]
pub struct RunStatisticsCollector {
    initial_alive_count: u64,
    final_alive_count: u64,
    peak_alive_count: u64,
    peak_alive_generation: u64,
    min_alive_count: u64,
    min_alive_generation: u64,
    total_births: u64,
    total_deaths: u64,
    iterations_run: u64,
    alive_series: Vec<u64>,
    births_series: Vec<u64>,
    deaths_series: Vec<u64>,
}

impl RunStatisticsCollector {
    pub closed spec fn initial(&self) -> u64 {
        self.initial_alive_count
    }

    pub closed spec fn last_alive(&self) -> u64 {
        self.final_alive_count
    }

    pub closed spec fn peak(&self) -> u64 {
        self.peak_alive_count
    }

    pub closed spec fn peak_generation(&self) -> u64 {
        self.peak_alive_generation
    }

    pub closed spec fn min(&self) -> u64 {
        self.min_alive_count
    }

    pub closed spec fn min_generation(&self) -> u64 {
        self.min_alive_generation
    }

    pub closed spec fn births(&self) -> u64 {
        self.total_births
    }

    pub closed spec fn deaths(&self) -> u64 {
        self.total_deaths
    }

    pub closed spec fn iterations(&self) -> u64 {
        self.iterations_run
    }

    pub closed spec fn alive_seq(&self) -> Seq<u64> {
        self.alive_series@
    }

    pub closed spec fn births_seq(&self) -> Seq<u64> {
        self.births_series@
    }

    pub closed spec fn deaths_seq(&self) -> Seq<u64> {
        self.deaths_series@
    }

    /// The summary values agree with the series: totals are the sums, the
    /// peak and minimum are the largest and smallest counts, first reached at
    /// their generations, and the final count is the last.
    pub open spec fn consistent(&self) -> bool {
        let a = self.alive_seq();
        &&& a.len() == self.births_seq().len()
        &&& a.len() == self.deaths_seq().len()
        &&& a.len() == self.iterations() + 1
        &&& self.initial() == a[0]
        &&& self.last_alive() == a.last()
        &&& self.births_seq()[0] == 0
        &&& self.deaths_seq()[0] == 0
        &&& self.births() == series_sum(self.births_seq())
        &&& self.deaths() == series_sum(self.deaths_seq())
        &&& self.peak_generation() < a.len()
        &&& a[self.peak_generation() as int] == self.peak()
        &&& forall|j: int| 0 <= j < a.len() ==> a[j] <= self.peak()
        &&& forall|j: int| 0 <= j < self.peak_generation() ==> a[j] < self.peak()
        &&& self.min_generation() < a.len()
        &&& a[self.min_generation() as int] == self.min()
        &&& forall|j: int| 0 <= j < a.len() ==> a[j] >= self.min()
        &&& forall|j: int| 0 <= j < self.min_generation() ==> a[j] > self.min()
    }

    /// A collector at generation 0 with `initial_alive_count` cells alive.
    pub fn starting_from(initial_alive_count: u64) -> (r: Self)
        ensures
            r.consistent(),
            r.alive_seq() == seq![initial_alive_count],
            r.iterations() == 0,
    {
        let r = RunStatisticsCollector {
            initial_alive_count,
            final_alive_count: initial_alive_count,
            peak_alive_count: initial_alive_count,
            peak_alive_generation: 0,
            min_alive_count: initial_alive_count,
            min_alive_generation: 0,
            total_births: 0,
            total_deaths: 0,
            iterations_run: 0,
            alive_series: vec![initial_alive_count],
            births_series: vec![0],
            deaths_series: vec![0],
        };
        proof {
            reveal_with_fuel(series_sum, 2);
            assert(r.births_series@.drop_last() =~= Seq::<u64>::empty());
            assert(r.deaths_series@.drop_last() =~= Seq::<u64>::empty());
        }
        r
    }

    /// A collector holding a finished summary. The series cannot be rebuilt
    /// from it: the alive series is the initial count then the final count,
    /// and all births and deaths are booked at the last generation.
    pub fn from_statistics(statistics: &RunStatistics) -> (r: Self)
        ensures
            r.initial() == statistics.initial_alive_count,
            r.last_alive() == statistics.final_alive_count,
            r.peak() == statistics.peak_alive_count,
            r.peak_generation() == statistics.peak_alive_generation,
            r.min() == statistics.min_alive_count,
            r.min_generation() == statistics.min_alive_generation,
            r.births() == statistics.total_births,
            r.deaths() == statistics.total_deaths,
            r.iterations() == statistics.iterations_run,
            ({
                let n: int = if statistics.iterations_run < usize::MAX {
                    statistics.iterations_run + 1
                } else {
                    1
                };
                &&& r.alive_seq().len() == n
                &&& r.births_seq().len() == n
                &&& r.deaths_seq().len() == n
                &&& r.alive_seq()[0] == statistics.initial_alive_count
                &&& forall|i: int| 1 <= i < n ==> #[trigger] r.alive_seq()[i] == statistics.final_alive_count
                &&& forall|i: int|
                    0 <= i < n ==> #[trigger] r.births_seq()[i] == (if n > 1 && i == n - 1 {
                        statistics.total_births
                    } else {
                        0
                    })
                &&& forall|i: int|
                    0 <= i < n ==> #[trigger] r.deaths_seq()[i] == (if n > 1 && i == n - 1 {
                        statistics.total_deaths
                    } else {
                        0
                    })
            }),
    {
        let series_len: usize = if statistics.iterations_run < usize::MAX as u64 {
            statistics.iterations_run as usize + 1
        } else {
            1
        };
        let mut alive_series: Vec<u64> = Vec::new();
        let mut births_series: Vec<u64> = Vec::new();
        let mut deaths_series: Vec<u64> = Vec::new();
        let mut i: usize = 0;
        while i < series_len
            invariant
                i <= series_len,
                alive_series@.len() == i,
                births_series@.len() == i,
                deaths_series@.len() == i,
                forall|k: int| 0 <= k < i ==> #[trigger] alive_series@[k] == if k == 0 {
                    statistics.initial_alive_count
                } else {
                    statistics.final_alive_count
                },
                forall|k: int| 0 <= k < i ==> #[trigger] births_series@[k] == if series_len > 1 && k
                    == series_len - 1 {
                    statistics.total_births
                } else {
                    0
                },
                forall|k: int| 0 <= k < i ==> #[trigger] deaths_series@[k] == if series_len > 1 && k
                    == series_len - 1 {
                    statistics.total_deaths
                } else {
                    0
                },
            decreases series_len - i,
        {
            alive_series.push(
                if i == 0 {
                    statistics.initial_alive_count
                } else {
                    statistics.final_alive_count
                },
            );
            let last = series_len > 1 && i == series_len - 1;
            births_series.push(
                if last {
                    statistics.total_births
                } else {
                    0
                },
            );
            deaths_series.push(
                if last {
                    statistics.total_deaths
                } else {
                    0
                },
            );
            i += 1;
        }
        RunStatisticsCollector {
            initial_alive_count: statistics.initial_alive_count,
            final_alive_count: statistics.final_alive_count,
            peak_alive_count: statistics.peak_alive_count,
            peak_alive_generation: statistics.peak_alive_generation,
            min_alive_count: statistics.min_alive_count,
            min_alive_generation: statistics.min_alive_generation,
            total_births: statistics.total_births,
            total_deaths: statistics.total_deaths,
            iterations_run: statistics.iterations_run,
            alive_series,
            births_series,
            deaths_series,
        }
    }

    /// Records the outcome of the next generation.
    pub fn record(&mut self, outcome: AdvanceOutcome)
        requires
            old(self).iterations() < u64::MAX,
            old(self).births() + outcome.births <= u64::MAX,
            old(self).deaths() + outcome.deaths <= u64::MAX,
        ensures
            recorded(*old(self), outcome, *final(self)),
    {
        let ghost prev = *self;
        self.iterations_run = self.iterations_run + 1;
        self.total_births = self.total_births + outcome.births;
        self.total_deaths = self.total_deaths + outcome.deaths;
        self.final_alive_count = outcome.alive_count;
        self.alive_series.push(outcome.alive_count);
        self.births_series.push(outcome.births);
        self.deaths_series.push(outcome.deaths);
        if outcome.alive_count > self.peak_alive_count {
            self.peak_alive_count = outcome.alive_count;
            self.peak_alive_generation = self.iterations_run;
        }
        if outcome.alive_count < self.min_alive_count {
            self.min_alive_count = outcome.alive_count;
            self.min_alive_generation = self.iterations_run;
        }
        proof {
            assert(self.births_series@.drop_last() =~= prev.births_series@);
            assert(self.deaths_series@.drop_last() =~= prev.deaths_series@);
        }
    }

    pub fn iterations_run(&self) -> (r: u64)
        ensures
            r == self.iterations(),
    {
        self.iterations_run
    }

    pub fn total_births(&self) -> (r: u64)
        ensures
            r == self.births(),
    {
        self.total_births
    }

    pub fn total_deaths(&self) -> (r: u64)
        ensures
            r == self.deaths(),
    {
        self.total_deaths
    }

    pub fn final_alive_count(&self) -> (r: u64)
        ensures
            r == self.last_alive(),
    {
        self.final_alive_count
    }

    /// The summary, with the given status and no cycle.
    pub fn finalize(self, status: RunStatus) -> (r: RunStatistics)
        ensures
            summary_of(r, &self, status, None),
    {
        self.finalize_with_series(status, None).0
    }

    /// The summary, with the given status and cycle.
    pub fn finalize_with_cycle(self, status: RunStatus, cycle: Option<CycleStatistics>) -> (r: RunStatistics)
        ensures
            summary_of(r, &self, status, cycle),
    {
        self.finalize_with_series(status, cycle).0
    }

    /// The summary and the per-generation series.
    pub fn finalize_with_series(self, status: RunStatus, cycle: Option<CycleStatistics>) -> (r: (
        RunStatistics,
        IterationSeries,
    ))
        ensures
            summary_of(r.0, &self, status, cycle),
            r.1.alive@ == self.alive_seq(),
            r.1.births@ == self.births_seq(),
            r.1.deaths@ == self.deaths_seq(),
    {
        let stats = RunStatistics {
            initial_alive_count: self.initial_alive_count,
            final_alive_count: self.final_alive_count,
            peak_alive_count: self.peak_alive_count,
            peak_alive_generation: self.peak_alive_generation,
            min_alive_count: self.min_alive_count,
            min_alive_generation: self.min_alive_generation,
            total_births: self.total_births,
            total_deaths: self.total_deaths,
            iterations_run: self.iterations_run,
            status,
            cycle,
        };
        let series = IterationSeries {
            alive: self.alive_series,
            births: self.births_series,
            deaths: self.deaths_series,
        };
        (stats, series)
    }
}

/// The summary `s` holds the collector's values with the given status and
/// cycle.
pub open spec fn summary_of(
    s: RunStatistics,
    c: &RunStatisticsCollector,
    status: RunStatus,
    cycle: Option<CycleStatistics>,
) -> bool {
    &&& s.initial_alive_count == c.initial()
    &&& s.final_alive_count == c.last_alive()
    &&& s.peak_alive_count == c.peak()
    &&& s.peak_alive_generation == c.peak_generation()
    &&& s.min_alive_count == c.min()
    &&& s.min_alive_generation == c.min_generation()
    &&& s.total_births == c.births()
    &&& s.total_deaths == c.deaths()
    &&& s.iterations_run == c.iterations()
    &&& s.status == status
    &&& s.cycle == cycle
}

/// `new` is `old` after recording `outcome`: one more generation, the
/// totals grown by its births and deaths, its counts appended to the
/// series, and the peak and minimum moved to it when it exceeds them.
pub open spec fn recorded(old: RunStatisticsCollector, outcome: AdvanceOutcome, new: RunStatisticsCollector) -> bool {
    &&& new.iterations() == old.iterations() + 1
    &&& new.births() == old.births() + outcome.births
    &&& new.deaths() == old.deaths() + outcome.deaths
    &&& new.initial() == old.initial()
    &&& new.last_alive() == outcome.alive_count
    &&& new.alive_seq() == old.alive_seq().push(outcome.alive_count)
    &&& new.births_seq() == old.births_seq().push(outcome.births)
    &&& new.deaths_seq() == old.deaths_seq().push(outcome.deaths)
    &&& if outcome.alive_count > old.peak() {
        new.peak() == outcome.alive_count && new.peak_generation() == new.iterations()
    } else {
        new.peak() == old.peak() && new.peak_generation() == old.peak_generation()
    }
    &&& if outcome.alive_count < old.min() {
        new.min() == outcome.alive_count && new.min_generation() == new.iterations()
    } else {
        new.min() == old.min() && new.min_generation() == old.min_generation()
    }
    &&& old.consistent() ==> new.consistent()
}

/// The births of a list of generation outcomes, in order.
pub open spec fn outcome_births(os: Seq<AdvanceOutcome>) -> Seq<u64> {
    Seq::new(os.len(), |i: int| os[i].births)
}

/// The deaths of a list of generation outcomes, in order.
pub open spec fn outcome_deaths(os: Seq<AdvanceOutcome>) -> Seq<u64> {
    Seq::new(os.len(), |i: int| os[i].deaths)
}

/// The live counts of a list of generation outcomes, in order.
pub open spec fn outcome_alive(os: Seq<AdvanceOutcome>) -> Seq<u64> {
    Seq::new(os.len(), |i: int| os[i].alive_count)
}

/// A run collected from `starting_from(a0)` and one `record` per outcome
/// of `os`, then finished with `finalize_with_series`, sums up exactly
/// those outcomes: its series are the initial count (no births or deaths)
/// followed by each outcome's counts, its totals are their sums, its final
/// count is the last, and its peak and minimum are the largest and
/// smallest counts with the first generation at which each is reached.
pub proof fn lemma_collected_run(
    a0: u64,
    os: Seq<AdvanceOutcome>,
    cs: Seq<RunStatisticsCollector>,
    status: RunStatus,
    cycle: Option<CycleStatistics>,
    s: RunStatistics,
    series: IterationSeries,
)
    requires
        cs.len() == os.len() + 1,
        cs[0].consistent(),
        cs[0].alive_seq() == seq![a0],
        cs[0].iterations() == 0,
        forall|i: int| 0 <= i < os.len() ==> recorded(cs[i], #[trigger] os[i], cs[i + 1]),
        summary_of(s, &cs.last(), status, cycle),
        series.alive@ == cs.last().alive_seq(),
        series.births@ == cs.last().births_seq(),
        series.deaths@ == cs.last().deaths_seq(),
    ensures
        series.alive@ == seq![a0] + outcome_alive(os),
        series.births@ == seq![0u64] + outcome_births(os),
        series.deaths@ == seq![0u64] + outcome_deaths(os),
        s.status == status,
        s.cycle == cycle,
        s.iterations_run == os.len(),
        s.initial_alive_count == a0,
        s.total_births == series_sum(series.births@),
        s.total_deaths == series_sum(series.deaths@),
        s.final_alive_count == series.alive@.last(),
        s.peak_alive_generation < series.alive@.len(),
        series.alive@[s.peak_alive_generation as int] == s.peak_alive_count,
        forall|j: int| 0 <= j < series.alive@.len() ==> series.alive@[j] <= s.peak_alive_count,
        forall|j: int| 0 <= j < s.peak_alive_generation ==> series.alive@[j] < s.peak_alive_count,
        s.min_alive_generation < series.alive@.len(),
        series.alive@[s.min_alive_generation as int] == s.min_alive_count,
        forall|j: int| 0 <= j < series.alive@.len() ==> series.alive@[j] >= s.min_alive_count,
        forall|j: int| 0 <= j < s.min_alive_generation ==> series.alive@[j] > s.min_alive_count,
{
    lemma_collected_prefix(a0, os, cs, os.len() as int);
    let c = cs[os.len() as int];
    assert(cs.last() == c);
    assert(os.take(os.len() as int) =~= os);
}

proof fn lemma_collected_prefix(a0: u64, os: Seq<AdvanceOutcome>, cs: Seq<RunStatisticsCollector>, n: int)
    requires
        cs.len() == os.len() + 1,
        cs[0].consistent(),
        cs[0].alive_seq() == seq![a0],
        cs[0].iterations() == 0,
        forall|i: int| 0 <= i < os.len() ==> recorded(cs[i], #[trigger] os[i], cs[i + 1]),
        0 <= n <= os.len(),
    ensures
        cs[n].consistent(),
        cs[n].iterations() == n,
        cs[n].initial() == a0,
        cs[n].alive_seq() == seq![a0] + outcome_alive(os.take(n)),
        cs[n].births_seq() == seq![0u64] + outcome_births(os.take(n)),
        cs[n].deaths_seq() == seq![0u64] + outcome_deaths(os.take(n)),
    decreases n,
{
    if n == 0 {
        assert(cs[0].births_seq() =~= seq![0u64] + outcome_births(os.take(0)));
        assert(cs[0].deaths_seq() =~= seq![0u64] + outcome_deaths(os.take(0)));
        assert(cs[0].alive_seq() =~= seq![a0] + outcome_alive(os.take(0)));
    } else {
        lemma_collected_prefix(a0, os, cs, n - 1);
        let m = n - 1;
        assert(recorded(cs[m], os[m], cs[m + 1]));
        assert(cs[n].alive_seq() =~= seq![a0] + outcome_alive(os.take(n)));
        assert(cs[n].births_seq() =~= seq![0u64] + outcome_births(os.take(n)));
        assert(cs[n].deaths_seq() =~= seq![0u64] + outcome_deaths(os.take(n)));
    }
}

} // verus!
