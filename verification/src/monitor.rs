//! The governor's state between cycles, and one cycle of it: from a
//! reading of `/proc/stat` to the actions to take.

use vstd::prelude::*;
use crate::epp::cpu_count;
use crate::policy::{
    cycle_actions, high_cores, lemma_quiet_count_bounded, load_cores, moderate_cores, next_quiet_cycles, plan_cycle,
    EppAction, QUIET_CYCLES_BEFORE_POWER_SAVE,
};
use crate::stat::{sample_all, sample_cores, CoreCounters, CoreUsage, SampleError};

verus! {

/// Counters of a core that has not been read yet.
pub open spec fn zero_counters() -> CoreCounters {
    CoreCounters { total: 0, user: 0, nice: 0, idle: 0 }
}

/// The lines handed to a cycle: none when `/proc/stat` could not be opened.
pub open spec fn reading_lines(reading: Option<Vec<Option<String>>>) -> Seq<Option<String>> {
    match reading {
        Some(lines) => lines@,
        None => seq![],
    }
}

/// What the governor keeps from one cycle to the next: the counters of the
/// last reading of every core, and how many quiet cycles have been counted
/// since the count was last reset.
pub struct MonitorState {
    counters: Vec<CoreCounters>,
    quiet_cycles: u64,
}

/// What one cycle found and decided.
pub struct CycleReport {
    /// The usage of every core read in this cycle, in line order.
    pub usages: Vec<CoreUsage>,
    /// The highly loaded cores, in order.
    pub high_cores: Vec<usize>,
    /// The moderately loaded cores, in order.
    pub moderate_cores: Vec<usize>,
    /// The actions to take, in order.
    pub actions: Vec<EppAction>,
}

fn copy_counters(v: &Vec<CoreCounters>) -> (res: Vec<CoreCounters>)
    ensures
        res@ == v@,
{
    let mut res: Vec<CoreCounters> = Vec::new();
    for k in 0..v.len()
        invariant
            res@ == v@.take(k as int),
    {
        res.push(v[k]);
        assert(res@ =~= v@.take(k + 1));
    }
    assert(res@ =~= v@);
    res
}

impl MonitorState {
    /// The count of quiet cycles never exceeds the number after which the
    /// power-saving preference is applied.
    #[verifier::type_invariant]
    spec fn count_in_range(self) -> bool {
        self.quiet_cycles <= QUIET_CYCLES_BEFORE_POWER_SAVE
    }

    /// The counters of the last reading, by core.
    pub closed spec fn counters(self) -> Seq<CoreCounters> {
        self.counters@
    }

    /// The count of quiet cycles.
    pub closed spec fn quiet_cycles(self) -> u64 {
        self.quiet_cycles
    }

    /// A state for `num_cores` cores that have not been read yet.
    pub fn with_cores(num_cores: usize) -> (s: Self)
        ensures
            s.counters() == Seq::new(num_cores as nat, |_i: int| zero_counters()),
            s.quiet_cycles() == 0,
    {
        let mut counters: Vec<CoreCounters> = Vec::new();
        for k in 0..num_cores
            invariant
                counters@ == Seq::new(k as nat, |_i: int| zero_counters()),
        {
            counters.push(CoreCounters { total: 0, user: 0, nice: 0, idle: 0 });
            assert(counters@ =~= Seq::new((k + 1) as nat, |_i: int| zero_counters()));
        }
        MonitorState { counters, quiet_cycles: 0 }
    }

    /// A state for every CPU that `num_cpus` counts on this machine, none of
    /// them read yet.
    pub fn new() -> (s: Self)
        ensures
            s.counters().len() >= 1,
            forall|i: int| 0 <= i < s.counters().len() ==> #[trigger] s.counters()[i]
                == zero_counters(),
            s.quiet_cycles() == 0,
    {
        let n = cpu_count();
        Self::with_cores(n)
    }

    /// The number of cores tracked.
    pub fn core_count(&self) -> (n: usize)
        ensures
            n == self.counters().len(),
    {
        self.counters.len()
    }

    /// The counters of the last reading, by core.
    pub fn core_counters(&self) -> (v: Vec<CoreCounters>)
        ensures
            v@ == self.counters(),
    {
        copy_counters(&self.counters)
    }

    /// The count of quiet cycles.
    pub fn quiet_count(&self) -> (c: u64)
        ensures
            c == self.quiet_cycles(),
    {
        self.quiet_cycles
    }

    /// One cycle: reads the lines of `/proc/stat` (`None` when the file could
    /// not be opened), measures every core against the previous reading,
    /// and decides the actions. When a line cannot be read as the governor
    /// expects, the cycle fails and the state is left as it was.
    pub fn step(&mut self, reading: Option<Vec<Option<String>>>) -> (res: Result<
        CycleReport,
        SampleError,
    >)
        ensures
            res is Ok <==> sample_all(reading_lines(reading), old(self).counters()) is Ok,
            res matches Err(e) ==> {
                &&& sample_all(reading_lines(reading), old(self).counters()) == Err::<
                    (Seq<CoreUsage>, Seq<CoreCounters>),
                    SampleError,
                >(e)
                &&& final(self).counters() == old(self).counters()
                &&& final(self).quiet_cycles() == old(self).quiet_cycles()
            },
            res matches Ok(r) ==> {
                &&& sample_all(reading_lines(reading), old(self).counters()) == Ok::<
                    (Seq<CoreUsage>, Seq<CoreCounters>),
                    SampleError,
                >((r.usages@, final(self).counters()))
                &&& r.high_cores@ == high_cores(r.usages@)
                &&& r.moderate_cores@ == moderate_cores(r.usages@)
                &&& r.actions@ == cycle_actions(old(self).quiet_cycles(), r.usages@)
                &&& final(self).quiet_cycles() == next_quiet_cycles(
                    old(self).quiet_cycles(),
                    r.usages@,
                )
            },
    {
        proof {
            use_type_invariant(&*self);
        }
        let lines: Vec<Option<String>> = match reading {
            Some(v) => v,
            None => Vec::new(),
        };
        assert(lines@ == reading_lines(reading));
        let (usages, counters) = match sample_cores(&self.counters, &lines) {
            Ok(r) => r,
            Err(e) => {
                return Err(e);
            },
        };
        let (high, moderate) = load_cores(&usages);
        let (actions, next) = plan_cycle(self.quiet_cycles, &usages);
        proof {
            lemma_quiet_count_bounded(self.quiet_cycles, usages@);
        }
        self.counters = counters;
        self.quiet_cycles = next;
        Ok(CycleReport { usages, high_cores: high, moderate_cores: moderate, actions })
    }
}

} // verus!
