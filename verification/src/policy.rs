//! The governor's decisions: how loaded each core was during a cycle, and
//! which energy-performance preference to apply in response.

use vstd::prelude::*;
use crate::stat::CoreUsage;

verus! {

/// Utilization, in percent, above which a core counts as highly loaded.
pub const HIGH_LOAD_PERCENT: u64 = 70;

/// Utilization, in percent, below which a core counts as quiet.
pub const LOW_LOAD_PERCENT: u64 = 52;

/// EPP value that favours performance.
pub const EPP_PERFORMANCE: u32 = 33;

/// EPP value that balances performance and power.
pub const EPP_BALANCED: u32 = 128;

/// EPP value that favours saving power.
pub const EPP_POWER_SAVE: u32 = 192;

/// Pause, in milliseconds, after switching to the performance preference.
pub const HIGH_LOAD_HOLD_MS: u64 = 13000;

/// Pause, in milliseconds, at the end of every cycle.
pub const CYCLE_PAUSE_MS: u64 = 500;

/// Number of counted quiet cycles after which the power-saving preference
/// is applied.
pub const QUIET_CYCLES_BEFORE_POWER_SAVE: u64 = 30;

/// Utilization is `100 * (1 - idle_delta / total_delta)` percent. It is above
/// `pct` exactly when `(100 - pct) * total_delta > 100 * idle_delta`. With no
/// elapsed time (`total_delta == 0`) a core is neither above nor below any
/// threshold, unless idle time grew, in which case it is below every one.
pub open spec fn usage_above(u: CoreUsage, pct: nat) -> bool {
    (100 - pct) * u.total_delta > 100 * u.idle_delta
}

/// Utilization is below `pct` exactly when
/// `(100 - pct) * total_delta < 100 * idle_delta`.
pub open spec fn usage_below(u: CoreUsage, pct: nat) -> bool {
    (100 - pct) * u.total_delta < 100 * u.idle_delta
}

/// A core whose utilization is above the high threshold.
pub open spec fn is_high(u: CoreUsage) -> bool {
    usage_above(u, HIGH_LOAD_PERCENT as nat)
}

/// A core whose utilization lies strictly between the two thresholds.
pub open spec fn is_moderate(u: CoreUsage) -> bool {
    usage_below(u, HIGH_LOAD_PERCENT as nat) && usage_above(u, LOW_LOAD_PERCENT as nat)
}

/// The cores, in order, whose usage satisfies `p`.
pub open spec fn cores_where(us: Seq<CoreUsage>, p: spec_fn(CoreUsage) -> bool) -> Seq<usize>
    decreases us.len(),
{
    if us.len() == 0 {
        seq![]
    } else {
        let r = cores_where(us.drop_last(), p);
        if p(us.last()) {
            r.push(us.last().core)
        } else {
            r
        }
    }
}

/// The highly loaded cores, in order.
pub open spec fn high_cores(us: Seq<CoreUsage>) -> Seq<usize> {
    cores_where(us, |u: CoreUsage| is_high(u))
}

/// The moderately loaded cores, in order.
pub open spec fn moderate_cores(us: Seq<CoreUsage>) -> Seq<usize> {
    cores_where(us, |u: CoreUsage| is_moderate(u))
}

pub open spec fn any_high(us: Seq<CoreUsage>) -> bool {
    exists|i: int| 0 <= i < us.len() && is_high(#[trigger] us[i])
}

pub open spec fn any_moderate(us: Seq<CoreUsage>) -> bool {
    exists|i: int| 0 <= i < us.len() && is_moderate(#[trigger] us[i])
}

/// Every core of the cycle was below the low threshold (true of a cycle
/// without readings).
pub open spec fn all_quiet(us: Seq<CoreUsage>) -> bool {
    forall|i: int| 0 <= i < us.len() ==> usage_below(#[trigger] us[i], LOW_LOAD_PERCENT as nat)
}

/// Some core of the cycle was above the low threshold.
pub open spec fn any_above_low(us: Seq<CoreUsage>) -> bool {
    exists|i: int| 0 <= i < us.len() && usage_above(#[trigger] us[i], LOW_LOAD_PERCENT as nat)
}

/// What the governor asks of the system.
#[derive(Clone, Copy, Debug, PartialEq, Eq, Structural)]
pub enum EppAction {
    /// Write this EPP value for every core.
    SetEppAllCores(u32),
    /// Wait this many milliseconds.
    Pause(u64),
}

/// The count of quiet cycles after a cycle with usages `us`.
pub open spec fn next_quiet_cycles(count: u64, us: Seq<CoreUsage>) -> u64 {
    if all_quiet(us) {
        if count >= QUIET_CYCLES_BEFORE_POWER_SAVE {
            0
        } else {
            (count + 1) as u64
        }
    } else {
        0
    }
}

/// The actions of one cycle, in order, given the count of quiet cycles
/// before it and the usages it read.
pub open spec fn cycle_actions(count: u64, us: Seq<CoreUsage>) -> Seq<EppAction> {
    let load = if any_high(us) {
        seq![EppAction::SetEppAllCores(EPP_PERFORMANCE), EppAction::Pause(HIGH_LOAD_HOLD_MS)]
    } else if any_moderate(us) {
        seq![EppAction::SetEppAllCores(EPP_BALANCED)]
    } else {
        seq![]
    };
    let idle = if all_quiet(us) {
        if count >= QUIET_CYCLES_BEFORE_POWER_SAVE {
            seq![EppAction::SetEppAllCores(EPP_POWER_SAVE)]
        } else {
            seq![]
        }
    } else if any_above_low(us) {
        seq![EppAction::SetEppAllCores(EPP_BALANCED)]
    } else {
        seq![]
    };
    load + idle + seq![EppAction::Pause(CYCLE_PAUSE_MS)]
}

/// Whether the utilization of `u` is above `pct` percent.
pub fn is_above(u: &CoreUsage, pct: u64) -> (b: bool)
    requires
        pct <= 100,
    ensures
        b == usage_above(*u, pct as nat),
{
    let w = (100 - pct) as u128;
    let t = u.total_delta as u128;
    let i = u.idle_delta as u128;
    assert(w * t <= 100 * 0xffff_ffff_ffff_ffffu128) by (nonlinear_arith)
        requires
            w <= 100,
            t <= 0xffff_ffff_ffff_ffffu128,
    ;
    w * t > 100 * i
}

/// Whether the utilization of `u` is below `pct` percent.
pub fn is_below(u: &CoreUsage, pct: u64) -> (b: bool)
    requires
        pct <= 100,
    ensures
        b == usage_below(*u, pct as nat),
{
    let w = (100 - pct) as u128;
    let t = u.total_delta as u128;
    let i = u.idle_delta as u128;
    assert(w * t <= 100 * 0xffff_ffff_ffff_ffffu128) by (nonlinear_arith)
        requires
            w <= 100,
            t <= 0xffff_ffff_ffff_ffffu128,
    ;
    w * t < 100 * i
}

pub proof fn lemma_cores_where_empty(us: Seq<CoreUsage>, p: spec_fn(CoreUsage) -> bool)
    ensures
        cores_where(us, p).len() == 0 <==> !(exists|i: int| 0 <= i < us.len() && #[trigger] p(us[i])),
        cores_where(us, p).len() <= us.len(),
    decreases us.len(),
{
    if us.len() > 0 {
        lemma_cores_where_empty(us.drop_last(), p);
        if exists|i: int| 0 <= i < us.len() && #[trigger] p(us[i]) {
            let i = choose|i: int| 0 <= i < us.len() && #[trigger] p(us[i]);
            if i < us.len() - 1 {
                assert(us.drop_last()[i] == us[i]);
            }
        }
        assert forall|i: int| 0 <= i < us.len() - 1 && #[trigger] p(us.drop_last()[i]) implies p(
            us[i],
        ) by {
            assert(us.drop_last()[i] == us[i]);
        }
    }
}

/// The highly loaded cores and the moderately loaded cores of a cycle.
pub fn load_cores(us: &Vec<CoreUsage>) -> (res: (Vec<usize>, Vec<usize>))
    ensures
        res.0@ == high_cores(us@),
        res.1@ == moderate_cores(us@),
{
    let mut high: Vec<usize> = Vec::new();
    let mut moderate: Vec<usize> = Vec::new();
    let n = us.len();
    assert(us@.take(0) =~= Seq::<CoreUsage>::empty());
    for i in 0..n
        invariant
            n == us@.len(),
            high@ == high_cores(us@.take(i as int)),
            moderate@ == moderate_cores(us@.take(i as int)),
    {
        let u = us[i];
        assert(us@.take(i + 1).drop_last() =~= us@.take(i as int));
        assert(us@.take(i + 1).last() == u);
        if is_above(&u, HIGH_LOAD_PERCENT) {
            high.push(u.core);
        } else if is_below(&u, HIGH_LOAD_PERCENT) && is_above(&u, LOW_LOAD_PERCENT) {
            moderate.push(u.core);
        }
    }
    assert(us@.take(n as int) =~= us@);
    (high, moderate)
}

/// Whether every usage of the cycle is below the low threshold.
pub fn all_below_low(us: &Vec<CoreUsage>) -> (b: bool)
    ensures
        b == all_quiet(us@),
{
    let n = us.len();
    for i in 0..n
        invariant
            n == us@.len(),
            forall|j: int| 0 <= j < i ==> usage_below(#[trigger] us@[j], LOW_LOAD_PERCENT as nat),
    {
        if !is_below(&us[i], LOW_LOAD_PERCENT) {
            return false;
        }
    }
    true
}

/// Whether some usage of the cycle is above the low threshold.
pub fn some_above_low(us: &Vec<CoreUsage>) -> (b: bool)
    ensures
        b == any_above_low(us@),
{
    let n = us.len();
    for i in 0..n
        invariant
            n == us@.len(),
            forall|j: int| 0 <= j < i ==> !usage_above(#[trigger] us@[j], LOW_LOAD_PERCENT as nat),
    {
        if is_above(&us[i], LOW_LOAD_PERCENT) {
            return true;
        }
    }
    false
}

/// The decisions of one cycle: from the count of quiet cycles before it and
/// the usages it read, the actions to take and the new count.
pub fn plan_cycle(count: u64, us: &Vec<CoreUsage>) -> (res: (Vec<EppAction>, u64))
    ensures
        res.0@ == cycle_actions(count, us@),
        res.1 == next_quiet_cycles(count, us@),
{
    let (high, moderate) = load_cores(us);
    proof {
        lemma_cores_where_empty(us@, |u: CoreUsage| is_high(u));
        lemma_cores_where_empty(us@, |u: CoreUsage| is_moderate(u));
        if any_high(us@) {
            let i = choose|i: int| 0 <= i < us@.len() && is_high(#[trigger] us@[i]);
            assert((|u: CoreUsage| is_high(u))(us@[i]));
        }
        if any_moderate(us@) {
            let i = choose|i: int| 0 <= i < us@.len() && is_moderate(#[trigger] us@[i]);
            assert((|u: CoreUsage| is_moderate(u))(us@[i]));
        }
        assert(high.len() > 0 <==> any_high(us@));
        assert(moderate.len() > 0 <==> any_moderate(us@));
    }
    let mut actions: Vec<EppAction> = Vec::new();
    if high.len() > 0 {
        actions.push(EppAction::SetEppAllCores(EPP_PERFORMANCE));
        actions.push(EppAction::Pause(HIGH_LOAD_HOLD_MS));
    } else if moderate.len() > 0 {
        actions.push(EppAction::SetEppAllCores(EPP_BALANCED));
    }
    let ghost load = actions@;
    let mut next: u64 = 0;
    if all_below_low(us) {
        if count >= QUIET_CYCLES_BEFORE_POWER_SAVE {
            actions.push(EppAction::SetEppAllCores(EPP_POWER_SAVE));
            next = 0;
        } else {
            next = count + 1;
        }
    } else {
        next = 0;
        if some_above_low(us) {
            actions.push(EppAction::SetEppAllCores(EPP_BALANCED));
        }
    }
    actions.push(EppAction::Pause(CYCLE_PAUSE_MS));
    assert(actions@ =~= cycle_actions(count, us@));
    (actions, next)
}

/// However many quiet cycles were counted before, the count after a cycle
/// never exceeds the number after which power saving is applied.
pub proof fn lemma_quiet_count_bounded(count: u64, us: Seq<CoreUsage>)
    ensures
        next_quiet_cycles(count, us) <= QUIET_CYCLES_BEFORE_POWER_SAVE,
{
}

/// Whether the actions switch every core to the power-saving preference.
pub open spec fn sets_power_save(actions: Seq<EppAction>) -> bool {
    actions.contains(EppAction::SetEppAllCores(EPP_POWER_SAVE))
}

/// The count of quiet cycles after running `cycles` in order from `count`.
pub open spec fn quiet_count_after(count: u64, cycles: Seq<Seq<CoreUsage>>) -> u64
    decreases cycles.len(),
{
    if cycles.len() == 0 {
        count
    } else {
        next_quiet_cycles(quiet_count_after(count, cycles.drop_last()), cycles.last())
    }
}

/// The shape of every cycle's actions: a high load is answered first with
/// the performance preference and a hold; every preference set is one of
/// the three known values; the cycle always ends with the regular pause;
/// and a cycle with a highly loaded core is never quiet, so it neither
/// applies power saving nor keeps the quiet count.
pub proof fn lemma_cycle_actions_shape(count: u64, us: Seq<CoreUsage>)
    ensures
        cycle_actions(count, us).len() >= 1,
        cycle_actions(count, us).last() == EppAction::Pause(CYCLE_PAUSE_MS),
        forall|i: int|
            0 <= i < cycle_actions(count, us).len() ==> match #[trigger] cycle_actions(count, us)[i] {
                EppAction::SetEppAllCores(v) => v == EPP_PERFORMANCE || v == EPP_BALANCED || v
                    == EPP_POWER_SAVE,
                EppAction::Pause(ms) => ms == HIGH_LOAD_HOLD_MS || ms == CYCLE_PAUSE_MS,
            },
        any_high(us) ==> cycle_actions(count, us)[0] == EppAction::SetEppAllCores(EPP_PERFORMANCE)
            && cycle_actions(count, us)[1] == EppAction::Pause(HIGH_LOAD_HOLD_MS),
        any_high(us) ==> !all_quiet(us) && next_quiet_cycles(count, us) == 0 && !sets_power_save(
            cycle_actions(count, us),
        ),
{
    if any_high(us) {
        let i = choose|i: int| 0 <= i < us.len() && is_high(#[trigger] us[i]);
        assert(usage_above(us[i], LOW_LOAD_PERCENT as nat));
        assert(!usage_below(us[i], LOW_LOAD_PERCENT as nat));
    }
    lemma_power_save_condition(count, us);
}

/// Power saving is applied in a cycle exactly when the cycle is quiet and
/// the count of quiet cycles before it has reached its limit.
pub proof fn lemma_power_save_condition(count: u64, us: Seq<CoreUsage>)
    ensures
        sets_power_save(cycle_actions(count, us)) <==> all_quiet(us) && count
            >= QUIET_CYCLES_BEFORE_POWER_SAVE,
{
    let a = cycle_actions(count, us);
    let ps = EppAction::SetEppAllCores(EPP_POWER_SAVE);
    if all_quiet(us) && count >= QUIET_CYCLES_BEFORE_POWER_SAVE {
        let k = if any_high(us) {
            2int
        } else if any_moderate(us) {
            1int
        } else {
            0int
        };
        assert(a[k] == ps);
    } else {
        assert forall|i: int| 0 <= i < a.len() implies a[i] != ps by {}
    }
}

proof fn lemma_quiet_count_trailing(cycles: Seq<Seq<CoreUsage>>, j: int)
    requires
        0 <= j <= cycles.len(),
    ensures
        quiet_count_after(0, cycles.take(j)) <= j,
        forall|k: int|
            j - quiet_count_after(0, cycles.take(j)) <= k < j ==> all_quiet(#[trigger] cycles[k]),
    decreases j,
{
    if j > 0 {
        lemma_quiet_count_trailing(cycles, j - 1);
        assert(cycles.take(j).drop_last() =~= cycles.take(j - 1));
        assert(cycles.take(j).last() == cycles[j - 1]);
    }
}

/// Starting from a fresh state, power saving is only ever applied in a
/// cycle that ends a run of at least thirty-one quiet cycles: the cycle
/// itself and the thirty before it.
pub proof fn lemma_power_save_needs_quiet_run(cycles: Seq<Seq<CoreUsage>>, j: int)
    requires
        0 <= j < cycles.len(),
        sets_power_save(cycle_actions(quiet_count_after(0, cycles.take(j)), cycles[j])),
    ensures
        j >= QUIET_CYCLES_BEFORE_POWER_SAVE,
        forall|k: int| j - QUIET_CYCLES_BEFORE_POWER_SAVE <= k <= j ==> all_quiet(
            #[trigger] cycles[k],
        ),
{
    let c = quiet_count_after(0, cycles.take(j));
    lemma_power_save_condition(c, cycles[j]);
    lemma_quiet_count_trailing(cycles, j);
    lemma_quiet_count_bounded_after(cycles.take(j));
}

proof fn lemma_quiet_count_bounded_after(cycles: Seq<Seq<CoreUsage>>)
    ensures
        quiet_count_after(0, cycles) <= QUIET_CYCLES_BEFORE_POWER_SAVE,
    decreases cycles.len(),
{
    if cycles.len() > 0 {
        lemma_quiet_count_bounded_after(cycles.drop_last());
    }
}

/// From a fresh state, a run of quiet cycles applies power saving on every
/// thirty-first cycle and on no other: after `j` quiet cycles the count is
/// `j` modulo thirty-one.
pub proof fn lemma_quiet_cadence(cycles: Seq<Seq<CoreUsage>>, j: int)
    requires
        0 <= j <= cycles.len(),
        forall|k: int| 0 <= k < cycles.len() ==> all_quiet(#[trigger] cycles[k]),
    ensures
        quiet_count_after(0, cycles.take(j)) == j % (QUIET_CYCLES_BEFORE_POWER_SAVE + 1) as int,
        j < cycles.len() ==> (sets_power_save(
            cycle_actions(quiet_count_after(0, cycles.take(j)), cycles[j]),
        ) <==> j % (QUIET_CYCLES_BEFORE_POWER_SAVE + 1) as int == QUIET_CYCLES_BEFORE_POWER_SAVE),
    decreases j,
{
    if j > 0 {
        lemma_quiet_cadence(cycles, j - 1);
        assert(cycles.take(j).drop_last() =~= cycles.take(j - 1));
        assert(cycles.take(j).last() == cycles[j - 1]);
        assert(all_quiet(cycles[j - 1]));
        let m = (j - 1) % 31;
        assert(m == 30 ==> j % 31 == 0) by (nonlinear_arith)
            requires
                m == (j - 1) % 31,
                j > 0,
        ;
        assert(m < 30 ==> j % 31 == m + 1) by (nonlinear_arith)
            requires
                m == (j - 1) % 31,
                j > 0,
        ;
    }
    if j < cycles.len() {
        lemma_power_save_condition(quiet_count_after(0, cycles.take(j)), cycles[j]);
    }
}

/// When time elapsed and the idle time grew by no more than the total,
/// utilization lies between 0 and 100 percent.
pub proof fn lemma_usage_in_percent_range(u: CoreUsage)
    requires
        u.total_delta > 0,
        u.idle_delta <= u.total_delta,
    ensures
        !usage_above(u, 100),
        !usage_below(u, 0),
{
}

/// The decision of a cycle, stated from the time deltas themselves. A core
/// is highly loaded when `30 * total_delta > 100 * idle_delta` (above 70 %
/// busy), above the low threshold when `48 * total_delta > 100 * idle_delta`
/// (above 52 %), quiet when `48 * total_delta < 100 * idle_delta`, and
/// moderately loaded when it is above the low threshold and
/// `30 * total_delta < 100 * idle_delta`. Then:
/// - if some core is highly loaded, the cycle starts with the performance
///   preference and the long hold; else if some core is moderately loaded it
///   starts with the balanced preference;
/// - if every core is quiet (or none was read) and the count has reached
///   thirty, power saving comes just before the final pause and the count
///   restarts; with a lower count nothing more is done and the count grows
///   by one;
/// - otherwise the count restarts, and if some core is above the low
///   threshold the balanced preference comes just before the final pause;
/// - the cycle always ends with the regular pause, and holds nothing else.
pub proof fn lemma_cycle_decision(count: u64, us: Seq<CoreUsage>)
    ensures
        ({
            let a = cycle_actions(count, us);
            let next = next_quiet_cycles(count, us);
            let high = exists|i: int|
                0 <= i < us.len() && 30 * (#[trigger] us[i]).total_delta > 100 * us[i].idle_delta;
            let moderate = exists|i: int|
                0 <= i < us.len() && 30 * (#[trigger] us[i]).total_delta < 100 * us[i].idle_delta
                    && 48 * us[i].total_delta > 100 * us[i].idle_delta;
            let above = exists|i: int|
                0 <= i < us.len() && 48 * (#[trigger] us[i]).total_delta > 100 * us[i].idle_delta;
            let quiet = forall|i: int|
                0 <= i < us.len() ==> 48 * (#[trigger] us[i]).total_delta < 100 * us[i].idle_delta;
            let load_len: int = if high {
                2
            } else if moderate {
                1
            } else {
                0
            };
            let idle_len: int = if (quiet && count >= 30) || (!quiet && above) {
                1
            } else {
                0
            };
            &&& a.len() == load_len + idle_len + 1
            &&& a[a.len() - 1] == EppAction::Pause(CYCLE_PAUSE_MS)
            &&& high ==> a[0] == EppAction::SetEppAllCores(EPP_PERFORMANCE) && a[1]
                == EppAction::Pause(HIGH_LOAD_HOLD_MS)
            &&& !high && moderate ==> a[0] == EppAction::SetEppAllCores(EPP_BALANCED)
            &&& above ==> a[a.len() - 2] == EppAction::SetEppAllCores(EPP_BALANCED)
            &&& quiet && count >= 30 ==> a[a.len() - 2] == EppAction::SetEppAllCores(EPP_POWER_SAVE)
                && next == 0
            &&& quiet && count < 30 ==> next == count + 1
            &&& !quiet ==> next == 0
        }),
{
    let high = exists|i: int|
        0 <= i < us.len() && 30 * (#[trigger] us[i]).total_delta > 100 * us[i].idle_delta;
    let moderate = exists|i: int|
        0 <= i < us.len() && 30 * (#[trigger] us[i]).total_delta < 100 * us[i].idle_delta && 48
            * us[i].total_delta > 100 * us[i].idle_delta;
    let above = exists|i: int|
        0 <= i < us.len() && 48 * (#[trigger] us[i]).total_delta > 100 * us[i].idle_delta;
    let quiet = forall|i: int|
        0 <= i < us.len() ==> 48 * (#[trigger] us[i]).total_delta < 100 * us[i].idle_delta;
    if high {
        let i = choose|i: int|
            0 <= i < us.len() && 30 * (#[trigger] us[i]).total_delta > 100 * us[i].idle_delta;
        assert(is_high(us[i]));
    }
    if any_high(us) {
        let i = choose|i: int| 0 <= i < us.len() && is_high(#[trigger] us[i]);
        assert(30 * us[i].total_delta > 100 * us[i].idle_delta);
    }
    if moderate {
        let i = choose|i: int|
            0 <= i < us.len() && 30 * (#[trigger] us[i]).total_delta < 100 * us[i].idle_delta
                && 48 * us[i].total_delta > 100 * us[i].idle_delta;
        assert(is_moderate(us[i]));
    }
    if any_moderate(us) {
        let i = choose|i: int| 0 <= i < us.len() && is_moderate(#[trigger] us[i]);
        assert(30 * us[i].total_delta < 100 * us[i].idle_delta);
    }
    if above {
        let i = choose|i: int|
            0 <= i < us.len() && 48 * (#[trigger] us[i]).total_delta > 100 * us[i].idle_delta;
        assert(usage_above(us[i], LOW_LOAD_PERCENT as nat));
        assert(!usage_below(us[i], LOW_LOAD_PERCENT as nat));
    }
    if any_above_low(us) {
        let i = choose|i: int| 0 <= i < us.len() && usage_above(#[trigger] us[i], LOW_LOAD_PERCENT as nat);
        assert(48 * us[i].total_delta > 100 * us[i].idle_delta);
    }
    assert(quiet <==> all_quiet(us)) by {
        if quiet {
            assert forall|i: int| 0 <= i < us.len() implies usage_below(#[trigger] us[i], LOW_LOAD_PERCENT as nat) by {
                assert(48 * us[i].total_delta < 100 * us[i].idle_delta);
            }
        }
        if all_quiet(us) {
            assert forall|i: int| 0 <= i < us.len() implies 48 * (#[trigger] us[i]).total_delta < 100 * us[i].idle_delta by {
                assert(usage_below(us[i], LOW_LOAD_PERCENT as nat));
            }
        }
    }
}

/// The cores that the usages `us` list as highly loaded (`30 * total_delta >
/// 100 * idle_delta`, above 70 % busy): none for no usages, and a further
/// usage adds its core at the end exactly when it is highly loaded; so
/// every highly loaded core is listed, in order, and nothing else.
pub proof fn lemma_high_cores_law(us: Seq<CoreUsage>, u: CoreUsage)
    ensures
        high_cores(Seq::<CoreUsage>::empty()) == Seq::<usize>::empty(),
        30 * u.total_delta > 100 * u.idle_delta ==> high_cores(us.push(u)) == high_cores(us).push(
            u.core,
        ),
        !(30 * u.total_delta > 100 * u.idle_delta) ==> high_cores(us.push(u)) == high_cores(us),
        high_cores(us).len() <= us.len(),
        forall|i: int|
            0 <= i < us.len() && 30 * (#[trigger] us[i]).total_delta > 100 * us[i].idle_delta
                ==> high_cores(us).contains(us[i].core),
{
    assert(us.push(u).drop_last() =~= us);
    assert(us.push(u).last() == u);
    lemma_cores_where_members(us, |v: CoreUsage| is_high(v));
    lemma_cores_where_empty(us, |v: CoreUsage| is_high(v));
    assert forall|i: int|
        0 <= i < us.len() && 30 * (#[trigger] us[i]).total_delta > 100 * us[i].idle_delta implies high_cores(
        us,
    ).contains(us[i].core) by {
        assert((|v: CoreUsage| is_high(v))(us[i]));
    }
}

/// The cores that the usages `us` list as moderately loaded
/// (`30 * total_delta < 100 * idle_delta` and `48 * total_delta > 100 *
/// idle_delta`, between 52 % and 70 % busy): none for no usages, and a
/// further usage adds its core at the end exactly when it is moderately
/// loaded; so every moderately loaded core is listed, in order, and nothing
/// else.
pub proof fn lemma_moderate_cores_law(us: Seq<CoreUsage>, u: CoreUsage)
    ensures
        moderate_cores(Seq::<CoreUsage>::empty()) == Seq::<usize>::empty(),
        30 * u.total_delta < 100 * u.idle_delta && 48 * u.total_delta > 100 * u.idle_delta
            ==> moderate_cores(us.push(u)) == moderate_cores(us).push(u.core),
        !(30 * u.total_delta < 100 * u.idle_delta && 48 * u.total_delta > 100 * u.idle_delta)
            ==> moderate_cores(us.push(u)) == moderate_cores(us),
        moderate_cores(us).len() <= us.len(),
        forall|i: int|
            0 <= i < us.len() && 30 * (#[trigger] us[i]).total_delta < 100 * us[i].idle_delta && 48
                * us[i].total_delta > 100 * us[i].idle_delta ==> moderate_cores(us).contains(
                us[i].core,
            ),
{
    assert(us.push(u).drop_last() =~= us);
    assert(us.push(u).last() == u);
    lemma_cores_where_members(us, |v: CoreUsage| is_moderate(v));
    lemma_cores_where_empty(us, |v: CoreUsage| is_moderate(v));
    assert forall|i: int|
        0 <= i < us.len() && 30 * (#[trigger] us[i]).total_delta < 100 * us[i].idle_delta && 48
            * us[i].total_delta > 100 * us[i].idle_delta implies moderate_cores(us).contains(
        us[i].core,
    ) by {
        assert((|v: CoreUsage| is_moderate(v))(us[i]));
    }
}

proof fn lemma_cores_where_members(us: Seq<CoreUsage>, p: spec_fn(CoreUsage) -> bool)
    ensures
        forall|i: int| 0 <= i < us.len() && #[trigger] p(us[i]) ==> cores_where(us, p).contains(
            us[i].core,
        ),
    decreases us.len(),
{
    if us.len() > 0 {
        let init = us.drop_last();
        lemma_cores_where_members(init, p);
        let r = cores_where(init, p);
        assert forall|i: int| 0 <= i < us.len() && #[trigger] p(us[i]) implies cores_where(
            us,
            p,
        ).contains(us[i].core) by {
            if i < us.len() - 1 {
                assert(init[i] == us[i]);
                let k = choose|k: int| 0 <= k < r.len() && r[k] == init[i].core;
                if p(us.last()) {
                    assert(r.push(us.last().core)[k] == us[i].core);
                }
            } else {
                assert(r.push(us.last().core)[r.len() as int] == us[i].core);
            }
        }
    }
}

/// A cycle in which no time elapsed on any of its cores is neither loaded
/// nor quiet: it only pauses, and it resets the quiet count.
pub proof fn lemma_cycle_without_elapsed_time(count: u64, us: Seq<CoreUsage>)
    requires
        us.len() > 0,
        forall|i: int|
            0 <= i < us.len() ==> (#[trigger] us[i]).total_delta == 0 && us[i].idle_delta == 0,
    ensures
        cycle_actions(count, us) == seq![EppAction::Pause(CYCLE_PAUSE_MS)],
        next_quiet_cycles(count, us) == 0,
{
    assert(!usage_below(us[0], LOW_LOAD_PERCENT as nat));
    assert(cycle_actions(count, us) =~= seq![EppAction::Pause(CYCLE_PAUSE_MS)]);
}

} // verus!
