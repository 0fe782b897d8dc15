//! Reading per-core CPU time counters out of the lines of `/proc/stat`, and
//! turning two successive readings into per-core busy/idle deltas.

use vstd::prelude::*;
use crate::text::{
    chars_of, first_words, parse_u64, parse_u64_spec, views, words,
};

verus! {

/// The first four time columns of a `cpuN` line: user, nice, system, idle.
#[derive(Clone, Copy, Debug, PartialEq, Eq, Structural)]
pub struct CpuTimes {
    pub user: u64,
    pub nice: u64,
    pub system: u64,
    pub idle: u64,
}

/// What a single line of `/proc/stat` is to the monitor.
#[derive(Clone, Copy, Debug, PartialEq, Eq, Structural)]
pub enum StatLine {
    /// The first word does not start with `cpu` (for example `intr`, `ctxt`).
    Other,
    /// A `cpu...` line with at least four time columns.
    Core(CpuTimes),
    /// A line without words, or a `cpu...` line with fewer than four
    /// columns after its name.
    Malformed,
}

/// Whether the word begins with the three letters `cpu`.
pub open spec fn starts_with_cpu(w: Seq<char>) -> bool {
    w.len() >= 3 && w[0] == 'c' && w[1] == 'p' && w[2] == 'u'
}

/// A time column: its value as an unsigned decimal number, or 0 when it is
/// not one.
pub open spec fn field_value(w: Seq<char>) -> u64 {
    match parse_u64_spec(w) {
        Some(v) => v,
        None => 0,
    }
}

/// The meaning of one line of `/proc/stat`.
pub open spec fn stat_line_spec(line: Seq<char>) -> StatLine {
    let f = words(line);
    if f.len() == 0 {
        StatLine::Malformed
    } else if !starts_with_cpu(f[0]) {
        StatLine::Other
    } else if f.len() < 5 {
        StatLine::Malformed
    } else {
        StatLine::Core(
            CpuTimes {
                user: field_value(f[1]),
                nice: field_value(f[2]),
                system: field_value(f[3]),
                idle: field_value(f[4]),
            },
        )
    }
}

/// What a line is, stated from its words. A line without words is
/// malformed. A line whose first word does not begin with the letters `cpu`
/// is of another kind. A line whose first word begins with `cpu` (whatever
/// follows, as in `cpu`, `cpu7` or `cpu10`) is malformed when it has fewer
/// than five words; otherwise it is a core line whose times are its second
/// to fifth words, each read as an unsigned decimal number or 0, however
/// many words follow them.
pub proof fn lemma_stat_line_law(line: Seq<char>)
    ensures
        ({
            let f = words(line);
            let cpu = f.len() > 0 && f[0].len() >= 3 && f[0][0] == 'c' && f[0][1] == 'p' && f[0][2]
                == 'u';
            &&& f.len() == 0 ==> stat_line_spec(line) == StatLine::Malformed
            &&& f.len() > 0 && !cpu ==> stat_line_spec(line) == StatLine::Other
            &&& cpu && f.len() < 5 ==> stat_line_spec(line) == StatLine::Malformed
            &&& cpu && f.len() >= 5 ==> stat_line_spec(line) == StatLine::Core(
                CpuTimes {
                    user: match parse_u64_spec(f[1]) {
                        Some(v) => v,
                        None => 0,
                    },
                    nice: match parse_u64_spec(f[2]) {
                        Some(v) => v,
                        None => 0,
                    },
                    system: match parse_u64_spec(f[3]) {
                        Some(v) => v,
                        None => 0,
                    },
                    idle: match parse_u64_spec(f[4]) {
                        Some(v) => v,
                        None => 0,
                    },
                },
            )
        }),
{
}

fn field_or_zero(w: &Vec<char>) -> (v: u64)
    ensures
        v == field_value(w@),
{
    match parse_u64(w) {
        Some(v) => v,
        None => 0,
    }
}

/// Classifies one line of `/proc/stat` and reads its time columns.
pub fn parse_stat_line(line: &str) -> (res: StatLine)
    ensures
        res == stat_line_spec(line@),
{
    let chars = chars_of(line);
    let f = first_words(&chars, 5);
    let ghost all = words(line@);
    assert(forall|k: int| 0 <= k < f.len() ==> #[trigger] all[k] == f@[k]@) by {
        assert forall|k: int| 0 <= k < f.len() implies #[trigger] all[k] == f@[k]@ by {
            assert(views(f@)[k] == all.take(f.len() as int)[k]);
        }
    }
    if f.len() == 0 {
        return StatLine::Malformed;
    }
    let w0 = &f[0];
    if !(w0.len() >= 3 && w0[0] == 'c' && w0[1] == 'p' && w0[2] == 'u') {
        return StatLine::Other;
    }
    if f.len() < 5 {
        return StatLine::Malformed;
    }
    StatLine::Core(
        CpuTimes {
            user: field_or_zero(&f[1]),
            nice: field_or_zero(&f[2]),
            system: field_or_zero(&f[3]),
            idle: field_or_zero(&f[4]),
        },
    )
}

/// The counters the monitor keeps for one core between two readings: the
/// sum of the four time columns, then user, nice and idle.
#[derive(Clone, Copy, Debug, PartialEq, Eq, Structural)]
pub struct CoreCounters {
    pub total: u64,
    pub user: u64,
    pub nice: u64,
    pub idle: u64,
}

/// How much time one core spent in all, and idle, between two readings.
#[derive(Clone, Copy, Debug, PartialEq, Eq, Structural)]
pub struct CoreUsage {
    pub core: usize,
    pub idle_delta: u64,
    pub total_delta: u64,
}

/// Why a reading could not be taken; each carries the index of the line.
#[derive(Clone, Copy, Debug, PartialEq, Eq, Structural)]
pub enum SampleError {
    /// The line has no words, or is a `cpu...` line with too few columns.
    MalformedLine(usize),
    /// The four time columns of the line add up to more than 64 bits hold.
    CounterOverflow(usize),
    /// The line describes a core beyond the number of cores being tracked.
    UnknownCore(usize),
    /// The total or idle time of the line is below the previous reading.
    CounterWentBack(usize),
}

/// What one line contributes to a reading.
#[derive(Clone, Copy, Debug, PartialEq, Eq, Structural)]
pub enum LineOutcome {
    Skipped,
    Sampled(CoreUsage, CoreCounters),
    Failed(SampleError),
}

/// The contribution of line `index` (counted from 0) of `/proc/stat`,
/// given the counters of the previous reading. The first line (the total
/// over all cores) and lines that could not be read (`None`) are skipped;
/// line `index` of a `cpu...` kind describes core `index - 1`.
pub open spec fn line_outcome(line: Option<String>, index: int, prev: Seq<CoreCounters>) -> LineOutcome {
    if index == 0 {
        LineOutcome::Skipped
    } else {
        match line {
            None => LineOutcome::Skipped,
            Some(l) => match stat_line_spec(l@) {
                StatLine::Other => LineOutcome::Skipped,
                StatLine::Malformed => LineOutcome::Failed(SampleError::MalformedLine(index as usize)),
                StatLine::Core(t) => {
                    let total = t.user + t.nice + t.system + t.idle;
                    let core = index - 1;
                    if total > u64::MAX {
                        LineOutcome::Failed(SampleError::CounterOverflow(index as usize))
                    } else if core >= prev.len() {
                        LineOutcome::Failed(SampleError::UnknownCore(index as usize))
                    } else if total < prev[core].total || t.idle < prev[core].idle {
                        LineOutcome::Failed(SampleError::CounterWentBack(index as usize))
                    } else {
                        LineOutcome::Sampled(
                            CoreUsage {
                                core: core as usize,
                                idle_delta: (t.idle - prev[core].idle) as u64,
                                total_delta: (total - prev[core].total) as u64,
                            },
                            CoreCounters {
                                total: total as u64,
                                user: t.user,
                                nice: t.nice,
                                idle: t.idle,
                            },
                        )
                    }
                },
            },
        }
    }
}

/// The reading made of the first `n` lines: the usages of the sampled cores
/// in line order and the counters to keep for the next reading, or the
/// failure of the first line that fails.
pub open spec fn sample_lines(lines: Seq<Option<String>>, prev: Seq<CoreCounters>, n: nat) -> Result<
    (Seq<CoreUsage>, Seq<CoreCounters>),
    SampleError,
>
    decreases n,
{
    if n == 0 {
        Ok((seq![], prev))
    } else {
        match sample_lines(lines, prev, (n - 1) as nat) {
            Err(e) => Err(e),
            Ok((us, cur)) => match line_outcome(lines[n - 1], n - 1, prev) {
                LineOutcome::Skipped => Ok((us, cur)),
                LineOutcome::Failed(e) => Err(e),
                LineOutcome::Sampled(u, c) => Ok((us.push(u), cur.update(u.core as int, c))),
            },
        }
    }
}

/// The reading of a whole file.
pub open spec fn sample_all(lines: Seq<Option<String>>, prev: Seq<CoreCounters>) -> Result<
    (Seq<CoreUsage>, Seq<CoreCounters>),
    SampleError,
> {
    sample_lines(lines, prev, lines.len())
}

proof fn lemma_sample_lines_shape(lines: Seq<Option<String>>, prev: Seq<CoreCounters>, n: nat)
    requires
        n <= lines.len(),
    ensures
        sample_lines(lines, prev, n) matches Ok((us, cur)) ==> {
            &&& cur.len() == prev.len()
            &&& forall|j: int| n - 1 <= j < cur.len() ==> #[trigger] cur[j] == prev[j]
        },
    decreases n,
{
    if n > 0 {
        lemma_sample_lines_shape(lines, prev, (n - 1) as nat);
    }
}

proof fn lemma_sample_error_persists(
    lines: Seq<Option<String>>,
    prev: Seq<CoreCounters>,
    m: nat,
    n: nat,
)
    requires
        m <= n,
        sample_lines(lines, prev, m) is Err,
    ensures
        sample_lines(lines, prev, n) == sample_lines(lines, prev, m),
    decreases n - m,
{
    if m < n {
        lemma_sample_error_persists(lines, prev, m, (n - 1) as nat);
    }
}

/// The usage of a core over a span in which no time elapsed.
pub open spec fn no_elapsed_time(u: CoreUsage) -> CoreUsage {
    CoreUsage { core: u.core, idle_delta: 0, total_delta: 0 }
}

proof fn lemma_sample_ok_prefix(lines: Seq<Option<String>>, prev: Seq<CoreCounters>, m: nat, n: nat)
    requires
        m <= n,
        sample_lines(lines, prev, n) is Ok,
    ensures
        sample_lines(lines, prev, m) is Ok,
{
    if sample_lines(lines, prev, m) is Err {
        lemma_sample_error_persists(lines, prev, m, n);
    }
}

proof fn lemma_sampled_counters_kept(
    lines: Seq<Option<String>>,
    prev: Seq<CoreCounters>,
    i: nat,
    n: nat,
)
    requires
        i < n <= lines.len(),
        lines.len() <= usize::MAX,
        sample_lines(lines, prev, n) is Ok,
        line_outcome(lines[i as int], i as int, prev) is Sampled,
    ensures
        sample_lines(lines, prev, n)->Ok_0.1[line_outcome(
            lines[i as int],
            i as int,
            prev,
        )->Sampled_0.core as int] == line_outcome(lines[i as int], i as int, prev)->Sampled_1,
    decreases n,
{
    lemma_sample_ok_prefix(lines, prev, (n - 1) as nat, n);
    lemma_sample_lines_shape(lines, prev, (n - 1) as nat);
    let u = line_outcome(lines[i as int], i as int, prev)->Sampled_0;
    assert(u.core as int == i - 1);
    if i + 1 < n {
        lemma_sampled_counters_kept(lines, prev, i, (n - 1) as nat);
        let last = line_outcome(lines[n - 1], n - 1, prev);
        if last is Sampled {
            assert(last->Sampled_0.core as int == n - 2);
        }
    }
}

/// Reading the same lines twice in a row: the second reading succeeds
/// whenever the first did, finds that no time elapsed on any core it
/// samples, and leaves the counters as the first reading left them.
pub proof fn lemma_same_reading_twice(lines: Seq<Option<String>>, prev: Seq<CoreCounters>)
    requires
        lines.len() <= usize::MAX,
        sample_all(lines, prev) is Ok,
    ensures
        ({
            let (us, cur) = sample_all(lines, prev)->Ok_0;
            sample_all(lines, cur) == Ok::<(Seq<CoreUsage>, Seq<CoreCounters>), SampleError>(
                (us.map_values(|u: CoreUsage| no_elapsed_time(u)), cur),
            )
        }),
{
    let n = lines.len();
    let cur = sample_all(lines, prev)->Ok_0.1;
    lemma_sample_lines_shape(lines, prev, n);
    lemma_same_reading_prefix(lines, prev, cur, n, n);
}

proof fn lemma_same_reading_prefix(
    lines: Seq<Option<String>>,
    prev: Seq<CoreCounters>,
    cur: Seq<CoreCounters>,
    m: nat,
    n: nat,
)
    requires
        m <= n == lines.len(),
        lines.len() <= usize::MAX,
        sample_lines(lines, prev, n) is Ok,
        cur == sample_lines(lines, prev, n)->Ok_0.1,
    ensures
        sample_lines(lines, cur, m) == Ok::<(Seq<CoreUsage>, Seq<CoreCounters>), SampleError>(
            (sample_lines(lines, prev, m)->Ok_0.0.map_values(|u: CoreUsage| no_elapsed_time(u)), cur),
        ),
    decreases m,
{
    lemma_sample_ok_prefix(lines, prev, m, n);
    lemma_sample_lines_shape(lines, prev, n);
    if m == 0 {
        assert(Seq::<CoreUsage>::empty().map_values(|u: CoreUsage| no_elapsed_time(u)) =~= Seq::<
            CoreUsage,
        >::empty());
    } else {
        let k = (m - 1) as nat;
        lemma_same_reading_prefix(lines, prev, cur, k, n);
        lemma_sample_ok_prefix(lines, prev, k, n);
        let us = sample_lines(lines, prev, k)->Ok_0.0;
        match line_outcome(lines[k as int], k as int, prev) {
            LineOutcome::Skipped => {
                assert(line_outcome(lines[k as int], k as int, cur) == LineOutcome::Skipped);
            },
            LineOutcome::Failed(e) => {
                assert(false);
            },
            LineOutcome::Sampled(u, c) => {
                lemma_sampled_counters_kept(lines, prev, k, n);
                assert(u.core as int == k - 1);
                assert(cur[u.core as int] == c);
                assert(line_outcome(lines[k as int], k as int, cur) == LineOutcome::Sampled(
                    no_elapsed_time(u),
                    c,
                ));
                assert(cur.update(u.core as int, c) =~= cur);
                assert(us.push(u).map_values(|u: CoreUsage| no_elapsed_time(u)) =~= us.map_values(
                    |u: CoreUsage| no_elapsed_time(u),
                ).push(no_elapsed_time(u)));
            },
        }
    }
}

proof fn lemma_sampled_line_kept_usage(
    lines: Seq<Option<String>>,
    prev: Seq<CoreCounters>,
    i: nat,
    n: nat,
)
    requires
        i < n <= lines.len(),
        sample_lines(lines, prev, n) is Ok,
        line_outcome(lines[i as int], i as int, prev) is Sampled,
    ensures
        sample_lines(lines, prev, n)->Ok_0.0.contains(
            line_outcome(lines[i as int], i as int, prev)->Sampled_0,
        ),
    decreases n,
{
    lemma_sample_ok_prefix(lines, prev, (n - 1) as nat, n);
    let u = line_outcome(lines[i as int], i as int, prev)->Sampled_0;
    let us = sample_lines(lines, prev, (n - 1) as nat)->Ok_0.0;
    if i + 1 < n {
        lemma_sampled_line_kept_usage(lines, prev, i, (n - 1) as nat);
        let k = choose|k: int| 0 <= k < us.len() && us[k] == u;
        let last = line_outcome(lines[n - 1], n - 1, prev);
        if last is Sampled {
            assert(us.push(last->Sampled_0)[k] == u);
        }
    } else {
        assert(us.push(u)[us.len() as int] == u);
    }
}

proof fn lemma_untouched_core(lines: Seq<Option<String>>, prev: Seq<CoreCounters>, j: int, n: nat)
    requires
        n <= lines.len() <= usize::MAX,
        0 <= j < prev.len(),
        sample_lines(lines, prev, n) is Ok,
        j + 1 < n ==> !(line_outcome(lines[j + 1], j + 1, prev) is Sampled),
    ensures
        sample_lines(lines, prev, n)->Ok_0.1[j] == prev[j],
    decreases n,
{
    if n > 0 {
        lemma_sample_ok_prefix(lines, prev, (n - 1) as nat, n);
        lemma_untouched_core(lines, prev, j, (n - 1) as nat);
        lemma_sample_lines_shape(lines, prev, (n - 1) as nat);
        let last = line_outcome(lines[n - 1], n - 1, prev);
        if last is Sampled {
            assert(last->Sampled_0.core as int == n - 2);
        }
    }
}

proof fn lemma_usages_come_from_lines(lines: Seq<Option<String>>, prev: Seq<CoreCounters>, n: nat)
    requires
        n <= lines.len(),
        sample_lines(lines, prev, n) is Ok,
    ensures
        forall|k: int|
            0 <= k < sample_lines(lines, prev, n)->Ok_0.0.len() ==> exists|i: int|
                0 <= i < n && #[trigger] line_outcome(lines[i], i, prev) is Sampled && line_outcome(
                    lines[i],
                    i,
                    prev,
                )->Sampled_0 == #[trigger] sample_lines(lines, prev, n)->Ok_0.0[k],
    decreases n,
{
    if n > 0 {
        lemma_sample_ok_prefix(lines, prev, (n - 1) as nat, n);
        lemma_usages_come_from_lines(lines, prev, (n - 1) as nat);
        let us = sample_lines(lines, prev, (n - 1) as nat)->Ok_0.0;
        let all = sample_lines(lines, prev, n)->Ok_0.0;
        assert forall|k: int| 0 <= k < all.len() implies exists|i: int|
            0 <= i < n && #[trigger] line_outcome(lines[i], i, prev) is Sampled && line_outcome(
                lines[i],
                i,
                prev,
            )->Sampled_0 == #[trigger] all[k] by {
            if k < us.len() {
                assert(all[k] == us[k]);
                let i = choose|i: int|
                    0 <= i < n - 1 && #[trigger] line_outcome(lines[i], i, prev) is Sampled
                        && line_outcome(lines[i], i, prev)->Sampled_0 == us[k];
                assert(0 <= i < n);
            } else {
                let i = n - 1;
                assert(line_outcome(lines[i], i, prev) is Sampled);
            }
        }
    }
}

/// The reading of a `cpu...` line. In a reading that succeeds, for every
/// line `i >= 1` whose first word starts with `cpu`: core `i - 1` is
/// tracked; the line's first four time columns (each 0 when it is not a
/// number; later columns play no part) add up without overflow to a total no
/// less than the core's previous total, and its idle column is no less than
/// the previous idle; the reading holds the usage of core `i - 1` made of
/// the two differences; and the core's counters become the line's total,
/// user, nice and idle.
pub proof fn lemma_reading_of_core_line(lines: Seq<Option<String>>, prev: Seq<CoreCounters>, i: int)
    requires
        lines.len() <= usize::MAX,
        sample_all(lines, prev) is Ok,
        1 <= i < lines.len(),
        lines[i] is Some,
        stat_line_spec(lines[i]->Some_0@) is Core,
    ensures
        ({
            let t = stat_line_spec(lines[i]->Some_0@)->Core_0;
            let total = t.user + t.nice + t.system + t.idle;
            let us = sample_all(lines, prev)->Ok_0.0;
            let cur = sample_all(lines, prev)->Ok_0.1;
            &&& i - 1 < prev.len()
            &&& total <= u64::MAX
            &&& prev[i - 1].total <= total
            &&& prev[i - 1].idle <= t.idle
            &&& cur[i - 1] == CoreCounters {
                total: total as u64,
                user: t.user,
                nice: t.nice,
                idle: t.idle,
            }
            &&& us.contains(
                CoreUsage {
                    core: (i - 1) as usize,
                    idle_delta: (t.idle - prev[i - 1].idle) as u64,
                    total_delta: (total - prev[i - 1].total) as u64,
                },
            )
        }),
{
    let n = lines.len();
    if line_outcome(lines[i], i, prev) is Failed {
        assert(sample_lines(lines, prev, (i + 1) as nat) is Err) by {
            lemma_sample_ok_prefix(lines, prev, i as nat, n);
        }
        lemma_sample_ok_prefix(lines, prev, (i + 1) as nat, n);
    }
    assert(line_outcome(lines[i], i, prev) is Sampled);
    lemma_sampled_counters_kept(lines, prev, i as nat, n);
    lemma_sampled_line_kept_usage(lines, prev, i as nat, n);
}

/// `u` is the usage that some `cpu...` line `i >= 1` of the reading gives.
pub open spec fn usage_of_core_line(lines: Seq<Option<String>>, prev: Seq<CoreCounters>, u: CoreUsage) -> bool {
    exists|i: int|
        1 <= i < lines.len() && lines[i] is Some && stat_line_spec(lines[i]->Some_0@) is Core
            && #[trigger] line_outcome(lines[i], i, prev) == LineOutcome::Sampled(
            u,
            line_outcome(lines[i], i, prev)->Sampled_1,
        )
}

/// In a reading that succeeds, a core whose line is not a `cpu...` line (or
/// is missing, or could not be read) keeps its previous counters, and every
/// usage of the reading is that of some `cpu...` line of it.
pub proof fn lemma_reading_other_lines(lines: Seq<Option<String>>, prev: Seq<CoreCounters>, j: int)
    requires
        lines.len() <= usize::MAX,
        sample_all(lines, prev) is Ok,
        0 <= j < prev.len(),
        !(j + 1 < lines.len() && lines[j + 1] is Some && stat_line_spec(
            lines[j + 1]->Some_0@,
        ) is Core),
    ensures
        sample_all(lines, prev)->Ok_0.1[j] == prev[j],
        forall|k: int|
            0 <= k < sample_all(lines, prev)->Ok_0.0.len() ==> usage_of_core_line(
                lines,
                prev,
                #[trigger] sample_all(lines, prev)->Ok_0.0[k],
            ),
{
    let n = lines.len();
    lemma_untouched_core(lines, prev, j, n);
    lemma_usages_come_from_lines(lines, prev, n);
    let us = sample_all(lines, prev)->Ok_0.0;
    assert forall|k: int| 0 <= k < us.len() implies usage_of_core_line(
        lines,
        prev,
        #[trigger] us[k],
    ) by {
        assert(us[k] == sample_lines(lines, prev, n)->Ok_0.0[k]);
        let i = choose|i: int|
            0 <= i < n && #[trigger] line_outcome(lines[i], i, prev) is Sampled && line_outcome(
                lines[i],
                i,
                prev,
            )->Sampled_0 == sample_lines(lines, prev, n)->Ok_0.0[k];
        assert(i >= 1);
        assert(lines[i] is Some);
        assert(stat_line_spec(lines[i]->Some_0@) is Core);
        assert(line_outcome(lines[i], i, prev) == LineOutcome::Sampled(
            us[k],
            line_outcome(lines[i], i, prev)->Sampled_1,
        ));
    }
}

/// Whether a reading accepts line `index`: the first line, a line that could
/// not be read, and a line whose first word does not begin with `cpu` are
/// always accepted; a malformed line never is; a core line is accepted when
/// it describes a tracked core, its four time columns add up within 64
/// bits, and neither that total nor its idle time is below the core's
/// previous counters.
pub open spec fn line_accepted(line: Option<String>, index: int, prev: Seq<CoreCounters>) -> bool {
    index == 0 || match line {
        None => true,
        Some(l) => match stat_line_spec(l@) {
            StatLine::Other => true,
            StatLine::Malformed => false,
            StatLine::Core(t) => {
                &&& 0 <= index - 1 < prev.len()
                &&& t.user + t.nice + t.system + t.idle <= u64::MAX
                &&& prev[index - 1].total <= t.user + t.nice + t.system + t.idle
                &&& prev[index - 1].idle <= t.idle
            },
        },
    }
}

proof fn lemma_sample_lines_ok_iff(lines: Seq<Option<String>>, prev: Seq<CoreCounters>, n: nat)
    requires
        n <= lines.len(),
    ensures
        sample_lines(lines, prev, n) is Ok <==> forall|i: int|
            0 <= i < n ==> line_accepted(#[trigger] lines[i], i, prev),
    decreases n,
{
    if n > 0 {
        lemma_sample_lines_ok_iff(lines, prev, (n - 1) as nat);
        let k = n - 1;
        assert(line_outcome(lines[k], k, prev) is Failed <==> !line_accepted(lines[k], k, prev));
        if !(forall|i: int| 0 <= i < n ==> line_accepted(#[trigger] lines[i], i, prev)) {
            let i = choose|i: int| 0 <= i < n && !line_accepted(#[trigger] lines[i], i, prev);
            if i < k {
                assert(!(forall|j: int| 0 <= j < k ==> line_accepted(#[trigger] lines[j], j, prev)));
            }
        }
    }
}

/// A reading succeeds exactly when it accepts every line: extra columns,
/// lines of other kinds and lines that could not be read never make it
/// fail; a malformed line, an untracked core, an overflowing sum or a
/// counter below its previous value always do.
pub proof fn lemma_reading_succeeds_iff(lines: Seq<Option<String>>, prev: Seq<CoreCounters>)
    ensures
        sample_all(lines, prev) is Ok <==> forall|i: int|
            0 <= i < lines.len() ==> line_accepted(#[trigger] lines[i], i, prev),
{
    lemma_sample_lines_ok_iff(lines, prev, lines.len());
}

/// Takes a reading: for every line of the file, the core it describes, how
/// much total and idle time passed since `prev`, and the new counters.
pub fn sample_cores(prev: &Vec<CoreCounters>, lines: &Vec<Option<String>>) -> (res: Result<
    (Vec<CoreUsage>, Vec<CoreCounters>),
    SampleError,
>)
    ensures
        res is Ok <==> sample_all(lines@, prev@) is Ok,
        res matches Ok((us, cur)) ==> sample_all(lines@, prev@) == Ok::<
            (Seq<CoreUsage>, Seq<CoreCounters>),
            SampleError,
        >((us@, cur@)),
        res matches Err(e) ==> sample_all(lines@, prev@) == Err::<
            (Seq<CoreUsage>, Seq<CoreCounters>),
            SampleError,
        >(e),
{
    let mut cur: Vec<CoreCounters> = Vec::new();
    for k in 0..prev.len()
        invariant
            cur@ == prev@.take(k as int),
    {
        cur.push(prev[k]);
        assert(cur@ =~= prev@.take(k + 1));
    }
    assert(cur@ =~= prev@);
    let mut usages: Vec<CoreUsage> = Vec::new();
    let n = lines.len();
    for i in 0..n
        invariant
            n == lines@.len(),
            sample_lines(lines@, prev@, i as nat) == Ok::<
                (Seq<CoreUsage>, Seq<CoreCounters>),
                SampleError,
            >((usages@, cur@)),
    {
        proof {
            lemma_sample_lines_shape(lines@, prev@, i as nat);
        }
        if i > 0 {
            match &lines[i] {
                None => {},
                Some(l) => {
                    match parse_stat_line(l.as_str()) {
                        StatLine::Other => {},
                        StatLine::Malformed => {
                            proof {
 lemma_sample_error_persists(lines@, prev@, (i + 1) as nat, n as nat);
}
return Err(SampleError::MalformedLine(i));
                        },
                        StatLine::Core(t) => {
                            let total = match t.user.checked_add(t.nice) {
                                None => None,
                                Some(a) => match a.checked_add(t.system) {
                                    None => None,
                                    Some(b) => b.checked_add(t.idle),
                                },
                            };
                            let total = match total {
                                None => {
                                    proof {
 lemma_sample_error_persists(lines@, prev@, (i + 1) as nat, n as nat);
}
return Err(SampleError::CounterOverflow(i));
                                },
                                Some(v) => v,
                            };
                            let core = i - 1;
                            if core >= cur.len() {
                                proof {
 lemma_sample_error_persists(lines@, prev@, (i + 1) as nat, n as nat);
}
return Err(SampleError::UnknownCore(i));
                            }
                            let p = cur[core];
                            if total < p.total || t.idle < p.idle {
                                proof {
 lemma_sample_error_persists(lines@, prev@, (i + 1) as nat, n as nat);
}
return Err(SampleError::CounterWentBack(i));
                            }
                            usages.push(
                                CoreUsage {
                                    core,
                                    idle_delta: t.idle - p.idle,
                                    total_delta: total - p.total,
                                },
                            );
                            cur.set(
                                core,
                                CoreCounters { total, user: t.user, nice: t.nice, idle: t.idle },
                            );
                        },
                    }
                },
            }
        }
    }
    Ok((usages, cur))
}

} // verus!
