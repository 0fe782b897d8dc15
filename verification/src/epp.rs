//! Where and what to write to set a core's energy-performance preference
//! through cpufreq's sysfs interface.

use vstd::prelude::*;
use vstd::string::StringExecFns;
use crate::text::{decimal, decimal_string, lemma_decimal_injective, push_decimal};

verus! {

/// The sysfs file that holds the EPP of core `core`.
pub open spec fn epp_path_spec(core: u32) -> Seq<char> {
    "/sys/devices/system/cpu/cpu"@ + decimal(core as nat) + "/cpufreq/energy_performance_preference"@
}

/// One file write that sets the EPP of one core.
#[derive(Debug)]
pub struct EppWrite {
    pub core: u32,
    pub path: String,
    pub value: String,
}

/// `w` sets the EPP of core `core` to `epp`: it writes the decimal value
/// into that core's sysfs file.
pub open spec fn is_epp_write(w: EppWrite, core: u32, epp: u32) -> bool {
    &&& w.core == core
    &&& w.path@ == epp_path_spec(core)
    &&& w.value@ == decimal(epp as nat)
}

/// The sysfs path of core `core`'s EPP file.
pub fn epp_file_path(core: u32) -> (p: String)
    ensures
        p@ == epp_path_spec(core),
{
    let mut p = String::new();
    p.append("/sys/devices/system/cpu/cpu");
    push_decimal(&mut p, core as u64);
    p.append("/cpufreq/energy_performance_preference");
    assert(p@ =~= epp_path_spec(core));
    p
}

/// The text written into an EPP file to select `epp`.
pub fn epp_value_text(epp: u32) -> (s: String)
    ensures
        s@ == decimal(epp as nat),
{
    decimal_string(epp as u64)
}

/// The write that sets core `core`'s EPP to `epp`.
pub fn epp_write_for_core(core: u32, epp: u32) -> (w: EppWrite)
    ensures
        is_epp_write(w, core, epp),
{
    EppWrite { core, path: epp_file_path(core), value: epp_value_text(epp) }
}

/// The writes that set the EPP of cores `0..num_cores` to `epp`, in core
/// order.
pub fn epp_writes(num_cores: usize, epp: u32) -> (ws: Vec<EppWrite>)
    ensures
        ws.len() == num_cores,
        forall|i: int| 0 <= i < num_cores ==> is_epp_write(#[trigger] ws@[i], i as u32, epp),
        are_epp_writes(ws@, num_cores as nat, epp),
{
    let mut ws: Vec<EppWrite> = Vec::new();
    for i in 0..num_cores
        invariant
            ws.len() == i,
            forall|k: int| 0 <= k < i ==> is_epp_write(#[trigger] ws@[k], k as u32, epp),
    {
        ws.push(epp_write_for_core(i as u32, epp));
    }
    ws
}

/// The number of CPUs that `num_cpus::get` reports for this process.
/// Its documentation promises at least one; which number comes back depends
/// on the machine, the process's CPU affinity and its cgroup quota, so
/// nothing more is stated.
#[verifier::external_body]
pub(crate) fn cpu_count() -> (n: usize)
    ensures
        n >= 1,
{
    num_cpus::get()
}

/// The writes that set the EPP of every CPU of this machine to `epp`, in
/// core order: one per CPU that `num_cpus` counts.
pub fn epp_writes_for_all_cores(epp: u32) -> (ws: Vec<EppWrite>)
    ensures
        ws.len() >= 1,
        forall|i: int| 0 <= i < ws.len() ==> is_epp_write(#[trigger] ws@[i], i as u32, epp),
        are_epp_writes(ws@, ws.len() as nat, epp),
{
    let n = cpu_count();
    epp_writes(n, epp)
}

/// File contents, by path, after performing the writes `ws` in order on
/// `files`: each write replaces the whole content of its file.
pub open spec fn apply_writes(files: Map<Seq<char>, Seq<char>>, ws: Seq<EppWrite>) -> Map<
    Seq<char>,
    Seq<char>,
>
    decreases ws.len(),
{
    if ws.len() == 0 {
        files
    } else {
        apply_writes(files, ws.drop_last()).insert(ws.last().path@, ws.last().value@)
    }
}

/// The EPP files of cores `0..n`.
pub open spec fn epp_paths(n: nat) -> Set<Seq<char>> {
    Set::new(|p: Seq<char>| exists|i: int| 0 <= i < n && p == #[trigger] epp_path_spec(i as u32))
}

/// The EPP files of cores `0..n`, each holding the decimal text of `epp`.
pub open spec fn epp_files(n: nat, epp: u32) -> Map<Seq<char>, Seq<char>> {
    epp_paths(n).mk_map(|p: Seq<char>| decimal(epp as nat))
}

/// `ws` is what `epp_writes(n, epp)` returns: one write per core `0..n`.
pub open spec fn are_epp_writes(ws: Seq<EppWrite>, n: nat, epp: u32) -> bool {
    &&& ws.len() == n
    &&& forall|i: int| 0 <= i < n ==> is_epp_write(#[trigger] ws[i], i as u32, epp)
}

/// Performing the writes for cores `0..n` leaves every other file as it was
/// and every EPP file of those cores holding the decimal text of `epp`.
pub proof fn lemma_apply_epp_writes(files: Map<Seq<char>, Seq<char>>, ws: Seq<EppWrite>, n: nat, epp: u32)
    requires
        are_epp_writes(ws, n, epp),
    ensures
        apply_writes(files, ws) == files.union_prefer_right(epp_files(n, epp)),
    decreases n,
{
    if n > 0 {
        let m = (n - 1) as nat;
        let prefix = ws.drop_last();
        assert forall|i: int| 0 <= i < m implies is_epp_write(#[trigger] prefix[i], i as u32, epp) by {
            assert(prefix[i] == ws[i]);
        }
        lemma_apply_epp_writes(files, prefix, m, epp);
        let last = ws.last();
        assert(is_epp_write(ws[m as int], m as u32, epp));
        let lhs = apply_writes(files, ws);
        let rhs = files.union_prefer_right(epp_files(n, epp));
        assert forall|p: Seq<char>| epp_paths(n).contains(p) <==> (epp_paths(m).contains(p) || p
            == last.path@) by {
            if epp_paths(n).contains(p) {
                let i = choose|i: int| 0 <= i < n && p == #[trigger] epp_path_spec(i as u32);
                if i < m {
                    assert(epp_paths(m).contains(p));
                }
            }
            if p == last.path@ {
                assert(p == epp_path_spec(m as u32));
            }
            if epp_paths(m).contains(p) {
                let i = choose|i: int| 0 <= i < m && p == #[trigger] epp_path_spec(i as u32);
                assert(0 <= i < n);
            }
        }
        assert(lhs =~= rhs);
    } else {
        assert(files.union_prefer_right(epp_files(0, epp)) =~= files);
    }
}

/// Setting every core's EPP to `a` and then to `b` leaves the files as
/// setting it to `b` alone does; in particular setting the same value twice
/// leaves them as setting it once.
pub proof fn lemma_epp_writes_last_wins(
    files: Map<Seq<char>, Seq<char>>,
    n: nat,
    a: u32,
    b: u32,
    wa: Seq<EppWrite>,
    wb: Seq<EppWrite>,
)
    requires
        are_epp_writes(wa, n, a),
        are_epp_writes(wb, n, b),
    ensures
        apply_writes(apply_writes(files, wa), wb) == apply_writes(files, wb),
        apply_writes(files, wb) == files.union_prefer_right(epp_files(n, b)),
        forall|i: int|
            0 <= i < n ==> #[trigger] apply_writes(apply_writes(files, wa), wb)[epp_path_spec(
                i as u32,
            )] == decimal(b as nat),
{
    lemma_apply_epp_writes(files, wa, n, a);
    lemma_apply_epp_writes(apply_writes(files, wa), wb, n, b);
    lemma_apply_epp_writes(files, wb, n, b);
    assert(files.union_prefer_right(epp_files(n, a)).union_prefer_right(epp_files(n, b))
        =~= files.union_prefer_right(epp_files(n, b)));
    assert forall|i: int| 0 <= i < n implies #[trigger] apply_writes(
        apply_writes(files, wa),
        wb,
    )[epp_path_spec(i as u32)] == decimal(b as nat) by {
        assert(epp_paths(n).contains(epp_path_spec(i as u32)));
    }
}

/// Setting one core's EPP twice in a row leaves the files as setting it
/// once: that core's file holds the decimal text of the value, every other
/// file is untouched.
pub proof fn lemma_epp_write_repeated(files: Map<Seq<char>, Seq<char>>, w: EppWrite, core: u32, epp: u32)
    requires
        is_epp_write(w, core, epp),
    ensures
        apply_writes(apply_writes(files, seq![w]), seq![w]) == apply_writes(files, seq![w]),
        apply_writes(files, seq![w]) == files.insert(epp_path_spec(core), decimal(epp as nat)),
{
    let one = seq![w];
    assert(one.drop_last() =~= Seq::<EppWrite>::empty());
    assert(one.last() == w);
    assert(apply_writes(files, Seq::<EppWrite>::empty()) == files);
    assert(apply_writes(files, one) == apply_writes(files, one.drop_last()).insert(w.path@, w.value@));
    let once = apply_writes(files, one);
    assert(apply_writes(once, one) == apply_writes(once, one.drop_last()).insert(w.path@, w.value@));
    assert(apply_writes(once, Seq::<EppWrite>::empty()) == once);
    assert(apply_writes(files, seq![w]) =~= files.insert(epp_path_spec(core), decimal(epp as nat)));
    assert(apply_writes(apply_writes(files, seq![w]), seq![w]) =~= apply_writes(files, seq![w]).insert(
        epp_path_spec(core),
        decimal(epp as nat),
    ));
    assert(apply_writes(files, seq![w]).insert(epp_path_spec(core), decimal(epp as nat))
        =~= apply_writes(files, seq![w]));
}

/// Different cores have different EPP files.
pub proof fn lemma_epp_paths_distinct(a: u32, b: u32)
    requires
        a != b,
    ensures
        epp_path_spec(a) != epp_path_spec(b),
{
    let pre = "/sys/devices/system/cpu/cpu"@;
    let da = decimal(a as nat);
    let db = decimal(b as nat);
    if epp_path_spec(a) == epp_path_spec(b) {
        let pa = epp_path_spec(a);
        let pb = epp_path_spec(b);
        let suf = "/cpufreq/energy_performance_preference"@;
        assert(pa.len() == pre.len() + da.len() + suf.len());
        assert(pb.len() == pre.len() + db.len() + suf.len());
        assert(da.len() == db.len());
        assert(pa.subrange(pre.len() as int, (pre.len() + da.len()) as int) =~= da);
        assert(pb.subrange(pre.len() as int, (pre.len() + db.len()) as int) =~= db);
        lemma_decimal_injective(a as nat, b as nat);
    }
}

} // verus!
