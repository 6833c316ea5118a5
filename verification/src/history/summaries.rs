//! What the rows of a recording say of the frames and entries that they were made of.

use vstd::prelude::*;
use crate::history::recorder::{of_pid, pid_rule, pids, proc_cpu_of, proc_mem_of, proc_util_of};
use crate::history::recorder::{process_rollup, process_rollups};
use crate::history::rollup::law_min_mean_max;
use crate::history::rollup::{count, max_of, mean_of, min_of, sample_rollup, sum_of, whole_part};
use crate::history::rollup::{fan_of, mem_of, power_of, sm_clock_of, temp_of, util_of};
use crate::history::rollup::{throttled, throttled_hw, throttled_power, throttled_thermal};
use crate::history::rollup::Tier;
use crate::history::rows::{Recorded, entries_in, frames_in};
use crate::lists::filter_map;
use crate::lists::{lemma_filter_map_contains, lemma_filter_map_source};
use crate::model::{DynamicSample, ProcView};

verus! {

/// A signed reading as a number.
pub open spec fn signed(v: Option<i64>) -> Option<int> {
    match v {
        Some(x) => Some(x as int),
        None => None,
    }
}

/// A reading of 64 bits as a number.
pub open spec fn long(v: Option<u64>) -> Option<int> {
    match v {
        Some(x) => Some(x as int),
        None => None,
    }
}

/// A reading of 32 bits as a number.
pub open spec fn short(v: Option<u32>) -> Option<int> {
    match v {
        Some(x) => Some(x as int),
        None => None,
    }
}

/// `r` is one of the readings, and none is larger; it is missing where all of them are.
pub open spec fn is_maximum(r: Option<int>, vs: Seq<Option<int>>) -> bool {
    &&& vs.len() > 0 && r is Some ==> vs.contains(r)
    &&& vs.len() == 0 ==> r is None
    &&& forall|i: int|
        0 <= i < vs.len() ==> (#[trigger] vs[i] matches Some(v) ==> r is Some && v <= r->0)
}

/// `r` is one of the readings, and none is smaller; it is missing where all of them are.
pub open spec fn is_minimum(r: Option<int>, vs: Seq<Option<int>>) -> bool {
    &&& vs.len() > 0 && r is Some ==> vs.contains(r)
    &&& vs.len() == 0 ==> r is None
    &&& forall|i: int|
        0 <= i < vs.len() ==> (#[trigger] vs[i] matches Some(v) ==> r is Some && r->0 <= v)
}

/// `r` is what the readings that are there add up to, over their number and without a fraction;
/// it is missing where all of them are.
pub open spec fn is_mean(r: Option<int>, vs: Seq<Option<int>>) -> bool {
    let n = vs.filter(|v: Option<int>| v is Some).len() as int;
    let sum = vs.fold_left(
        0int,
        |acc: int, v: Option<int>|
            acc + match v {
                Some(x) => x,
                None => 0,
            },
    );
    match r {
        Some(m) => n > 0 && (if sum >= 0 {
            m * n <= sum < (m + 1) * n
        } else {
            (m - 1) * n < sum <= m * n
        }),
        None => n == 0,
    }
}

/// A metric of some elements, each with its own reading or none.
spec fn readings<A>(s: Seq<A>, metric: spec_fn(A) -> Option<int>) -> Seq<Option<int>> {
    Seq::new(s.len(), |i: int| metric(s[i]))
}

proof fn lemma_extremes<A>(s: Seq<A>, metric: spec_fn(A) -> Option<int>, lo: int, hi: int)
    requires
        forall|a: A| #[trigger] metric(a) matches Some(v) ==> lo <= v <= hi,
    ensures
        ({
            let vs = filter_map(s, metric);
            let rs = readings(s, metric);
            &&& is_minimum(min_of(vs), rs)
            &&& is_maximum(max_of(vs), rs)
            &&& is_mean(mean_of(vs), rs)
            &&& min_of(vs) is Some <==> max_of(vs) is Some
            &&& min_of(vs) is Some <==> mean_of(vs) is Some
            &&& min_of(vs) is Some ==> lo <= min_of(vs)->0 <= mean_of(vs)->0 <= max_of(vs)->0 <= hi
        }),
{
    let vs = filter_map(s, metric);
    let rs = readings(s, metric);
    lemma_filter_map_source(s, metric);
    lemma_folded(s, metric);
    assert forall|i: int| 0 <= i < vs.len() implies lo <= #[trigger] vs[i] <= hi by {
        let j = choose|j: int| 0 <= j < s.len() && metric(#[trigger] s[j]) == Some(vs[i]);
        assert(metric(s[j]) is Some);
    }
    if vs.len() > 0 {
        law_min_mean_max(vs, lo, hi);
        let a = choose|i: int| 0 <= i < vs.len() && vs[i] == min_of(vs)->0;
        let b = choose|i: int| 0 <= i < vs.len() && vs[i] == max_of(vs)->0;
        let i = choose|j: int| 0 <= j < s.len() && metric(#[trigger] s[j]) == Some(vs[a]);
        let k = choose|j: int| 0 <= j < s.len() && metric(#[trigger] s[j]) == Some(vs[b]);
        assert(rs[i] == min_of(vs));
        assert(rs[k] == max_of(vs));
        lemma_whole(sum_of(vs), vs.len() as int);
    }
    assert forall|i: int| 0 <= i < rs.len() && #[trigger] rs[i] is Some implies vs.len() > 0
        && min_of(vs)->0 <= rs[i]->0 <= max_of(vs)->0 by {
        assert(rs[i] == metric(s[i]));
        lemma_filter_map_contains(s, metric, i);
        let j = choose|j: int| 0 <= j < vs.len() && vs[j] == rs[i]->0;
        assert(min_of(vs)->0 <= vs[j] <= max_of(vs)->0);
    }
}

proof fn lemma_whole(sum: int, n: int)
    requires
        n > 0,
    ensures
        ({
            let m = whole_part(sum, n);
            if sum >= 0 {
                m * n <= sum < (m + 1) * n
            } else {
                (m - 1) * n < sum <= m * n
            }
        }),
{
    let a = if sum >= 0 {
        sum
    } else {
        -sum
    };
    let q = a / n;
    vstd::arithmetic::div_mod::lemma_fundamental_div_mod(a, n);
    assert(q * n <= a < (q + 1) * n) by (nonlinear_arith)
        requires
            a == n * q + a % n,
            0 <= a % n < n,
    ;
    assert((-q) * n == -(q * n) && (-q - 1) * n == -((q + 1) * n)) by (nonlinear_arith);
}

proof fn lemma_folded<A>(s: Seq<A>, metric: spec_fn(A) -> Option<int>)
    ensures
        ({
            let rs = readings(s, metric);
            &&& filter_map(s, metric).len() == rs.filter(|v: Option<int>| v is Some).len()
            &&& sum_of(filter_map(s, metric)) == rs.fold_left(
                0int,
                |acc: int, v: Option<int>|
                    acc + match v {
                        Some(x) => x,
                        None => 0,
                    },
            )
        }),
    decreases s.len(),
{
    reveal(Seq::filter);
    let rs = readings(s, metric);
    if s.len() > 0 {
        let t = s.drop_last();
        lemma_folded(t, metric);
        assert(rs.drop_last() =~= readings(t, metric));
        assert(rs.last() == metric(s.last()));
        let vs = filter_map(s, metric);
        if metric(s.last()) is Some {
            assert(vs.drop_last() =~= filter_map(t, metric));
        }
    }
}

/// Every maximum of a row is the value of a frame of the bucket, and no frame has a larger one;
/// every minimum is the value of a frame, and no frame has a smaller one; every mean is what the
/// frames that have the metric add up to, over their number. What no frame has is missing, and
/// what any frame has is not. And in a row the minimum is at most the mean, and the mean at most
/// the maximum.
pub proof fn law_a_row_sums_up_its_frames(
    device: Seq<char>,
    bucket_ms: u64,
    fs: Seq<DynamicSample>,
)
    requires
        fs.len() <= u32::MAX,
    ensures
        ({
            let r = sample_rollup(device, bucket_ms, fs);
            let util = Seq::new(fs.len(), |i: int| signed(fs[i].util_pct));
            let mem = Seq::new(fs.len(), |i: int| long(fs[i].mem_used_bytes));
            let power = Seq::new(fs.len(), |i: int| short(fs[i].power_mw));
            let temp = Seq::new(fs.len(), |i: int| signed(fs[i].temp_c));
            let fan = Seq::new(fs.len(), |i: int| signed(fs[i].fan_pct));
            let clock = Seq::new(fs.len(), |i: int| short(fs[i].sm_clock_mhz));
            &&& r.device_id == device && r.bucket_ms == bucket_ms && r.n == fs.len()
            &&& is_minimum(signed(r.util_min), util)
            &&& is_mean(signed(r.util_avg), util)
            &&& is_maximum(signed(r.util_max), util)
            &&& is_mean(long(r.mem_avg), mem)
            &&& is_maximum(long(r.mem_max), mem)
            &&& is_mean(short(r.power_avg_mw), power)
            &&& is_maximum(short(r.power_max_mw), power)
            &&& is_mean(signed(r.temp_avg_c), temp)
            &&& is_maximum(signed(r.temp_max_c), temp)
            &&& is_maximum(signed(r.fan_max_pct), fan)
            &&& is_minimum(short(r.sm_clock_min), clock)
            &&& is_mean(short(r.sm_clock_avg), clock)
            &&& is_maximum(short(r.sm_clock_max), clock)
            &&& r.util_avg is Some ==> r.util_min->0 <= r.util_avg->0 <= r.util_max->0
            &&& r.mem_avg is Some ==> r.mem_avg->0 <= r.mem_max->0
            &&& r.power_avg_mw is Some ==> r.power_avg_mw->0 <= r.power_max_mw->0
            &&& r.temp_avg_c is Some ==> r.temp_avg_c->0 <= r.temp_max_c->0
            &&& r.sm_clock_avg is Some ==> r.sm_clock_min->0 <= r.sm_clock_avg->0
                <= r.sm_clock_max->0
        }),
{
    lemma_extremes(fs, util_of(), i64::MIN as int, i64::MAX as int);
    lemma_extremes(fs, mem_of(), 0, u64::MAX as int);
    lemma_extremes(fs, power_of(), 0, u32::MAX as int);
    lemma_extremes(fs, temp_of(), i64::MIN as int, i64::MAX as int);
    lemma_extremes(fs, fan_of(), i64::MIN as int, i64::MAX as int);
    lemma_extremes(fs, sm_clock_of(), 0, u32::MAX as int);
    assert(Seq::new(fs.len(), |i: int| signed(fs[i].util_pct)) =~= readings(fs, util_of()));
    assert(Seq::new(fs.len(), |i: int| long(fs[i].mem_used_bytes)) =~= readings(fs, mem_of()));
    assert(Seq::new(fs.len(), |i: int| short(fs[i].power_mw)) =~= readings(fs, power_of()));
    assert(Seq::new(fs.len(), |i: int| signed(fs[i].temp_c)) =~= readings(fs, temp_of()));
    assert(Seq::new(fs.len(), |i: int| signed(fs[i].fan_pct)) =~= readings(fs, fan_of()));
    assert(Seq::new(fs.len(), |i: int| short(fs[i].sm_clock_mhz)) =~= readings(fs, sm_clock_of()));
}

/// A row counts the frames that show throttling for any reason, and those that show it for heat,
/// for a power cap and for a slowdown by the hardware; a frame in which throttling cannot be
/// observed counts for none.
pub proof fn law_a_row_counts_the_throttled_frames(
    device: Seq<char>,
    bucket_ms: u64,
    fs: Seq<DynamicSample>,
)
    requires
        fs.len() <= u32::MAX,
    ensures
        ({
            let r = sample_rollup(device, bucket_ms, fs);
            &&& r.throttle_n == fs.filter(
                |s: DynamicSample|
                    s.throttle matches Some(t) && (t.thermal || t.power_cap || t.hw_slowdown
                        || t.sync_boost || t.other),
            ).len()
            &&& r.throttle_thermal_n == fs.filter(
                |s: DynamicSample| s.throttle matches Some(t) && t.thermal,
            ).len()
            &&& r.throttle_power_n == fs.filter(
                |s: DynamicSample| s.throttle matches Some(t) && t.power_cap,
            ).len()
            &&& r.throttle_hw_n == fs.filter(
                |s: DynamicSample| s.throttle matches Some(t) && t.hw_slowdown,
            ).len()
        }),
{
    lemma_counted(
        fs,
        throttled(),
        |s: DynamicSample|
            s.throttle matches Some(t) && (t.thermal || t.power_cap || t.hw_slowdown
                || t.sync_boost || t.other),
    );
    lemma_counted(
        fs,
        throttled_thermal(),
        |s: DynamicSample| s.throttle matches Some(t) && t.thermal,
    );
    lemma_counted(
        fs,
        throttled_power(),
        |s: DynamicSample| s.throttle matches Some(t) && t.power_cap,
    );
    lemma_counted(
        fs,
        throttled_hw(),
        |s: DynamicSample| s.throttle matches Some(t) && t.hw_slowdown,
    );
}

proof fn lemma_counted(
    fs: Seq<DynamicSample>,
    p: spec_fn(DynamicSample) -> bool,
    q: spec_fn(DynamicSample) -> bool,
)
    requires
        forall|s: DynamicSample| #[trigger] p(s) == q(s),
    ensures
        count(fs, p) == fs.filter(q).len(),
        count(fs, p) <= fs.len(),
    decreases fs.len(),
{
    reveal(Seq::filter);
    if fs.len() > 0 {
        lemma_counted(fs.drop_last(), p, q);
        assert(p(fs.last()) == q(fs.last()));
    }
}

/// A process row has what the last entry of the process says of its name, kind and container, the
/// largest memory of any entry, and the means of the utilizations that the entries have.
pub proof fn law_a_process_row_sums_up_its_entries(
    device: Seq<char>,
    bucket_ms: u64,
    pid: u32,
    es: Seq<ProcView>,
)
    requires
        es.len() > 0,
    ensures
        ({
            let r = process_rollup(device, bucket_ms, pid, es);
            let last = es[es.len() - 1];
            &&& r.device_id == device && r.bucket_ms == bucket_ms && r.pid == pid
            &&& r.name == last.name && r.kind == last.kind && r.container == last.container
            &&& is_maximum(long(r.mem_max), Seq::new(es.len(), |i: int| long(es[i].mem_bytes)))
            &&& is_mean(signed(r.util_avg), Seq::new(es.len(), |i: int| signed(es[i].util_pct)))
            &&& is_mean(signed(r.cpu_avg), Seq::new(es.len(), |i: int| signed(es[i].cpu_pct)))
        }),
{
    lemma_extremes(es, proc_mem_of(), 0, u64::MAX as int);
    lemma_extremes(es, proc_util_of(), i64::MIN as int, i64::MAX as int);
    lemma_extremes(es, proc_cpu_of(), i64::MIN as int, i64::MAX as int);
    assert(Seq::new(es.len(), |i: int| long(es[i].mem_bytes)) =~= readings(es, proc_mem_of()));
    assert(Seq::new(es.len(), |i: int| signed(es[i].util_pct)) =~= readings(es, proc_util_of()));
    assert(Seq::new(es.len(), |i: int| signed(es[i].cpu_pct)) =~= readings(es, proc_cpu_of()));
}

/// A bucket has one process row for each process that any of its entries speaks of, and it is made
/// of exactly the entries that speak of it, in their order.
pub proof fn law_each_process_has_one_row(device: Seq<char>, bucket_ms: u64, es: Seq<ProcView>)
    ensures
        ({
            let rows = process_rollups(device, bucket_ms, es);
            &&& forall|i: int, j: int|
                0 <= i < j < rows.len() ==> (#[trigger] rows[i]).pid != (#[trigger] rows[j]).pid
            &&& forall|k: int|
                0 <= k < es.len() ==> exists|i: int|
                    0 <= i < rows.len() && (#[trigger] rows[i]).pid == (#[trigger] es[k]).pid
            &&& forall|i: int|
                0 <= i < rows.len() ==> (#[trigger] rows[i]) == process_rollup(
                    device,
                    bucket_ms,
                    rows[i].pid,
                    es.filter(|e: ProcView| e.pid == rows[i].pid),
                ) && es.filter(|e: ProcView| e.pid == rows[i].pid).len() > 0
        }),
{
    let rows = process_rollups(device, bucket_ms, es);
    lemma_pids(es);
    assert forall|k: int| 0 <= k < es.len() implies exists|i: int|
        0 <= i < rows.len() && (#[trigger] rows[i]).pid == (#[trigger] es[k]).pid by {
        let i = choose|i: int| 0 <= i < pids(es).len() && pids(es)[i] == es[k].pid;
        assert(rows[i].pid == es[k].pid);
    }
    assert forall|i: int| 0 <= i < rows.len() implies (#[trigger] rows[i]) == process_rollup(
        device,
        bucket_ms,
        rows[i].pid,
        es.filter(|e: ProcView| e.pid == rows[i].pid),
    ) && es.filter(|e: ProcView| e.pid == rows[i].pid).len() > 0 by {
        lemma_of_pid(es, rows[i].pid);
    }
}

proof fn lemma_pids(es: Seq<ProcView>)
    ensures
        pids(es).no_duplicates(),
        forall|k: int| 0 <= k < es.len() ==> pids(es).contains((#[trigger] es[k]).pid),
        forall|i: int|
            0 <= i < pids(es).len() ==> exists|k: int|
                0 <= k < es.len() && (#[trigger] es[k]).pid == #[trigger] pids(es)[i],
    decreases es.len(),
{
    if es.len() > 0 {
        let t = es.drop_last();
        let p = pids(t);
        lemma_pids(t);
        assert forall|k: int| 0 <= k < es.len() implies pids(es).contains((#[trigger] es[k]).pid) by {
            if k < t.len() {
                assert(t[k] == es[k]);
                let i = choose|i: int| 0 <= i < p.len() && p[i] == es[k].pid;
                assert(pids(es)[i] == p[i]);
            } else if !p.contains(es[k].pid) {
                assert(pids(es)[p.len() as int] == es[k].pid);
            }
        }
        assert forall|i: int| 0 <= i < pids(es).len() implies exists|k: int|
            0 <= k < es.len() && (#[trigger] es[k]).pid == #[trigger] pids(es)[i] by {
            if i < p.len() {
                let k = choose|k: int| 0 <= k < t.len() && (#[trigger] t[k]).pid == p[i];
                assert(es[k] == t[k]);
            } else {
                assert(es[es.len() - 1] == es.last());
            }
        }
    }
}

proof fn lemma_of_pid(es: Seq<ProcView>, pid: u32)
    ensures
        of_pid(es, pid) == es.filter(|e: ProcView| e.pid == pid),
        forall|k: int|
            0 <= k < es.len() && (#[trigger] es[k]).pid == pid ==> of_pid(es, pid).len() > 0,
    decreases es.len(),
{
    reveal(Seq::filter);
    if es.len() > 0 {
        let t = es.drop_last();
        lemma_of_pid(t, pid);
        assert(pid_rule(pid)(es.last()) is Some <==> es.last().pid == pid);
        assert forall|k: int| 0 <= k < es.len() && (#[trigger] es[k]).pid == pid implies of_pid(
            es,
            pid,
        ).len() > 0 by {
            if k < t.len() {
                assert(t[k] == es[k]);
            }
        }
    } else {
        assert(es.filter(|e: ProcView| e.pid == pid) =~= Seq::<ProcView>::empty());
    }
}

/// A bucket has exactly the frames of its ten seconds, or of its minute, and the process entries
/// of exactly the frames of its ten seconds, in their order.
pub proof fn law_a_bucket_has_the_frames_of_its_time(fs: Seq<Recorded>, b: u64)
    ensures
        b % 10_000 == 0 ==> frames_in(fs, Tier::TenSec, b) == fs.filter(
            |f: Recorded| b <= f.s.ts_ms < b + 10_000,
        ).map_values(|f: Recorded| f.s),
        b % 60_000 == 0 ==> frames_in(fs, Tier::OneMin, b) == fs.filter(
            |f: Recorded| b <= f.s.ts_ms < b + 60_000,
        ).map_values(|f: Recorded| f.s),
        b % 10_000 == 0 ==> entries_in(fs, b) == fs.filter(
            |f: Recorded| b <= f.s.ts_ms < b + 10_000,
        ).map_values(|f: Recorded| f.ps).flatten(),
{
    let ten = |f: Recorded| b <= f.s.ts_ms < b + 10_000;
    let one = |f: Recorded| b <= f.s.ts_ms < b + 60_000;
    if b % 10_000 == 0 {
        assert forall|f: Recorded| #[trigger] ten(f) == (Tier::TenSec.bucket(f.s.ts_ms) == b) by {
            let t = f.s.ts_ms;
            assert((t - t % 10_000 == b) == (b <= t < b + 10_000));
        }
        lemma_frames(fs, Tier::TenSec, b, ten, |f: Recorded| f.s);
        lemma_entries(fs, b, ten, |f: Recorded| f.ps);
    }
    if b % 60_000 == 0 {
        assert forall|f: Recorded| #[trigger] one(f) == (Tier::OneMin.bucket(f.s.ts_ms) == b) by {
            let t = f.s.ts_ms;
            assert((t - t % 60_000 == b) == (b <= t < b + 60_000));
        }
        lemma_frames(fs, Tier::OneMin, b, one, |f: Recorded| f.s);
    }
}

proof fn lemma_frames(
    fs: Seq<Recorded>,
    tier: Tier,
    b: u64,
    p: spec_fn(Recorded) -> bool,
    q: spec_fn(Recorded) -> DynamicSample,
)
    requires
        forall|f: Recorded| #[trigger] p(f) == (tier.bucket(f.s.ts_ms) == b),
        forall|f: Recorded| #[trigger] q(f) == f.s,
    ensures
        frames_in(fs, tier, b) == fs.filter(p).map_values(q),
    decreases fs.len(),
{
    reveal(Seq::filter);
    if fs.len() > 0 {
        let t = fs.drop_last();
        let l = fs.last();
        lemma_frames(t, tier, b, p, q);
        assert(p(l) == (tier.bucket(l.s.ts_ms) == b));
        assert(t.filter(p).push(l).map_values(q) =~= t.filter(p).map_values(q).push(l.s));
    } else {
        assert(fs.filter(p).map_values(q) =~= Seq::empty());
    }
}

proof fn lemma_entries(
    fs: Seq<Recorded>,
    b: u64,
    p: spec_fn(Recorded) -> bool,
    q: spec_fn(Recorded) -> Seq<ProcView>,
)
    requires
        forall|f: Recorded| #[trigger] p(f) == (Tier::TenSec.bucket(f.s.ts_ms) == b),
        forall|f: Recorded| #[trigger] q(f) == f.ps,
    ensures
        entries_in(fs, b) == fs.filter(p).map_values(q).flatten(),
    decreases fs.len(),
{
    reveal(Seq::filter);
    if fs.len() > 0 {
        let t = fs.drop_last();
        let l = fs.last();
        lemma_entries(t, b, p, q);
        assert(p(l) == (Tier::TenSec.bucket(l.s.ts_ms) == b));
        assert(t.filter(p).push(l).map_values(q) =~= t.filter(p).map_values(q).push(l.ps));
        lemma_flatten_push(t.filter(p).map_values(q), l.ps);
    } else {
        assert(fs.filter(p).map_values(q) =~= Seq::empty());
    }
}

proof fn lemma_flatten_push<A>(s: Seq<Seq<A>>, l: Seq<A>)
    ensures
        s.push(l).flatten() == s.flatten() + l,
    decreases s.len(),
{
    let t = s.push(l);
    if s.len() == 0 {
        assert(t.drop_first() =~= Seq::empty());
        assert(t.drop_first().flatten() =~= Seq::<A>::empty());
        assert(t.first() == l);
        assert(t.flatten() =~= l);
    } else {
        assert(t.drop_first() =~= s.drop_first().push(l));
        lemma_flatten_push(s.drop_first(), l);
        assert(t.flatten() =~= s.flatten() + l);
    }
}

} // verus!
