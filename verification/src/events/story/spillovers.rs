//! What a told spillover says of the frames before it.

use vstd::prelude::*;
use crate::events::laws::{law_one_entry_per_process, lemma_latest_upto};
use crate::events::process::{latest, listed};
use crate::events::since;
use crate::events::spillover::{SPILLOVER_HOLDER_MIN_BYTES, SPILLOVER_WINDOW_MS, assessed, assessed_on, busy, cpu_spillover, entry_of, keep_rule, open_rule, opened, spilled, spillover_step, tell_rule, with_reading};
use crate::events::state::{HolderView, MeanView, SpilloverView};
use crate::events::story::Frame;
use crate::events::story::{after, at_spillover, at_throttle, told, util_mean};
use crate::events::story::{lemma_all_told, lemma_by_kind, lemma_early_stages, lemma_known_before, lemma_spillover_places};
use crate::events::EventView;
use crate::lists::{lemma_filter_map_contains, lemma_filter_map_source, lemma_filter_map_two};
use crate::model::ProcView;

verus! {

/// The running mean of the CPU use of process `pid` in the frames from `k` on, before `n`.
pub open spec fn cpu_mean(fs: Seq<Frame>, k: int, n: int, pid: u32) -> MeanView
    decreases n - k,
{
    if n <= k {
        MeanView::none()
    } else {
        match entry_of(fs[n - 1].ps, pid) {
            Some(p) => with_reading(cpu_mean(fs, k, n - 1, pid), p.cpu_pct),
            None => cpu_mean(fs, k, n - 1, pid),
        }
    }
}

/// The list shows the process with this memory.
pub open spec fn shows(f: Frame, h: HolderView) -> bool {
    exists|i: int|
        0 <= i < latest(f.ps).len() && (#[trigger] latest(f.ps)[i]).pid == h.pid && latest(
            f.ps,
        )[i].name == h.name && latest(f.ps)[i].mem_bytes == Some(h.mem)
}

/// The process came at frame `k`, not with the first list, with much memory, and was there ever
/// since, and the device was never busy.
pub open spec fn idled_along(fs: Seq<Frame>, k: int, n: int, h: HolderView) -> bool {
    &&& 0 < k < n
    &&& !listed(fs[k - 1].ps, h.pid)
    &&& shows(fs[k], h)
    &&& h.mem >= SPILLOVER_HOLDER_MIN_BYTES
    &&& forall|i: int| k <= i < n ==> listed((#[trigger] fs[i]).ps, h.pid) && !busy(fs[i].s)
}

/// What the frames from `k` on, before `n`, show of a process.
pub open spec fn assessment(fs: Seq<Frame>, k: int, n: int, h: HolderView) -> SpilloverView {
    SpilloverView {
        holder: h,
        start_ms: fs[k].s.ts_ms,
        util: util_mean(fs, k, n),
        cpu: cpu_mean(fs, k, n, h.pid),
    }
}

/// The assessment began at frame `k`, is what the frames before `n` made it, and is still open.
spec fn assessed_of(fs: Seq<Frame>, k: int, n: int, sp: SpilloverView) -> bool {
    &&& idled_along(fs, k, n, sp.holder)
    &&& sp == assessment(fs, k, n, sp.holder)
    &&& forall|i: int|
        k <= i < n ==> since((#[trigger] fs[i]).s.ts_ms, fs[k].s.ts_ms) < SPILLOVER_WINDOW_MS
}

/// All the assessments are what the frames made them.
spec fn all_assessed(fs: Seq<Frame>, n: int, sps: Seq<SpilloverView>) -> bool {
    forall|i: int| 0 <= i < sps.len() ==> assessed_since(fs, n, #[trigger] sps[i])
}

spec fn assessed_since(fs: Seq<Frame>, n: int, sp: SpilloverView) -> bool {
    exists|k: int| #[trigger] assessed_of(fs, k, n, sp)
}

/// The assessment `sp` takes in frame `n`, which lists its process as `p`, and has gone on since
/// frame `k`, in the window up to now.
spec fn taken_in(fs: Seq<Frame>, k: int, n: int, sp: SpilloverView, p: ProcView) -> bool {
    &&& 0 < k <= n
    &&& assessed_on(sp, fs[n].s, p) == assessment(fs, k, n + 1, sp.holder)
    &&& idled_along(fs, k, n + 1, sp.holder)
    &&& sp.start_ms == fs[k].s.ts_ms
    &&& forall|i: int|
        k <= i < n ==> since((#[trigger] fs[i]).s.ts_ms, fs[k].s.ts_ms) < SPILLOVER_WINDOW_MS
}

/// The list has an entry exactly for the processes it speaks of.
proof fn lemma_entry_is_listed(ps: Seq<ProcView>, pid: u32)
    ensures
        entry_of(ps, pid) is Some <==> listed(ps, pid),
    decreases ps.len(),
{
    if ps.len() > 0 {
        let rest = ps.drop_last();
        lemma_entry_is_listed(rest, pid);
        if ps.last().pid == pid {
            assert(ps[ps.len() - 1].pid == pid);
        } else if listed(ps, pid) {
            let i = choose|i: int| 0 <= i < ps.len() && (#[trigger] ps[i]).pid == pid;
            assert(rest[i].pid == pid);
        } else if listed(rest, pid) {
            let i = choose|i: int| 0 <= i < rest.len() && (#[trigger] rest[i]).pid == pid;
            assert(ps[i].pid == pid);
        }
    }
}

/// An assessment that a frame opens is one of a process that came with it.
proof fn lemma_opened(device: Seq<char>, name: Seq<char>, fs: Seq<Frame>, n: nat, j: int)
    requires
        ({
            let a = at_throttle(after(device, name, fs, n), device, name, fs[n as int]);
            0 <= j < opened(a, fs[n as int].s.ts_ms, fs[n as int].ps).len()
        }),
    ensures
        ({
            let a = at_throttle(after(device, name, fs, n), device, name, fs[n as int]);
            let sp = opened(a, fs[n as int].s.ts_ms, fs[n as int].ps)[j];
            &&& n > 0
            &&& !listed(fs[n - 1].ps, sp.holder.pid)
            &&& shows(fs[n as int], sp.holder)
            &&& listed(fs[n as int].ps, sp.holder.pid)
            &&& sp.holder.mem >= SPILLOVER_HOLDER_MIN_BYTES
            &&& sp == assessment(fs, n as int, n as int, sp.holder)
        }),
{
    let m = after(device, name, fs, n);
    let f = fs[n as int];
    let a = at_throttle(m, device, name, f);
    let fresh = opened(a, f.s.ts_ms, f.ps);
    lemma_early_stages(m, device, name, f);
    lemma_known_before(device, name, fs, n);
    let rule = open_rule(a, f.s.ts_ms);
    let l = latest(f.ps);
    lemma_filter_map_source(l, rule);
    let i = choose|i: int| 0 <= i < l.len() && rule(#[trigger] l[i]) == Some(fresh[j]);
    lemma_latest_upto(f.ps, f.ps.len());
    let k = choose|k: int| 0 <= k < f.ps.len() && #[trigger] f.ps[k] == l[i];
    assert(f.ps[k].pid == fresh[j].holder.pid);
    assert(l[i].pid == fresh[j].holder.pid);
    assert(util_mean(fs, n as int, n as int) == MeanView::none());
    assert(cpu_mean(fs, n as int, n as int, fresh[j].holder.pid) == MeanView::none());
}

/// One more frame in which the process is there.
proof fn lemma_one_more(fs: Seq<Frame>, k: int, n: int, h: HolderView, p: ProcView)
    requires
        0 <= k <= n,
        entry_of(fs[n].ps, h.pid) == Some(p),
    ensures
        assessed_on(assessment(fs, k, n, h), fs[n].s, p) == assessment(fs, k, n + 1, h),
{
}

/// All that is being assessed before a frame's readings: from when on it has been.
proof fn lemma_candidates(device: Seq<char>, name: Seq<char>, fs: Seq<Frame>, n: nat, j: int)
    requires
        n < fs.len(),
        all_assessed(fs, n as int, after(device, name, fs, n).spillovers),
        ({
            let a = at_throttle(after(device, name, fs, n), device, name, fs[n as int]);
            0 <= j < (a.spillovers + opened(a, fs[n as int].s.ts_ms, fs[n as int].ps)).len()
        }),
    ensures
        ({
            let f = fs[n as int];
            let a = at_throttle(after(device, name, fs, n), device, name, f);
            let sp = (a.spillovers + opened(a, f.s.ts_ms, f.ps))[j];
            entry_of(f.ps, sp.holder.pid) matches Some(p) ==> !busy(f.s) ==> exists|k: int|
                #[trigger] taken_in(fs, k, n as int, sp, p)
        }),
{
    let m = after(device, name, fs, n);
    let f = fs[n as int];
    let a = at_throttle(m, device, name, f);
    let all = a.spillovers + opened(a, f.s.ts_ms, f.ps);
    let sp = all[j];
    lemma_early_stages(m, device, name, f);
    lemma_entry_is_listed(f.ps, sp.holder.pid);
    if let Some(p) = entry_of(f.ps, sp.holder.pid) {
        if !busy(f.s) {
            let k = if j < m.spillovers.len() {
                assert(sp == m.spillovers[j]);
                assert(assessed_since(fs, n as int, m.spillovers[j]));
                choose|k: int| #[trigger] assessed_of(fs, k, n as int, m.spillovers[j])
            } else {
                lemma_opened(device, name, fs, n, j - m.spillovers.len());
                n as int
            };
            lemma_one_more(fs, k, n as int, sp.holder, p);
            assert(idled_along(fs, k, n as int + 1, sp.holder));
            assert(taken_in(fs, k, n as int, sp, p));
        }
    }
}

proof fn lemma_assessment_history(device: Seq<char>, name: Seq<char>, fs: Seq<Frame>, n: nat)
    requires
        n <= fs.len(),
    ensures
        all_assessed(fs, n as int, after(device, name, fs, n).spillovers),
    decreases n,
{
    if n > 0 {
        let before = (n - 1) as nat;
        let m = after(device, name, fs, before);
        let f = fs[n - 1];
        let a = at_throttle(m, device, name, f);
        let all = a.spillovers + opened(a, f.s.ts_ms, f.ps);
        let kept = after(device, name, fs, n).spillovers;
        let rule = keep_rule(f.s, f.ps);
        lemma_assessment_history(device, name, fs, before);
        lemma_early_stages(m, device, name, f);
        reveal(at_spillover);
        lemma_filter_map_source(all, rule);
        assert forall|i: int| 0 <= i < kept.len() implies assessed_since(
            fs,
            n as int,
            #[trigger] kept[i],
        ) by {
            let j = choose|j: int| 0 <= j < all.len() && rule(#[trigger] all[j]) == Some(kept[i]);
            lemma_candidates(device, name, fs, before, j);
            let sp = all[j];
            let p = entry_of(f.ps, sp.holder.pid)->0;
            let k = choose|k: int| #[trigger] taken_in(fs, k, before as int, sp, p);
            assert(assessed_of(fs, k, n as int, kept[i]));
        }
    }
}

/// The event tells of a process that came at frame `k` and idled along up to frame `n`, the first
/// one past the window.
pub open spec fn tells_of_a_spillover(
    e: EventView,
    device: Seq<char>,
    name: Seq<char>,
    fs: Seq<Frame>,
    k: int,
    n: int,
    h: HolderView,
) -> bool {
    &&& idled_along(fs, k, n + 1, h)
    &&& since(fs[n].s.ts_ms, fs[k].s.ts_ms) >= SPILLOVER_WINDOW_MS
    &&& forall|i: int|
        k <= i < n ==> since((#[trigger] fs[i]).s.ts_ms, fs[k].s.ts_ms) < SPILLOVER_WINDOW_MS
    &&& spilled(assessment(fs, k, n + 1, h))
    &&& e == cpu_spillover(device, name, fs[n].s.ts_ms, assessment(fs, k, n + 1, h))
}

/// A spillover is told only of a process that came while the device was watched, with two
/// gibibytes at least, and that was there for the whole window while the device was never busy;
/// the means that are told are those of exactly these frames, and it is told at the first frame
/// past the window.
pub proof fn law_a_spillover_fills_its_window(
    device: Seq<char>,
    name: Seq<char>,
    fs: Seq<Frame>,
    n: nat,
    i: int,
)
    requires
        n < fs.len(),
        0 <= i < told(device, name, fs, n).len(),
        told(device, name, fs, n)[i].kind is CpuSpillover,
    ensures
        exists|k: int, h: HolderView| #[trigger]
            tells_of_a_spillover(told(device, name, fs, n)[i], device, name, fs, k, n as int, h),
{
    let m = after(device, name, fs, n);
    let f = fs[n as int];
    let e = told(device, name, fs, n)[i];
    let a = at_throttle(m, device, name, f);
    let all = a.spillovers + opened(a, f.s.ts_ms, f.ps);
    let rule = tell_rule(device, name, f.s, f.ps);
    let es = spillover_step(a, device, name, f.s, f.ps).1;
    lemma_assessment_history(device, name, fs, n);
    lemma_by_kind(m, device, name, f, i);
    lemma_filter_map_source(all, rule);
    let x = choose|x: int| 0 <= x < es.len() && es[x] == e;
    let j = choose|j: int| 0 <= j < all.len() && rule(#[trigger] all[j]) == Some(es[x]);
    lemma_candidates(device, name, fs, n, j);
    let sp = all[j];
    let p = entry_of(f.ps, sp.holder.pid)->0;
    let k = choose|k: int| #[trigger] taken_in(fs, k, n as int, sp, p);
    assert(tells_of_a_spillover(e, device, name, fs, k, n as int, sp.holder));
}

/// A process that a frame does not list is not being assessed after it.
proof fn lemma_not_assessed(device: Seq<char>, name: Seq<char>, fs: Seq<Frame>, k: nat, pid: u32)
    requires
        0 < k <= fs.len(),
        !listed(fs[k - 1].ps, pid),
    ensures
        !assessed(after(device, name, fs, k).spillovers, pid),
{
    let sps = after(device, name, fs, k).spillovers;
    lemma_assessment_history(device, name, fs, k);
    if assessed(sps, pid) {
        let i = choose|i: int| 0 <= i < sps.len() && (#[trigger] sps[i]).holder.pid == pid;
        assert(assessed_since(fs, k as int, sps[i]));
        let j = choose|j: int| #[trigger] assessed_of(fs, j, k as int, sps[i]);
        assert(listed(fs[k - 1].ps, pid));
    }
}

/// All that is being assessed when a frame is taken in.
spec fn candidates(device: Seq<char>, name: Seq<char>, fs: Seq<Frame>, n: nat) -> Seq<
    SpilloverView,
> {
    let a = at_throttle(after(device, name, fs, n), device, name, fs[n as int]);
    a.spillovers + opened(a, fs[n as int].s.ts_ms, fs[n as int].ps)
}

/// The process that came is among them as long as it idles along.
proof fn lemma_is_candidate(
    device: Seq<char>,
    name: Seq<char>,
    fs: Seq<Frame>,
    k: nat,
    n: nat,
    h: HolderView,
)
    requires
        k <= n < fs.len(),
        idled_along(fs, k as int, n as int + 1, h),
        forall|i: int|
            k <= i < n ==> since((#[trigger] fs[i]).s.ts_ms, fs[k as int].s.ts_ms)
                < SPILLOVER_WINDOW_MS,
    ensures
        candidates(device, name, fs, n).contains(assessment(fs, k as int, n as int, h)),
    decreases n,
{
    let m = after(device, name, fs, n);
    let f = fs[n as int];
    let a = at_throttle(m, device, name, f);
    let all = candidates(device, name, fs, n);
    let want = assessment(fs, k as int, n as int, h);
    lemma_early_stages(m, device, name, f);
    if n == k {
        let fresh = opened(a, f.s.ts_ms, f.ps);
        let rule = open_rule(a, f.s.ts_ms);
        let l = latest(f.ps);
        lemma_known_before(device, name, fs, n);
        lemma_not_assessed(device, name, fs, k, h.pid);
        let j = choose|j: int|
            0 <= j < l.len() && (#[trigger] l[j]).pid == h.pid && l[j].name == h.name
                && l[j].mem_bytes == Some(h.mem);
        lemma_filter_map_contains(l, rule, j);
        assert(util_mean(fs, k as int, k as int) == MeanView::none());
        assert(cpu_mean(fs, k as int, k as int, h.pid) == MeanView::none());
        assert(rule(l[j]) == Some(want));
        let x = choose|x: int| 0 <= x < fresh.len() && fresh[x] == want;
        assert(all[a.spillovers.len() + x] == want);
    } else {
        let before = (n - 1) as nat;
        let g = fs[n - 1];
        let was = candidates(device, name, fs, before);
        let rule = keep_rule(g.s, g.ps);
        let had = assessment(fs, k as int, before as int, h);
        assert(idled_along(fs, k as int, before as int + 1, h));
        lemma_is_candidate(device, name, fs, k, before, h);
        assert(listed(g.ps, h.pid) && !busy(g.s));
        lemma_entry_is_listed(g.ps, h.pid);
        lemma_one_more(fs, k as int, before as int, h, entry_of(g.ps, h.pid)->0);
        let j = choose|j: int| 0 <= j < was.len() && was[j] == had;
        assert(rule(was[j]) == Some(want));
        lemma_filter_map_contains(was, rule, j);
        lemma_early_stages(after(device, name, fs, before), device, name, g);
        reveal(at_spillover);
        let x = choose|x: int| 0 <= x < m.spillovers.len() && m.spillovers[x] == want;
        assert(all[x] == want);
    }
}

/// A spillover is told of a process exactly where it came with two gibibytes at least and stayed
/// while the device was never busy: at the first frame past the window, where the means of the
/// window show it.
pub proof fn law_a_spillover_is_told(
    device: Seq<char>,
    name: Seq<char>,
    fs: Seq<Frame>,
    n: nat,
    e: EventView,
)
    requires
        n < fs.len(),
    ensures
        told(device, name, fs, n).contains(e) && e.kind is CpuSpillover <==> exists|
            k: int,
            h: HolderView,
        | #[trigger]
            tells_of_a_spillover(e, device, name, fs, k, n as int, h),
{
    let es = told(device, name, fs, n);
    if es.contains(e) && e.kind is CpuSpillover {
        let i = choose|i: int| 0 <= i < es.len() && es[i] == e;
        law_a_spillover_fills_its_window(device, name, fs, n, i);
    }
    if exists|k: int, h: HolderView| #[trigger]
        tells_of_a_spillover(e, device, name, fs, k, n as int, h) {
        let (k, h) = choose|k: int, h: HolderView| #[trigger]
            tells_of_a_spillover(e, device, name, fs, k, n as int, h);
        lemma_spillover_told(device, name, fs, k as nat, n, h, e);
    }
}

proof fn lemma_spillover_told(
    device: Seq<char>,
    name: Seq<char>,
    fs: Seq<Frame>,
    k: nat,
    n: nat,
    h: HolderView,
    e: EventView,
)
    requires
        n < fs.len(),
        tells_of_a_spillover(e, device, name, fs, k as int, n as int, h),
    ensures
        told(device, name, fs, n).contains(e),
        e.kind is CpuSpillover,
{
    let m = after(device, name, fs, n);
    let f = fs[n as int];
    let all = candidates(device, name, fs, n);
    let rule = tell_rule(device, name, f.s, f.ps);
    lemma_is_candidate(device, name, fs, k, n, h);
    let j = choose|j: int|
        0 <= j < all.len() && all[j] == assessment(fs, k as int, n as int, h);
    assert(listed(f.ps, h.pid) && !busy(f.s));
    lemma_entry_is_listed(f.ps, h.pid);
    lemma_one_more(fs, k as int, n as int, h, entry_of(f.ps, h.pid)->0);
    assert(rule(all[j]) == Some(e));
    lemma_filter_map_contains(all, rule, j);
    lemma_all_told(m, device, name, f);
    let a = at_throttle(m, device, name, f);
    assert(spillover_step(a, device, name, f.s, f.ps).1.contains(e));
}

/// A process is told of at most once per arrival: where two spillovers of one process are told at
/// two frames, it left in between and came again after the first was told.
pub proof fn law_one_spillover_per_arrival(
    device: Seq<char>,
    name: Seq<char>,
    fs: Seq<Frame>,
    e: EventView,
    k: int,
    n: int,
    h: HolderView,
    e2: EventView,
    k2: int,
    n2: int,
    h2: HolderView,
)
    requires
        tells_of_a_spillover(e, device, name, fs, k, n, h),
        tells_of_a_spillover(e2, device, name, fs, k2, n2, h2),
        h.pid == h2.pid,
        n < n2,
    ensures
        n < k2,
        !listed(fs[k2 - 1].ps, h.pid),
{
    if k2 <= n {
        if k == k2 {
            assert(since(fs[n].s.ts_ms, fs[k2].s.ts_ms) < SPILLOVER_WINDOW_MS);
        } else if k < k2 {
            assert(listed(fs[k2 - 1].ps, h.pid));
        } else {
            assert(listed(fs[k - 1].ps, h2.pid));
        }
    }
}

/// No process is assessed twice at a time.
spec fn distinct_holders(sps: Seq<SpilloverView>) -> bool {
    forall|i: int, j: int|
        0 <= i < j < sps.len() ==> (#[trigger] sps[i]).holder.pid != (#[trigger] sps[j]).holder.pid
}

proof fn lemma_candidates_are_distinct(
    device: Seq<char>,
    name: Seq<char>,
    fs: Seq<Frame>,
    n: nat,
)
    requires
        n <= fs.len(),
    ensures
        distinct_holders(candidates(device, name, fs, n)),
        distinct_holders(after(device, name, fs, n).spillovers),
    decreases n,
{
    let m = after(device, name, fs, n);
    let f = fs[n as int];
    let a = at_throttle(m, device, name, f);
    let all = candidates(device, name, fs, n);
    let fresh = opened(a, f.s.ts_ms, f.ps);
    let open = open_rule(a, f.s.ts_ms);
    let l = latest(f.ps);
    lemma_early_stages(m, device, name, f);
    if n > 0 {
        let before = (n - 1) as nat;
        let g = fs[n - 1];
        let was = candidates(device, name, fs, before);
        let rule = keep_rule(g.s, g.ps);
        lemma_candidates_are_distinct(device, name, fs, before);
        lemma_early_stages(after(device, name, fs, before), device, name, g);
        reveal(at_spillover);
        assert forall|i: int, j: int| 0 <= i < j < m.spillovers.len() implies (
        #[trigger] m.spillovers[i]).holder.pid != (#[trigger] m.spillovers[j]).holder.pid by {
            let (x, y) = lemma_filter_map_two(was, rule, i, j);
            assert(was[x].holder.pid != was[y].holder.pid);
        }
    }
    law_one_entry_per_process(f.ps);
    lemma_filter_map_source(l, open);
    assert forall|i: int, j: int| 0 <= i < j < all.len() implies (#[trigger] all[i]).holder.pid != (
    #[trigger] all[j]).holder.pid by {
        let c = m.spillovers.len();
        if j < c {
            assert(m.spillovers[i].holder.pid != m.spillovers[j].holder.pid);
        } else if i < c {
            let y = choose|y: int| 0 <= y < l.len() && open(#[trigger] l[y]) == Some(fresh[j - c]);
            assert(all[j] == fresh[j - c]);
            assert(!assessed(a.spillovers, l[y].pid));
            assert(a.spillovers[i].holder.pid != l[y].pid);
        } else {
            let (x, y) = lemma_filter_map_two(l, open, i - c, j - c);
            assert(l[x].pid != l[y].pid);
            assert(all[i] == fresh[i - c] && all[j] == fresh[j - c]);
        }
    }
}

/// The spillovers that are told at one frame are told of different processes: each of the
/// assessments that are due gives one event, in their order.
pub proof fn law_spillovers_of_a_frame_are_of_different_processes(
    device: Seq<char>,
    name: Seq<char>,
    fs: Seq<Frame>,
    n: nat,
    i: int,
    j: int,
)
    requires
        n < fs.len(),
        0 <= i < j < told(device, name, fs, n).len(),
        told(device, name, fs, n)[i].kind is CpuSpillover,
        told(device, name, fs, n)[j].kind is CpuSpillover,
    ensures
        exists|k: int, h: HolderView, k2: int, h2: HolderView|
            h.pid != h2.pid && #[trigger] tells_of_a_spillover(
                told(device, name, fs, n)[i],
                device,
                name,
                fs,
                k,
                n as int,
                h,
            ) && #[trigger] tells_of_a_spillover(
                told(device, name, fs, n)[j],
                device,
                name,
                fs,
                k2,
                n as int,
                h2,
            ),
{
    let m = after(device, name, fs, n);
    let f = fs[n as int];
    let es = told(device, name, fs, n);
    let all = candidates(device, name, fs, n);
    let rule = tell_rule(device, name, f.s, f.ps);
    let c = lemma_spillover_places(m, device, name, f, i, j);
    lemma_candidates_are_distinct(device, name, fs, n);
    let (x, y) = lemma_filter_map_two(all, rule, c.0, c.1);
    lemma_assessment_history(device, name, fs, n);
    lemma_candidates(device, name, fs, n, x);
    lemma_candidates(device, name, fs, n, y);
    let p = entry_of(f.ps, all[x].holder.pid)->0;
    let q = entry_of(f.ps, all[y].holder.pid)->0;
    let k = choose|k: int| #[trigger] taken_in(fs, k, n as int, all[x], p);
    let k2 = choose|k2: int| #[trigger] taken_in(fs, k2, n as int, all[y], q);
    assert(tells_of_a_spillover(es[i], device, name, fs, k, n as int, all[x].holder));
    assert(tells_of_a_spillover(es[j], device, name, fs, k2, n as int, all[y].holder));
    assert(all[x].holder.pid != all[y].holder.pid);
}

} // verus!
