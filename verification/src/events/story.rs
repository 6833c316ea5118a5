//! What a told event says of all the frames before it.

use vstd::prelude::*;
use crate::events::hang::hang_step;
use crate::events::holders::{holder_rule, holders};
use crate::events::idle::idle_gap_step;
use crate::events::laws::{law_one_entry_per_process, lemma_kinds, lemma_latest_upto};
use crate::events::observe_step;
use crate::events::process::{known, latest, listed, process_step, seen_of};
use crate::events::spillover::spillover_step;
use crate::events::state::{DevModel, HolderView, IdleGapView, MeanView, PrevSample};
use crate::events::throttle::throttle_step;
use crate::events::vram::vram_pressure_step;
use crate::events::{EventKind, EventView};
use crate::lists::lemma_filter_map_source;
use crate::model::{DynamicSample, MilliC, MilliPct, ProcView};

pub mod edges;
pub mod gaps;
pub mod hangs;
pub mod pressures;
pub mod spillovers;
pub mod words;

verus! {

/// What is observed of a device at a tick.
pub struct Frame {
    pub s: DynamicSample,
    pub ps: Seq<ProcView>,
    pub mem_total: Option<u64>,
    pub temp_slowdown_c: Option<MilliC>,
}

/// What is remembered of a device after its first `n` frames.
pub open spec fn after(device: Seq<char>, name: Seq<char>, fs: Seq<Frame>, n: nat) -> DevModel
    decreases n,
{
    if n == 0 {
        DevModel::fresh()
    } else {
        step(after(device, name, fs, (n - 1) as nat), device, name, fs[n - 1]).0
    }
}

/// What a frame does.
#[verifier::opaque]
pub open spec fn step(m: DevModel, device: Seq<char>, name: Seq<char>, f: Frame) -> (
    DevModel,
    Seq<EventView>,
) {
    observe_step(m, device, name, f.s, f.ps, f.mem_total, f.temp_slowdown_c)
}

/// The events that frame `n` gives, after those before it.
pub open spec fn told(device: Seq<char>, name: Seq<char>, fs: Seq<Frame>, n: nat) -> Seq<
    EventView,
> {
    step(after(device, name, fs, n), device, name, fs[n as int]).1
}

/// The running mean of the utilizations of the frames from `k` on, before `n`.
pub open spec fn util_mean(fs: Seq<Frame>, k: int, n: int) -> MeanView
    decreases n - k,
{
    if n <= k {
        MeanView::none()
    } else {
        match fs[n - 1].s.util_pct {
            Some(u) => util_mean(fs, k, n - 1).with(u as int),
            None => util_mean(fs, k, n - 1),
        }
    }
}

/// What is remembered once the rule of throttling has seen the frame.
#[verifier::opaque]
pub open spec fn at_throttle(m: DevModel, device: Seq<char>, name: Seq<char>, f: Frame) -> DevModel {
    throttle_step(m, device, name, f.s, f.temp_slowdown_c).0
}

/// What is remembered once the rule of spillovers has seen it.
#[verifier::opaque]
pub open spec fn at_spillover(m: DevModel, device: Seq<char>, name: Seq<char>, f: Frame) -> DevModel {
    spillover_step(at_throttle(m, device, name, f), device, name, f.s, f.ps).0
}

/// What is remembered once its list is taken over.
#[verifier::opaque]
pub open spec fn at_list(m: DevModel, device: Seq<char>, name: Seq<char>, f: Frame) -> DevModel {
    process_step(at_spillover(m, device, name, f), device, name, f.s.ts_ms, f.ps).0
}

/// What is remembered once the rule of hangs has seen it.
#[verifier::opaque]
pub open spec fn at_hang(m: DevModel, device: Seq<char>, name: Seq<char>, f: Frame) -> DevModel {
    hang_step(at_list(m, device, name, f), device, name, f.s).0
}

/// What is remembered once the rule of idle gaps has seen it.
#[verifier::opaque]
pub open spec fn at_gap(m: DevModel, device: Seq<char>, name: Seq<char>, f: Frame) -> DevModel {
    idle_gap_step(at_hang(m, device, name, f), device, name, f.s).0
}

/// The rules that come before the list is taken over leave hangs and gaps alone; those that come
/// after a rule leave alone what is its own.
pub(crate) proof fn lemma_stages(m: DevModel, device: Seq<char>, name: Seq<char>, f: Frame)
    ensures
        at_list(m, device, name, f).hang == m.hang,
        at_list(m, device, name, f).idle_gap == m.idle_gap,
        at_list(m, device, name, f).active_since == m.active_since,
        at_list(m, device, name, f).idle_eligible == m.idle_eligible,
        at_list(m, device, name, f).prev == m.prev,
        at_hang(m, device, name, f).active_since == m.active_since,
        at_hang(m, device, name, f).idle_eligible == m.idle_eligible,
        at_hang(m, device, name, f).prev == m.prev,
        at_hang(m, device, name, f).procs == at_list(m, device, name, f).procs,
        step(m, device, name, f).0.procs == at_list(m, device, name, f).procs,
        step(m, device, name, f).0.hang == at_hang(m, device, name, f).hang,
        step(m, device, name, f).0.idle_gap == at_gap(m, device, name, f).idle_gap,
        step(m, device, name, f).0.active_since == at_gap(m, device, name, f).active_since,
        step(m, device, name, f).0.idle_eligible == at_gap(m, device, name, f).idle_eligible,
        step(m, device, name, f).0.prev matches Some(p) && p.util_pct == f.s.util_pct,
        at_hang(m, device, name, f).idle_gap == (match m.idle_gap {
            Some(gap) => Some(
                IdleGapView {
                    hang_narrated: gap.hang_narrated || hang_step(
                        at_list(m, device, name, f),
                        device,
                        name,
                        f.s,
                    ).1.len() > 0,
                    ..gap
                },
            ),
            None => None,
        }),
{
    reveal(step);
    reveal(at_throttle);
    reveal(at_spillover);
    reveal(at_list);
    reveal(at_hang);
    reveal(at_gap);
}

/// The rule of throttling leaves assessments and processes alone, and so do the rules that come
/// after their own.
pub(crate) proof fn lemma_early_stages(m: DevModel, device: Seq<char>, name: Seq<char>, f: Frame)
    ensures
        at_throttle(m, device, name, f).spillovers == m.spillovers,
        at_throttle(m, device, name, f).procs == m.procs,
        at_throttle(m, device, name, f).seen_first_procs == m.seen_first_procs,
        at_spillover(m, device, name, f).procs == m.procs,
        at_spillover(m, device, name, f).seen_first_procs == m.seen_first_procs,
        step(m, device, name, f).0.spillovers == at_spillover(m, device, name, f).spillovers,
        step(m, device, name, f).0.seen_first_procs,
        step(m, device, name, f).0.throttle_since == at_throttle(
            m,
            device,
            name,
            f,
        ).throttle_since,
        step(m, device, name, f).0.pre_throttle_clock == at_throttle(
            m,
            device,
            name,
            f,
        ).pre_throttle_clock,
        step(m, device, name, f).0.prev == Some(
            PrevSample {
                util_pct: f.s.util_pct,
                sm_clock_mhz: f.s.sm_clock_mhz,
                throttle: f.s.throttle,
            },
        ),
        at_gap(m, device, name, f).last_pressure_evt == m.last_pressure_evt,
        at_gap(m, device, name, f).vram_window == m.vram_window,
{
    reveal(step);
    reveal(at_throttle);
    reveal(at_spillover);
    reveal(at_list);
    reveal(at_hang);
    reveal(at_gap);
}

/// A process is remembered exactly where the list has it.
pub(crate) proof fn lemma_known_is_listed(m: DevModel, device: Seq<char>, name: Seq<char>, f: Frame)
    ensures
        forall|pid: u32| #[trigger]
            known(at_list(m, device, name, f).procs, pid) == listed(f.ps, pid),
{
    reveal(at_list);
    let c = at_list(m, device, name, f);
    law_one_entry_per_process(f.ps);
    let l = latest(f.ps);
    assert forall|pid: u32| #[trigger] known(c.procs, pid) == listed(f.ps, pid) by {
        assert(listed(l, pid) == listed(f.ps, pid));
        if known(c.procs, pid) {
            let i = choose|i: int| 0 <= i < c.procs.len() && (#[trigger] c.procs[i]).pid == pid;
            assert(l[i].pid == pid);
        }
        if listed(l, pid) {
            let i = choose|i: int| 0 <= i < l.len() && (#[trigger] l[i]).pid == pid;
            assert(c.procs[i].pid == pid);
        }
    }
}

/// After a frame, what is remembered of processes is its list.
pub(crate) proof fn lemma_known_before(
    device: Seq<char>,
    name: Seq<char>,
    fs: Seq<Frame>,
    n: nat,
)
    ensures
        after(device, name, fs, n).seen_first_procs <==> n > 0,
        n > 0 ==> forall|pid: u32| #[trigger]
            known(after(device, name, fs, n).procs, pid) == listed(fs[n - 1].ps, pid),
{
    if n > 0 {
        let m = after(device, name, fs, (n - 1) as nat);
        lemma_stages(m, device, name, fs[n - 1]);
        lemma_early_stages(m, device, name, fs[n - 1]);
        lemma_known_is_listed(m, device, name, fs[n - 1]);
    }
}

/// The list shows the process with this memory.
pub open spec fn holds(f: Frame, h: HolderView) -> bool {
    exists|i: int|
        0 <= i < f.ps.len() && (#[trigger] f.ps[i]).pid == h.pid && f.ps[i].name == h.name
            && f.ps[i].mem_bytes == Some(h.mem)
}

/// The holders of the list that was taken over stand in it.
pub(crate) proof fn lemma_holders_are_listed(
    m: DevModel,
    device: Seq<char>,
    name: Seq<char>,
    f: Frame,
    min_bytes: u64,
    quiet: Option<MilliPct>,
)
    ensures
        ({
            let hs = holders(at_list(m, device, name, f).procs, min_bytes, quiet);
            forall|h: HolderView| #[trigger]
                hs.contains(h) ==> h.mem >= min_bytes && holds(f, h) && listed(f.ps, h.pid)
        }),
{
    reveal(at_list);
    let c = at_list(m, device, name, f);
    let rule = holder_rule(min_bytes, quiet);
    let hs = holders(c.procs, min_bytes, quiet);
    lemma_filter_map_source(c.procs, rule);
    lemma_latest_upto(f.ps, f.ps.len());
    let l = latest(f.ps);
    assert forall|h: HolderView| #[trigger] hs.contains(h) implies h.mem >= min_bytes && holds(f, h)
        && listed(f.ps, h.pid) by {
        let i = choose|i: int| 0 <= i < hs.len() && hs[i] == h;
        let j = choose|j: int| 0 <= j < c.procs.len() && rule(#[trigger] c.procs[j]) == Some(hs[i]);
        assert(c.procs[j] == seen_of(l[j]));
        let k = choose|k: int| 0 <= k < f.ps.len() && #[trigger] f.ps[k] == l[j];
        assert(f.ps[k].pid == h.pid);
    }
}

/// The events of each rule are among those of the frame.
pub(crate) proof fn lemma_all_told(m: DevModel, device: Seq<char>, name: Seq<char>, f: Frame)
    ensures
        ({
            let a = throttle_step(m, device, name, f.s, f.temp_slowdown_c).1;
            let es = step(m, device, name, f).1;
            forall|x: EventView| #[trigger] a.contains(x) ==> es.contains(x)
        }),
        ({
            let b = spillover_step(at_throttle(m, device, name, f), device, name, f.s, f.ps).1;
            let es = step(m, device, name, f).1;
            forall|x: EventView| #[trigger] b.contains(x) ==> es.contains(x)
        }),
        ({
            let c = process_step(
                at_spillover(m, device, name, f),
                device,
                name,
                f.s.ts_ms,
                f.ps,
            ).1;
            let es = step(m, device, name, f).1;
            forall|x: EventView| #[trigger] c.contains(x) ==> es.contains(x)
        }),
        ({
            let d = hang_step(at_list(m, device, name, f), device, name, f.s).1;
            let es = step(m, device, name, f).1;
            forall|x: EventView| #[trigger] d.contains(x) ==> es.contains(x)
        }),
        ({
            let e = idle_gap_step(at_hang(m, device, name, f), device, name, f.s).1;
            let es = step(m, device, name, f).1;
            forall|x: EventView| #[trigger] e.contains(x) ==> es.contains(x)
        }),
        ({
            let g = vram_pressure_step(
                at_gap(m, device, name, f),
                device,
                name,
                f.s,
                f.mem_total,
            ).1;
            let es = step(m, device, name, f).1;
            forall|x: EventView| #[trigger] g.contains(x) ==> es.contains(x)
        }),
{
    reveal(step);
    reveal(at_throttle);
    reveal(at_spillover);
    reveal(at_list);
    reveal(at_hang);
    reveal(at_gap);
    let a = throttle_step(m, device, name, f.s, f.temp_slowdown_c);
    let b = spillover_step(a.0, device, name, f.s, f.ps);
    let c = process_step(b.0, device, name, f.s.ts_ms, f.ps);
    let d = hang_step(c.0, device, name, f.s);
    let e = idle_gap_step(d.0, device, name, f.s);
    let g = vram_pressure_step(e.0, device, name, f.s, f.mem_total);
    let es = step(m, device, name, f).1;
    assert(es == a.1 + b.1 + c.1 + d.1 + e.1 + g.1);
    let to_list = (a.1.len() + b.1.len()) as int;
    let to_hang = to_list + c.1.len();
    let to_gap = to_hang + d.1.len();
    let to_pressure = to_gap + e.1.len();
    assert forall|x: EventView| #[trigger] a.1.contains(x) implies es.contains(x) by {
        let i = choose|i: int| 0 <= i < a.1.len() && a.1[i] == x;
        assert(es[i] == x);
    }
    assert forall|x: EventView| #[trigger] b.1.contains(x) implies es.contains(x) by {
        let i = choose|i: int| 0 <= i < b.1.len() && b.1[i] == x;
        assert(es[a.1.len() + i] == x);
    }
    assert forall|x: EventView| #[trigger] c.1.contains(x) implies es.contains(x) by {
        let i = choose|i: int| 0 <= i < c.1.len() && c.1[i] == x;
        assert(es[to_list + i] == x);
    }
    assert forall|x: EventView| #[trigger] d.1.contains(x) implies es.contains(x) by {
        let i = choose|i: int| 0 <= i < d.1.len() && d.1[i] == x;
        assert(es[to_hang + i] == x);
    }
    assert forall|x: EventView| #[trigger] e.1.contains(x) implies es.contains(x) by {
        let i = choose|i: int| 0 <= i < e.1.len() && e.1[i] == x;
        assert(es[to_gap + i] == x);
    }
    assert forall|x: EventView| #[trigger] g.1.contains(x) implies es.contains(x) by {
        let i = choose|i: int| 0 <= i < g.1.len() && g.1[i] == x;
        assert(es[to_pressure + i] == x);
    }
}

/// A frame gives one hang, one gap and one pressure at most.
#[verifier::rlimit(40)]
pub proof fn law_one_of_a_kind_per_frame(
    device: Seq<char>,
    name: Seq<char>,
    fs: Seq<Frame>,
    n: nat,
    i: int,
    j: int,
)
    requires
        0 <= i < told(device, name, fs, n).len(),
        0 <= j < told(device, name, fs, n).len(),
        told(device, name, fs, n)[i].kind == told(device, name, fs, n)[j].kind,
        ({
            let k = told(device, name, fs, n)[i].kind;
            k is HangSuspected || k is IdleGap || k is VramPressure
        }),
    ensures
        i == j,
{
    let m = after(device, name, fs, n);
    let f = fs[n as int];
    reveal(step);
    let a = throttle_step(m, device, name, f.s, f.temp_slowdown_c);
    let b = spillover_step(a.0, device, name, f.s, f.ps);
    let c = process_step(b.0, device, name, f.s.ts_ms, f.ps);
    let d = hang_step(c.0, device, name, f.s);
    let e = idle_gap_step(d.0, device, name, f.s);
    let g = vram_pressure_step(e.0, device, name, f.s, f.mem_total);
    lemma_kinds(m, device, name, f.s, f.ps, f.mem_total, f.temp_slowdown_c);
    lemma_kinds(a.0, device, name, f.s, f.ps, f.mem_total, f.temp_slowdown_c);
    lemma_kinds(b.0, device, name, f.s, f.ps, f.mem_total, f.temp_slowdown_c);
    lemma_kinds(c.0, device, name, f.s, f.ps, f.mem_total, f.temp_slowdown_c);
    lemma_kinds(d.0, device, name, f.s, f.ps, f.mem_total, f.temp_slowdown_c);
    lemma_kinds(e.0, device, name, f.s, f.ps, f.mem_total, f.temp_slowdown_c);
    let es = step(m, device, name, f).1;
    assert(es == a.1 + b.1 + c.1 + d.1 + e.1 + g.1);
    assert(d.1.len() <= 1 && e.1.len() <= 1 && g.1.len() <= 1);
    let to_list = (a.1.len() + b.1.len()) as int;
    let to_hang = to_list + c.1.len();
    let to_gap = to_hang + d.1.len();
    let to_pressure = to_gap + e.1.len();
    assert forall|x: int| 0 <= x < es.len() && (x == i || x == j) implies x >= to_hang && ({
        let k = (#[trigger] es[x]).kind;
        &&& x < to_gap ==> k is HangSuspected
        &&& to_gap <= x < to_pressure ==> k is IdleGap
        &&& to_pressure <= x ==> k is VramPressure
    }) by {
        if x < a.1.len() {
            assert(es[x] == a.1[x]);
        } else if x < to_list {
            assert(es[x] == b.1[x - a.1.len()]);
        } else if x < to_hang {
            assert(es[x] == c.1[x - to_list]);
        } else if x < to_gap {
            assert(es[x] == d.1[x - to_hang]);
        } else if x < to_pressure {
            assert(es[x] == e.1[x - to_gap]);
        } else {
            assert(es[x] == g.1[x - to_pressure]);
        }
    }
    assert(es[i].kind == es[j].kind);
}

/// Two spillovers of a frame stand in their order in what the rule of spillovers tells.
#[verifier::rlimit(40)]
pub(crate) proof fn lemma_spillover_places(
    m: DevModel,
    device: Seq<char>,
    name: Seq<char>,
    f: Frame,
    i: int,
    j: int,
) -> (r: (int, int))
    requires
        0 <= i < j < step(m, device, name, f).1.len(),
        step(m, device, name, f).1[i].kind is CpuSpillover,
        step(m, device, name, f).1[j].kind is CpuSpillover,
    ensures
        ({
            let b = spillover_step(at_throttle(m, device, name, f), device, name, f.s, f.ps).1;
            &&& 0 <= r.0 < r.1 < b.len()
            &&& b[r.0] == step(m, device, name, f).1[i]
            &&& b[r.1] == step(m, device, name, f).1[j]
        }),
{
    let es = step(m, device, name, f).1;
    let n = lemma_segments(m, device, name, f);
    let b = spillover_step(at_throttle(m, device, name, f), device, name, f.s, f.ps).1;
    assert(n.0 <= i < n.1);
    assert(n.0 <= j < n.1);
    assert(es[i] == b[i - n.0] && es[j] == b[j - n.0]);
    (i - n.0, j - n.0)
}

/// Where the spillovers of a frame stand: from the first number to the second, and nowhere else.
#[verifier::rlimit(40)]
proof fn lemma_segments(m: DevModel, device: Seq<char>, name: Seq<char>, f: Frame) -> (r: (int, int))
    ensures
        ({
            let es = step(m, device, name, f).1;
            let b = spillover_step(at_throttle(m, device, name, f), device, name, f.s, f.ps).1;
            &&& 0 <= r.0 <= r.1 <= es.len()
            &&& r.1 - r.0 == b.len()
            &&& forall|i: int| r.0 <= i < r.1 ==> #[trigger] es[i] == b[i - r.0]
            &&& forall|i: int|
                0 <= i < es.len() && (#[trigger] es[i]).kind is CpuSpillover ==> r.0 <= i < r.1
        }),
{
    reveal(step);
    reveal(at_throttle);
    let a = throttle_step(m, device, name, f.s, f.temp_slowdown_c);
    let b = spillover_step(a.0, device, name, f.s, f.ps);
    let c = process_step(b.0, device, name, f.s.ts_ms, f.ps);
    let d = hang_step(c.0, device, name, f.s);
    let e = idle_gap_step(d.0, device, name, f.s);
    let g = vram_pressure_step(e.0, device, name, f.s, f.mem_total);
    lemma_kinds(m, device, name, f.s, f.ps, f.mem_total, f.temp_slowdown_c);
    lemma_kinds(b.0, device, name, f.s, f.ps, f.mem_total, f.temp_slowdown_c);
    lemma_kinds(c.0, device, name, f.s, f.ps, f.mem_total, f.temp_slowdown_c);
    lemma_kinds(d.0, device, name, f.s, f.ps, f.mem_total, f.temp_slowdown_c);
    lemma_kinds(e.0, device, name, f.s, f.ps, f.mem_total, f.temp_slowdown_c);
    let es = step(m, device, name, f).1;
    assert(es == a.1 + b.1 + c.1 + d.1 + e.1 + g.1);
    let from = a.1.len() as int;
    let to = from + b.1.len();
    let to_hang = to + c.1.len();
    let to_gap = to_hang + d.1.len();
    let to_pressure = to_gap + e.1.len();
    assert forall|i: int|
        0 <= i < es.len() && (#[trigger] es[i]).kind is CpuSpillover implies from <= i < to by {
        if i < from {
            assert(es[i] == a.1[i]);
        } else if i >= to {
            if i < to_hang {
                assert(es[i] == c.1[i - to]);
            } else if i < to_gap {
                assert(es[i] == d.1[i - to_hang]);
            } else if i < to_pressure {
                assert(es[i] == e.1[i - to_gap]);
            } else {
                assert(es[i] == g.1[i - to_pressure]);
            }
        }
    }
    (from, to)
}

/// Every event is one of the rule of its kind.
#[verifier::rlimit(40)]
pub(crate) proof fn lemma_by_kind(m: DevModel, device: Seq<char>, name: Seq<char>, f: Frame, i: int)
    requires
        0 <= i < step(m, device, name, f).1.len(),
    ensures
        ({
            let x = step(m, device, name, f).1[i];
            match x.kind {
                EventKind::ThrottleStart | EventKind::ThrottleEnd => throttle_step(
                    m,
                    device,
                    name,
                    f.s,
                    f.temp_slowdown_c,
                ).1.contains(x),
                EventKind::CpuSpillover => spillover_step(
                    at_throttle(m, device, name, f),
                    device,
                    name,
                    f.s,
                    f.ps,
                ).1.contains(x),
                EventKind::ProcessAttached | EventKind::ProcessExited => process_step(
                    at_spillover(m, device, name, f),
                    device,
                    name,
                    f.s.ts_ms,
                    f.ps,
                ).1.contains(x),
                EventKind::HangSuspected => hang_step(
                    at_list(m, device, name, f),
                    device,
                    name,
                    f.s,
                ).1.contains(x),
                EventKind::IdleGap => idle_gap_step(
                    at_hang(m, device, name, f),
                    device,
                    name,
                    f.s,
                ).1.contains(x),
                EventKind::VramPressure => vram_pressure_step(
                    at_gap(m, device, name, f),
                    device,
                    name,
                    f.s,
                    f.mem_total,
                ).1.contains(x),
                _ => false,
            }
        }),
{
    reveal(step);
    reveal(at_throttle);
    reveal(at_spillover);
    reveal(at_list);
    reveal(at_hang);
    reveal(at_gap);
    let a = throttle_step(m, device, name, f.s, f.temp_slowdown_c);
    let b = spillover_step(a.0, device, name, f.s, f.ps);
    let c = process_step(b.0, device, name, f.s.ts_ms, f.ps);
    let d = hang_step(c.0, device, name, f.s);
    let e = idle_gap_step(d.0, device, name, f.s);
    let g = vram_pressure_step(e.0, device, name, f.s, f.mem_total);
    lemma_kinds(m, device, name, f.s, f.ps, f.mem_total, f.temp_slowdown_c);
    lemma_kinds(a.0, device, name, f.s, f.ps, f.mem_total, f.temp_slowdown_c);
    lemma_kinds(b.0, device, name, f.s, f.ps, f.mem_total, f.temp_slowdown_c);
    lemma_kinds(c.0, device, name, f.s, f.ps, f.mem_total, f.temp_slowdown_c);
    lemma_kinds(d.0, device, name, f.s, f.ps, f.mem_total, f.temp_slowdown_c);
    lemma_kinds(e.0, device, name, f.s, f.ps, f.mem_total, f.temp_slowdown_c);
    let es = step(m, device, name, f).1;
    assert(es == a.1 + b.1 + c.1 + d.1 + e.1 + g.1);
    let to_list = a.1.len() + b.1.len() + c.1.len();
    if i < a.1.len() {
        assert(es[i] == a.1[i]);
    } else if i < a.1.len() + b.1.len() {
        assert(es[i] == b.1[i - a.1.len()]);
    } else if i < to_list {
        assert(es[i] == c.1[i - a.1.len() - b.1.len()]);
    } else if i < to_list + d.1.len() {
        assert(es[i] == d.1[i - to_list]);
    } else if i < to_list + d.1.len() + e.1.len() {
        assert(es[i] == e.1[i - to_list - d.1.len()]);
    } else {
        assert(es[i] == g.1[i - to_list - d.1.len() - e.1.len()]);
    }
}

} // verus!
