//! CPU spillover: a freshly loaded model that runs on the CPU while the device idles.

use vstd::prelude::*;
use crate::events::process::{is_known, known, latest, latest_of};
use crate::events::state::{DevModel, DevState, Holder, HolderView, Mean, MeanView, SeenProcess, Spillover, SpilloverView};
use crate::events::state::{seen_views, spillover_views};
use crate::events::{Confidence, Event, EventKind, EventView, Severity};
use crate::events::{dur_text, event_views, since};
use crate::events::{lemma_event_pushed, push_dur_ms};
use crate::lists::filter_map;
use crate::lists::lemma_filter_map_step;
use crate::model::{DeviceId, DynamicSample, MilliPct, ProcView, ProcessSample};
use crate::model::{bytes_text, proc_views, push_bytes};
use crate::text::{dec, push_dec, push_signed_fixed0, push_signed_fixed1, signed_fixed0, signed_fixed1};

verus! {

/// 2 GiB.
pub const SPILLOVER_HOLDER_MIN_BYTES: u64 = 0x8000_0000;

/// How long a new process is assessed.
pub const SPILLOVER_WINDOW_MS: u64 = 90_000;

/// The device is idle while its mean utilization is below this.
pub const SPILLOVER_MAX_MEAN_UTIL_PCT: MilliPct = 15_000;

/// One reading at this level shows real use.
pub const SPILLOVER_BUSY_UTIL_PCT: MilliPct = 30_000;

/// The process burns CPU from this mean on: one core and a half.
pub const SPILLOVER_MIN_MEAN_CPU_PCT: MilliPct = 150_000;

/// Fewer CPU readings than this show nothing.
pub const SPILLOVER_MIN_CPU_SAMPLES: u64 = 3;

/// The list's last entry for process `pid`.
pub open spec fn entry_of(ps: Seq<ProcView>, pid: u32) -> Option<ProcView>
    decreases ps.len(),
{
    if ps.len() == 0 {
        None
    } else if ps.last().pid == pid {
        Some(ps.last())
    } else {
        entry_of(ps.drop_last(), pid)
    }
}

fn find_entry(ps: &[ProcessSample], pid: u32) -> (r: Option<usize>)
    ensures
        match r {
            Some(i) => i < ps@.len() && entry_of(proc_views(ps@), pid) == Some(ps@[i as int]@),
            None => entry_of(proc_views(ps@), pid) is None,
        },
{
    let ghost views = proc_views(ps@);
    let mut n: usize = ps.len();
    assert(views.take(n as int) =~= views);
    while n > 0
        invariant
            n <= ps.len(),
            views == proc_views(ps@),
            entry_of(views.take(n as int), pid) == entry_of(views, pid),
        decreases n,
    {
        assert(views.take(n as int).last() == ps@[n - 1]@);
        assert(views.take(n as int).drop_last() =~= views.take(n - 1));
        if ps[n - 1].pid == pid {
            return Some(n - 1);
        }
        n = n - 1;
    }
    None
}

/// An assessment of process `pid` is open.
pub open spec fn assessed(sp: Seq<SpilloverView>, pid: u32) -> bool {
    exists|i: int| 0 <= i < sp.len() && (#[trigger] sp[i]).holder.pid == pid
}

fn is_assessed(sp: &Vec<Spillover>, pid: u32) -> (r: bool)
    ensures
        r == assessed(spillover_views(sp@), pid),
{
    let ghost views = spillover_views(sp@);
    let mut i: usize = 0;
    while i < sp.len()
        invariant
            i <= sp.len(),
            views == spillover_views(sp@),
            forall|k: int| 0 <= k < i ==> (#[trigger] views[k]).holder.pid != pid,
        decreases sp.len() - i,
    {
        if sp[i].holder.pid == pid {
            assert(views[i as int].holder.pid == pid);
            return true;
        }
        i = i + 1;
    }
    false
}

/// A process that just attached with much memory is assessed from now on.
pub open spec fn open_rule(m: DevModel, ts_ms: u64) -> spec_fn(ProcView) -> Option<SpilloverView> {
    |p: ProcView|
        match p.mem_bytes {
            Some(mem) => if mem >= SPILLOVER_HOLDER_MIN_BYTES && !known(m.procs, p.pid)
                && !assessed(m.spillovers, p.pid) {
                Some(
                    SpilloverView {
                        holder: HolderView { pid: p.pid, name: p.name, mem },
                        start_ms: ts_ms,
                        util: MeanView::none(),
                        cpu: MeanView::none(),
                    },
                )
            } else {
                None
            },
            None => None,
        }
}

/// The assessments that a list opens; the first list opens none.
pub open spec fn opened(m: DevModel, ts_ms: u64, ps: Seq<ProcView>) -> Seq<SpilloverView> {
    if m.seen_first_procs {
        filter_map(latest(ps), open_rule(m, ts_ms))
    } else {
        Seq::empty()
    }
}

/// The device shows real use.
pub open spec fn busy(s: DynamicSample) -> bool {
    match s.util_pct {
        Some(u) => u >= SPILLOVER_BUSY_UTIL_PCT,
        None => false,
    }
}

/// One more reading, or none.
pub open spec fn with_reading(m: MeanView, reading: Option<MilliPct>) -> MeanView {
    match reading {
        Some(r) => m.with(r as int),
        None => m,
    }
}

/// The assessment after a sample, while its process is there.
pub open spec fn assessed_on(sp: SpilloverView, s: DynamicSample, p: ProcView) -> SpilloverView {
    SpilloverView {
        util: with_reading(sp.util, s.util_pct),
        cpu: with_reading(sp.cpu, p.cpu_pct),
        ..sp
    }
}

/// The window is over and the readings show a spillover.
pub open spec fn spilled(sp: SpilloverView) -> bool {
    &&& sp.cpu.n >= SPILLOVER_MIN_CPU_SAMPLES
    &&& sp.util.sum < SPILLOVER_MAX_MEAN_UTIL_PCT * sp.util.divisor()
    &&& sp.cpu.sum >= SPILLOVER_MIN_MEAN_CPU_PCT * sp.cpu.divisor()
}

/// An assessment goes on while the device is idle, the process is there and the window is open.
pub open spec fn keep_rule(
    s: DynamicSample,
    ps: Seq<ProcView>,
) -> spec_fn(SpilloverView) -> Option<SpilloverView> {
    |sp: SpilloverView|
        match entry_of(ps, sp.holder.pid) {
            Some(p) => if !busy(s) && since(s.ts_ms, sp.start_ms) < SPILLOVER_WINDOW_MS {
                Some(assessed_on(sp, s, p))
            } else {
                None
            },
            None => None,
        }
}

/// The event of a spillover.
pub open spec fn cpu_spillover(
    device: Seq<char>,
    name: Seq<char>,
    ts_ms: u64,
    sp: SpilloverView,
) -> EventView {
    let who = sp.holder.name + " (pid "@ + dec(sp.holder.pid as nat) + ")"@;
    EventView {
        ts_ms,
        device,
        kind: EventKind::CpuSpillover,
        severity: Severity::Warning,
        confidence: Confidence::Likely,
        title: who + " loaded "@ + bytes_text(sp.holder.mem as nat) + " but "@ + name
            + " is ~idle while its CPU runs hot — likely partial CPU offload (model may not fit in VRAM)"@,
        evidence: "over "@ + dur_text(since(ts_ms, sp.start_ms) as nat) + " ("@ + dec(
            sp.start_ms as nat,
        ) + ".."@ + dec(ts_ms as nat) + " ms): "@ + name + " util mean "@ + signed_fixed1(
            sp.util.sum,
            sp.util.divisor() * 1000,
        ) + "%, "@ + who + " CPU mean "@ + signed_fixed0(sp.cpu.sum, sp.cpu.divisor() * 1000)
            + "% of one core ("@ + dec(sp.cpu.n) + " samples)"@,
    }
}

/// An assessment whose window is over is judged.
pub open spec fn tell_rule(
    device: Seq<char>,
    name: Seq<char>,
    s: DynamicSample,
    ps: Seq<ProcView>,
) -> spec_fn(SpilloverView) -> Option<EventView> {
    |sp: SpilloverView|
        match entry_of(ps, sp.holder.pid) {
            Some(p) => {
                let judged = assessed_on(sp, s, p);
                if !busy(s) && since(s.ts_ms, sp.start_ms) >= SPILLOVER_WINDOW_MS && spilled(
                    judged,
                ) {
                    Some(cpu_spillover(device, name, s.ts_ms, judged))
                } else {
                    None
                }
            },
            None => None,
        }
}

/// What a sample and its process list do to the assessments, and the events they give.
pub open spec fn spillover_step(
    m: DevModel,
    device: Seq<char>,
    name: Seq<char>,
    s: DynamicSample,
    ps: Seq<ProcView>,
) -> (DevModel, Seq<EventView>) {
    let all = m.spillovers + opened(m, s.ts_ms, ps);
    (
        DevModel { spillovers: filter_map(all, keep_rule(s, ps)), ..m },
        filter_map(all, tell_rule(device, name, s, ps)),
    )
}

fn spillover_event(device: &DeviceId, name: &String, ts_ms: u64, sp: &Spillover) -> (e: Event)
    requires
        sp.within(u64::MAX as nat),
    ensures
        e@ == cpu_spillover(device@, name@, ts_ms, sp@),
{
    let mut who: String = sp.holder.name.clone();
    who.append(" (pid ");
    push_dec(&mut who, sp.holder.pid as u128);
    who.append(")");
    let mut title: String = who.clone();
    title.append(" loaded ");
    push_bytes(&mut title, sp.holder.mem);
    title.append(" but ");
    title.append(name.as_str());
    title.append(
        " is ~idle while its CPU runs hot — likely partial CPU offload (model may not fit in VRAM)",
    );
    let mut evidence: String = String::new();
    evidence.append("over ");
    push_dur_ms(&mut evidence, ts_ms.saturating_sub(sp.start_ms));
    evidence.append(" (");
    push_dec(&mut evidence, sp.start_ms as u128);
    evidence.append("..");
    push_dec(&mut evidence, ts_ms as u128);
    evidence.append(" ms): ");
    evidence.append(name.as_str());
    evidence.append(" util mean ");
    push_signed_fixed1(&mut evidence, sp.util.sum, sp.util.divisor() as u128 * 1000);
    evidence.append("%, ");
    evidence.append(who.as_str());
    evidence.append(" CPU mean ");
    push_signed_fixed0(&mut evidence, sp.cpu.sum, sp.cpu.divisor() as u128 * 1000);
    evidence.append("% of one core (");
    push_dec(&mut evidence, sp.cpu.n as u128);
    evidence.append(" samples)");
    let e = Event {
        ts_ms,
        device: device.clone(),
        kind: EventKind::CpuSpillover,
        severity: Severity::Warning,
        confidence: Confidence::Likely,
        title,
        evidence,
    };
    proof {
        let want = cpu_spillover(device@, name@, ts_ms, sp@);
        assert(e.title@ =~= want.title);
        assert(e.evidence@ =~= want.evidence);
    }
    e
}

/// Opens the assessments of a list.
fn open_assessments(
    procs: &Vec<SeenProcess>,
    spillovers: &Vec<Spillover>,
    ts_ms: u64,
    processes: &[ProcessSample],
    Ghost(m): Ghost<DevModel>,
) -> (v: Vec<Spillover>)
    requires
        m.procs == seen_views(procs@),
        m.spillovers == spillover_views(spillovers@),
    ensures
        spillover_views(v@) == filter_map(latest(proc_views(processes@)), open_rule(m, ts_ms)),
        forall|i: int| 0 <= i < v@.len() ==> (#[trigger] v@[i]).within(0),
{
    let now = latest_of(processes);
    let ghost views = latest(proc_views(processes@));
    let ghost rule = open_rule(m, ts_ms);
    let mut v: Vec<Spillover> = Vec::new();
    let mut i: usize = 0;
    assert(spillover_views(v@) =~= filter_map(views.take(0), rule));
    while i < now.len()
        invariant
            i <= now.len(),
            views == Seq::new(now@.len(), |k: int| now@[k]@),
            rule == open_rule(m, ts_ms),
            m.procs == seen_views(procs@),
            m.spillovers == spillover_views(spillovers@),
            spillover_views(v@) == filter_map(views.take(i as int), rule),
            forall|k: int| 0 <= k < v@.len() ==> (#[trigger] v@[k]).within(0),
        decreases now.len() - i,
    {
        proof {
            lemma_filter_map_step(views, rule, i as int);
            assert(views[i as int] == now@[i as int]@);
        }
        let ghost before = v@;
        let p = now[i];
        if let Some(mem) = p.mem_bytes {
            if mem >= SPILLOVER_HOLDER_MIN_BYTES && !is_known(procs, p.pid) && !is_assessed(
                spillovers,
                p.pid,
            ) {
                let sp = Spillover {
                    holder: Holder { pid: p.pid, name: p.name.clone(), mem },
                    start_ms: ts_ms,
                    util: Mean::new(),
                    cpu: Mean::new(),
                };
                assert(spillover_views(before.push(sp)) =~= spillover_views(before).push(sp@));
                v.push(sp);
            }
        }
        i = i + 1;
    }
    assert(views.take(views.len() as int) =~= views);
    v
}

/// Follows the assessments of a device.
pub fn spillover_events(
    st: &mut DevState,
    device: &DeviceId,
    name: &String,
    sample: &DynamicSample,
    processes: &[ProcessSample],
    out: &mut Vec<Event>,
)
    requires
        old(st).spillovers_within((u64::MAX - 1) as nat),
    ensures
        final(st)@ == spillover_step(old(st)@, device@, name@, *sample, proc_views(processes@)).0,
        event_views(final(out)@) == event_views(old(out)@) + spillover_step(
            old(st)@,
            device@,
            name@,
            *sample,
            proc_views(processes@),
        ).1,
        final(st).idle_gap == old(st).idle_gap,
        final(st).hang == old(st).hang,
        forall|limit: nat| #[trigger]
            old(st).spillovers_within(limit) ==> final(st).spillovers_within(limit + 1),
{
    let ghost m = st@;
    let ghost s0 = *st;
    let ghost told = event_views(out@);
    let ghost ps = proc_views(processes@);
    let mut all: Vec<Spillover> = Vec::new();
    std::mem::swap(&mut all, &mut st.spillovers);
    if st.seen_first_procs {
        let mut new = open_assessments(&st.procs, &all, sample.ts_ms, processes, Ghost(m));
        all.append(&mut new);
    }
    let ghost views = m.spillovers + opened(m, sample.ts_ms, ps);
    assert(spillover_views(all@) =~= views);
    let gpu_busy: bool = match sample.util_pct {
        Some(u) => u >= SPILLOVER_BUSY_UTIL_PCT,
        None => false,
    };
    let ghost keep = keep_rule(*sample, ps);
    let ghost tell = tell_rule(device@, name@, *sample, ps);
    let mut kept: Vec<Spillover> = Vec::new();
    let ghost all_seq = all@;
    assert forall|limit: nat, i: int|
        #[trigger] s0.spillovers_within(limit) && 0 <= i < all_seq.len() implies (
    #[trigger] all_seq[i]).within(limit) by {}
    assert(spillover_views(kept@) =~= filter_map(views.take(0), keep));
    assert(event_views(out@) =~= told + filter_map(views.take(0), tell));
    for sp0 in it: all
        invariant
            it.seq() == all_seq,
            views == spillover_views(all_seq),
            keep == keep_rule(*sample, ps),
            tell == tell_rule(device@, name@, *sample, ps),
            ps == proc_views(processes@),
            gpu_busy == busy(*sample),
            s0.spillovers_within((u64::MAX - 1) as nat),
            forall|limit: nat, i: int|
                #[trigger] s0.spillovers_within(limit) && 0 <= i < all_seq.len() ==> (
                #[trigger] all_seq[i]).within(limit),
            spillover_views(kept@) == filter_map(views.take(it.index() as int), keep),
            event_views(out@) == told + filter_map(views.take(it.index() as int), tell),
            forall|limit: nat, i: int|
                #[trigger] s0.spillovers_within(limit) && 0 <= i < kept@.len() ==> (
                #[trigger] kept@[i]).within(limit + 1),
    {
        let ghost i = it.index() as int;
        proof {
            lemma_filter_map_step(views, keep, i);
            lemma_filter_map_step(views, tell, i);
            assert(views[i] == all_seq[i]@);
        }
        let mut sp = sp0;
        if !gpu_busy {
            if let Some(k) = find_entry(processes, sp.holder.pid) {
                if let Some(u) = sample.util_pct {
                    sp.util.take(u);
                }
                if let Some(c) = processes[k].cpu_pct {
                    sp.cpu.take(c);
                }
                assert(sp@ == assessed_on(views[i], *sample, processes@[k as int]@));
                if sample.ts_ms.saturating_sub(sp.start_ms) < SPILLOVER_WINDOW_MS {
                    let ghost before = kept@;
                    assert(spillover_views(before.push(sp)) =~= spillover_views(before).push(sp@));
                    kept.push(sp);
                } else if sp.cpu.n >= SPILLOVER_MIN_CPU_SAMPLES && sp.util.sum < (
                SPILLOVER_MAX_MEAN_UTIL_PCT as i128) * (sp.util.divisor() as i128) && sp.cpu.sum
                    >= (SPILLOVER_MIN_MEAN_CPU_PCT as i128) * (sp.cpu.divisor() as i128) {
                    let e = spillover_event(device, name, sample.ts_ms, &sp);
                    proof {
                        lemma_event_pushed(out@, e);
                    }
                    out.push(e);
                }
            }
        }
        assert(event_views(out@) =~= told + filter_map(views.take(i + 1), tell));
    }
    assert(views.take(views.len() as int) =~= views);
    st.spillovers = kept;
}

} // verus!
