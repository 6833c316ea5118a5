//! Processes that come and go.

use vstd::prelude::*;
use crate::events::state::{DevModel, DevState, SeenProcess, SeenView};
use crate::events::state::seen_views;
use crate::events::{Confidence, Event, EventKind, EventView, Severity};
use crate::events::event_views;
use crate::events::lemma_event_pushed;
use crate::lists::filter_map;
use crate::lists::lemma_filter_map_step;
use crate::model::{DeviceId, ProcView, ProcessSample};
use crate::model::{bytes_text, proc_views, push_bytes};
use crate::text::{dec, push_dec};

verus! {

/// A later entry of the list speaks of the same process.
pub open spec fn superseded(ps: Seq<ProcView>, i: int) -> bool {
    exists|j: int| i < j < ps.len() && (#[trigger] ps[j]).pid == ps[i].pid
}

/// Of the first `n` entries, those that no entry of the list supersedes.
pub open spec fn latest_upto(ps: Seq<ProcView>, n: nat) -> Seq<ProcView>
    decreases n,
{
    if n == 0 {
        Seq::empty()
    } else if superseded(ps, n - 1) {
        latest_upto(ps, (n - 1) as nat)
    } else {
        latest_upto(ps, (n - 1) as nat).push(ps[n - 1])
    }
}

/// The list with one entry per process: its last.
pub open spec fn latest(ps: Seq<ProcView>) -> Seq<ProcView> {
    latest_upto(ps, ps.len())
}

/// The list speaks of process `pid`.
pub open spec fn listed(ps: Seq<ProcView>, pid: u32) -> bool {
    exists|i: int| 0 <= i < ps.len() && (#[trigger] ps[i]).pid == pid
}

/// Process `pid` was in the previous list.
pub open spec fn known(procs: Seq<SeenView>, pid: u32) -> bool {
    exists|i: int| 0 <= i < procs.len() && (#[trigger] procs[i]).pid == pid
}

/// The list's entry for each process.
pub fn latest_of(ps: &[ProcessSample]) -> (v: Vec<&ProcessSample>)
    ensures
        Seq::new(v@.len(), |i: int| v@[i]@) == latest(proc_views(ps@)),
{
    let ghost views = proc_views(ps@);
    let mut v: Vec<&ProcessSample> = Vec::new();
    let mut i: usize = 0;
    assert(Seq::new(v@.len(), |k: int| v@[k]@) =~= latest_upto(views, 0));
    while i < ps.len()
        invariant
            i <= ps.len(),
            views == proc_views(ps@),
            Seq::new(v@.len(), |k: int| v@[k]@) == latest_upto(views, i as nat),
        decreases ps.len() - i,
    {
        let mut later: bool = false;
        let mut j: usize = i + 1;
        while j < ps.len()
            invariant
                i < j <= ps.len(),
                views == proc_views(ps@),
                later == (exists|k: int| i < k < j && (#[trigger] views[k]).pid == views[i as int].pid),
            decreases ps.len() - j,
        {
            assert(views[j as int].pid == ps@[j as int].pid);
            if ps[j].pid == ps[i].pid {
                later = true;
            }
            j = j + 1;
        }
        assert(later == superseded(views, i as int));
        let ghost before = Seq::new(v@.len(), |k: int| v@[k]@);
        if !later {
            v.push(&ps[i]);
            assert(Seq::new(v@.len(), |k: int| v@[k]@) =~= before.push(views[i as int]));
        }
        i = i + 1;
    }
    v
}

/// Is process `pid` in the list?
pub fn is_listed(ps: &[ProcessSample], pid: u32) -> (r: bool)
    ensures
        r == listed(proc_views(ps@), pid),
{
    let ghost views = proc_views(ps@);
    let mut i: usize = 0;
    while i < ps.len()
        invariant
            i <= ps.len(),
            views == proc_views(ps@),
            forall|k: int| 0 <= k < i ==> (#[trigger] views[k]).pid != pid,
        decreases ps.len() - i,
    {
        if ps[i].pid == pid {
            assert(views[i as int].pid == pid);
            return true;
        }
        i = i + 1;
    }
    false
}

/// Was process `pid` in the previous list?
pub fn is_known(procs: &Vec<SeenProcess>, pid: u32) -> (r: bool)
    ensures
        r == known(seen_views(procs@), pid),
{
    let ghost views = seen_views(procs@);
    let mut i: usize = 0;
    while i < procs.len()
        invariant
            i <= procs.len(),
            views == seen_views(procs@),
            forall|k: int| 0 <= k < i ==> (#[trigger] views[k]).pid != pid,
        decreases procs.len() - i,
    {
        if procs[i].pid == pid {
            assert(views[i as int].pid == pid);
            return true;
        }
        i = i + 1;
    }
    false
}

/// The event of a process that attached.
pub open spec fn attached(
    device: Seq<char>,
    name: Seq<char>,
    ts_ms: u64,
    p: ProcView,
) -> EventView {
    EventView {
        ts_ms,
        device,
        kind: EventKind::ProcessAttached,
        severity: Severity::Info,
        confidence: Confidence::Fact,
        title: p.name + " (pid "@ + dec(p.pid as nat) + ") attached to "@ + name + (
        match p.mem_bytes {
            Some(b) => ", using "@ + bytes_text(b as nat),
            None => Seq::empty(),
        }),
        evidence: "new "@ + p.kind.prose_text() + " client in process list"@,
    }
}

/// The event of a process that left.
pub open spec fn exited(
    device: Seq<char>,
    name: Seq<char>,
    ts_ms: u64,
    p: SeenView,
) -> EventView {
    EventView {
        ts_ms,
        device,
        kind: EventKind::ProcessExited,
        severity: Severity::Info,
        confidence: Confidence::Fact,
        title: p.name + " (pid "@ + dec(p.pid as nat) + ") left "@ + name + (match p.mem_bytes {
            Some(b) => ", freeing "@ + bytes_text(b as nat),
            None => Seq::empty(),
        }),
        evidence: "pid "@ + dec(p.pid as nat) + " no longer in process list; last seen holding "@
            + (match p.mem_bytes {
            Some(b) => bytes_text(b as nat),
            None => "unknown memory"@,
        }),
    }
}

/// A process that was not in the previous list attached.
pub open spec fn attach_rule(
    procs: Seq<SeenView>,
    device: Seq<char>,
    name: Seq<char>,
    ts_ms: u64,
) -> spec_fn(ProcView) -> Option<EventView> {
    |p: ProcView|
        if known(procs, p.pid) {
            None
        } else {
            Some(attached(device, name, ts_ms, p))
        }
}

/// A process of the previous list that is not in this one left.
pub open spec fn exit_rule(
    ps: Seq<ProcView>,
    device: Seq<char>,
    name: Seq<char>,
    ts_ms: u64,
) -> spec_fn(SeenView) -> Option<EventView> {
    |p: SeenView|
        if listed(ps, p.pid) {
            None
        } else {
            Some(exited(device, name, ts_ms, p))
        }
}

/// What is remembered of a process.
pub open spec fn seen_of(p: ProcView) -> SeenView {
    SeenView { pid: p.pid, name: p.name, mem_bytes: p.mem_bytes, util_pct: p.util_pct }
}

/// What a process list does to what is remembered, and the events it gives: the arrivals, then
/// the departures. The first list gives none: its processes were there before.
pub open spec fn process_step(
    m: DevModel,
    device: Seq<char>,
    name: Seq<char>,
    ts_ms: u64,
    ps: Seq<ProcView>,
) -> (DevModel, Seq<EventView>) {
    (
        DevModel {
            procs: Seq::new(latest(ps).len(), |i: int| seen_of(latest(ps)[i])),
            seen_first_procs: true,
            ..m
        },
        if m.seen_first_procs {
            filter_map(latest(ps), attach_rule(m.procs, device, name, ts_ms)) + filter_map(
                m.procs,
                exit_rule(ps, device, name, ts_ms),
            )
        } else {
            Seq::empty()
        },
    )
}

fn attached_event(device: &DeviceId, name: &String, ts_ms: u64, p: &ProcessSample) -> (e: Event)
    ensures
        e@ == attached(device@, name@, ts_ms, p@),
{
    let mut title: String = p.name.clone();
    title.append(" (pid ");
    push_dec(&mut title, p.pid as u128);
    title.append(") attached to ");
    title.append(name.as_str());
    if let Some(b) = p.mem_bytes {
        title.append(", using ");
        push_bytes(&mut title, b);
    }
    let mut evidence: String = String::new();
    evidence.append("new ");
    evidence.append(p.kind.prose());
    evidence.append(" client in process list");
    let e = Event {
        ts_ms,
        device: device.clone(),
        kind: EventKind::ProcessAttached,
        severity: Severity::Info,
        confidence: Confidence::Fact,
        title,
        evidence,
    };
    proof {
        let want = attached(device@, name@, ts_ms, p@);
        assert(e.title@ =~= want.title);
        assert(e.evidence@ =~= want.evidence);
    }
    e
}

fn exited_event(device: &DeviceId, name: &String, ts_ms: u64, p: &SeenProcess) -> (e: Event)
    ensures
        e@ == exited(device@, name@, ts_ms, p@),
{
    let mut title: String = p.name.clone();
    title.append(" (pid ");
    push_dec(&mut title, p.pid as u128);
    title.append(") left ");
    title.append(name.as_str());
    let mut evidence: String = String::new();
    evidence.append("pid ");
    push_dec(&mut evidence, p.pid as u128);
    evidence.append(" no longer in process list; last seen holding ");
    match p.mem_bytes {
        Some(b) => {
            title.append(", freeing ");
            push_bytes(&mut title, b);
            push_bytes(&mut evidence, b);
        },
        None => {
            evidence.append("unknown memory");
        },
    }
    let e = Event {
        ts_ms,
        device: device.clone(),
        kind: EventKind::ProcessExited,
        severity: Severity::Info,
        confidence: Confidence::Fact,
        title,
        evidence,
    };
    proof {
        let want = exited(device@, name@, ts_ms, p@);
        assert(e.title@ =~= want.title);
        assert(e.evidence@ =~= want.evidence);
    }
    e
}

/// Follows the processes of a device.
pub fn process_events(
    st: &mut DevState,
    device: &DeviceId,
    name: &String,
    ts_ms: u64,
    processes: &[ProcessSample],
    out: &mut Vec<Event>,
)
    ensures
        final(st)@ == process_step(old(st)@, device@, name@, ts_ms, proc_views(processes@)).0,
        event_views(final(out)@) == event_views(old(out)@) + process_step(
            old(st)@,
            device@,
            name@,
            ts_ms,
            proc_views(processes@),
        ).1,
        final(st).idle_gap == old(st).idle_gap,
        final(st).hang == old(st).hang,
        final(st).spillovers == old(st).spillovers,
{
    let ghost m = st@;
    let ghost ps = proc_views(processes@);
    let ghost told = event_views(out@);
    let now = latest_of(processes);
    let ghost now_views = latest(ps);
    if st.seen_first_procs {
        let ghost rule = attach_rule(m.procs, device@, name@, ts_ms);
        let mut i: usize = 0;
        assert(event_views(out@) =~= told + filter_map(now_views.take(0), rule));
        while i < now.len()
            invariant
                i <= now.len(),
                now_views == Seq::new(now@.len(), |k: int| now@[k]@),
                rule == attach_rule(m.procs, device@, name@, ts_ms),
                m.procs == seen_views(st.procs@),
                event_views(out@) == told + filter_map(now_views.take(i as int), rule),
            decreases now.len() - i,
        {
            proof {
                lemma_filter_map_step(now_views, rule, i as int);
                assert(now_views[i as int] == now@[i as int]@);
            }
            let p = now[i];
            if !is_known(&st.procs, p.pid) {
                let e = attached_event(device, name, ts_ms, p);
                proof {
                    lemma_event_pushed(out@, e);
                }
                out.push(e);
            }
            assert(event_views(out@) =~= told + filter_map(now_views.take(i + 1), rule));
            i = i + 1;
        }
        assert(now_views.take(now_views.len() as int) =~= now_views);
        let ghost arrivals = filter_map(now_views, rule);
        let ghost rule2 = exit_rule(ps, device@, name@, ts_ms);
        let mut j: usize = 0;
        assert(event_views(out@) =~= told + arrivals + filter_map(m.procs.take(0), rule2));
        while j < st.procs.len()
            invariant
                j <= st.procs.len(),
                rule2 == exit_rule(ps, device@, name@, ts_ms),
                ps == proc_views(processes@),
                m.procs == seen_views(st.procs@),
                event_views(out@) == told + arrivals + filter_map(m.procs.take(j as int), rule2),
            decreases st.procs.len() - j,
        {
            proof {
                lemma_filter_map_step(m.procs, rule2, j as int);
                assert(m.procs[j as int] == st.procs@[j as int]@);
            }
            if !is_listed(processes, st.procs[j].pid) {
                let e = exited_event(device, name, ts_ms, &st.procs[j]);
                proof {
                    lemma_event_pushed(out@, e);
                }
                out.push(e);
            }
            assert(event_views(out@) =~= told + arrivals + filter_map(m.procs.take(j + 1), rule2));
            j = j + 1;
        }
        assert(m.procs.take(m.procs.len() as int) =~= m.procs);
        assert(event_views(out@) =~= told + (arrivals + filter_map(m.procs, rule2)));
    } else {
        assert(event_views(out@) =~= told + Seq::empty());
    }
    let mut procs: Vec<SeenProcess> = Vec::new();
    let mut k: usize = 0;
    while k < now.len()
        invariant
            k <= now.len(),
            now_views == Seq::new(now@.len(), |i: int| now@[i]@),
            procs@.len() == k,
            forall|i: int| 0 <= i < k ==> (#[trigger] procs@[i])@ == seen_of(now_views[i]),
        decreases now.len() - k,
    {
        let p = now[k];
        procs.push(
            SeenProcess {
                pid: p.pid,
                name: p.name.clone(),
                mem_bytes: p.mem_bytes,
                util_pct: p.util_pct,
            },
        );
        assert(now_views[k as int] == now@[k as int]@);
        assert(procs@[k as int]@ == seen_of(now_views[k as int]));
        k = k + 1;
    }
    st.seen_first_procs = true;
    st.procs = procs;
    assert(seen_views(st.procs@) =~= Seq::new(now_views.len(), |i: int| seen_of(now_views[i])));
}

} // verus!
