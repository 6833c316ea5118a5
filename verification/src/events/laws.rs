//! What holds of every observation.

use vstd::prelude::*;
use crate::events::hang::{HANG_MIN_MS, hang_step, hang_suspected};
use crate::events::idle::{gap_told, idle_gap_step};
use crate::events::process::{attach_rule, attached, exit_rule, exited, known, latest, latest_upto, listed, process_step, superseded};
use crate::events::spillover::{spillover_step, tell_rule};
use crate::events::state::{DevModel, HangView, SeenView};
use crate::events::throttle::throttle_step;
use crate::events::vram::{VRAM_COOLDOWN_MS, VRAM_WINDOW_MS, trimmed, vram_pressure_step, window_step};
use crate::events::{EventKind, EventView};
use crate::events::{observe_step, since};
use crate::lists::{filter_map, mentions};
use crate::lists::{lemma_filter_map_contains, lemma_filter_map_source, lemma_mentions_add, lemma_mentions_at};
use crate::model::{DynamicSample, MilliC, ProcView};

verus! {

/// The kinds of events that are inferences.
pub open spec fn is_inference(k: EventKind) -> bool {
    k is VramPressure || k is IdleGap || k is HangSuspected || k is CpuSpillover
}

/// The kinds of events that samples and lists show by themselves.
pub open spec fn is_seen(k: EventKind) -> bool {
    k is ThrottleStart || k is ThrottleEnd || k is ProcessAttached || k is ProcessExited
}

/// An event of `device` at `ts_ms` that is honest about what it knows: an inference is marked
/// `Likely` and says so in its title, everything else is a fact that was seen; and either has its
/// evidence with it.
pub open spec fn honest(e: EventView, device: Seq<char>, ts_ms: u64) -> bool {
    &&& e.ts_ms == ts_ms
    &&& e.device == device
    &&& e.evidence.len() > 0
    &&& is_inference(e.kind) || is_seen(e.kind)
    &&& is_inference(e.kind) <==> e.confidence is Likely
    &&& is_seen(e.kind) <==> e.confidence is Fact
    &&& e.confidence is Likely ==> mentions(e.title, "likely"@)
}

/// All the events are honest.
pub open spec fn all_honest(es: Seq<EventView>, device: Seq<char>, ts_ms: u64) -> bool {
    forall|i: int| 0 <= i < es.len() ==> honest(#[trigger] es[i], device, ts_ms)
}

proof fn lemma_hang_hedged(device: Seq<char>, name: Seq<char>, ts_ms: u64, ep: HangView)
    ensures
        mentions(hang_suspected(device, name, ts_ms, ep).title, "likely"@),
{
    reveal_strlit("likely");
    reveal_strlit(" likely hung — held ");
    let lit = " likely hung — held "@;
    assert(lit.subrange(1, 7) =~= "likely"@);
    lemma_mentions_at(lit, "likely"@, 1);
    let t = hang_suspected(device, name, ts_ms, ep).title;
    let who = ep.holder.name + " (pid "@ + crate::text::dec(ep.holder.pid as nat) + ")"@;
    let mem = crate::model::bytes_text(ep.holder.mem as nat);
    let dur = crate::events::dur_text(since(ts_ms, ep.start_ms) as nat);
    let a = name + ": "@ + who;
    lemma_mentions_add(a, lit, "likely"@);
    lemma_mentions_add(a + lit, mem, "likely"@);
    lemma_mentions_add(a + lit + mem, " for "@, "likely"@);
    lemma_mentions_add(a + lit + mem + " for "@, dur, "likely"@);
    lemma_mentions_add(
        a + lit + mem + " for "@ + dur,
        " with zero GPU activity, process still alive"@,
        "likely"@,
    );
}

proof fn lemma_gap_hedged(
    device: Seq<char>,
    name: Seq<char>,
    ts_ms: u64,
    gap: crate::events::state::IdleGapView,
)
    ensures
        all_honest(gap_told(device, name, ts_ms, gap), device, ts_ms),
{
    reveal_strlit("likely");
    reveal_strlit(" stayed attached — likely a dataloader or checkpoint stall");
    reveal_strlit("util ");
    let lit = " stayed attached — likely a dataloader or checkpoint stall"@;
    assert(lit.subrange(19, 25) =~= "likely"@);
    lemma_mentions_at(lit, "likely"@, 19);
    let es = gap_told(device, name, ts_ms, gap);
    assert forall|i: int| 0 <= i < es.len() implies honest(#[trigger] es[i], device, ts_ms) by {
        let holder = crate::events::holders::largest(gap.holders)->0;
        let who = holder.name + " (pid "@ + crate::text::dec(holder.pid as nat) + ")"@;
        let dur = crate::events::dur_text(since(ts_ms, gap.start_ms) as nat);
        lemma_mentions_add(name + " sat idle "@ + dur + " while "@ + who, lit, "likely"@);
    }
}

proof fn lemma_spillover_hedged(
    device: Seq<char>,
    name: Seq<char>,
    ts_ms: u64,
    sp: crate::events::state::SpilloverView,
)
    ensures
        mentions(
            crate::events::spillover::cpu_spillover(device, name, ts_ms, sp).title,
            "likely"@,
        ),
{
    reveal_strlit("likely");
    reveal_strlit(
        " is ~idle while its CPU runs hot — likely partial CPU offload (model may not fit in VRAM)",
    );
    let lit =
        " is ~idle while its CPU runs hot — likely partial CPU offload (model may not fit in VRAM)"@;
    assert(lit.subrange(35, 41) =~= "likely"@);
    lemma_mentions_at(lit, "likely"@, 35);
    let who = sp.holder.name + " (pid "@ + crate::text::dec(sp.holder.pid as nat) + ")"@;
    lemma_mentions_add(
        who + " loaded "@ + crate::model::bytes_text(sp.holder.mem as nat) + " but "@ + name,
        lit,
        "likely"@,
    );
}

proof fn lemma_pressure_hedged(
    device: Seq<char>,
    name: Seq<char>,
    ts_ms: u64,
    used: u64,
    total: u64,
    w: Seq<(u64, u64)>,
    procs: Seq<SeenView>,
)
    ensures
        mentions(
            crate::events::vram::pressure(device, name, ts_ms, used, total, w, procs).title,
            "likely"@,
        ),
{
    reveal_strlit("likely");
    reveal_strlit("/min — likely full in ~");
    let lit = "/min — likely full in ~"@;
    assert(lit.subrange(7, 13) =~= "likely"@);
    lemma_mentions_at(lit, "likely"@, 7);
    let span = (w.last().0 - w[0].0) as nat;
    let climb = (w.last().1 - w[0].1) as nat;
    let min = crate::events::vram::MS_PER_MIN as nat;
    let rate = crate::model::bytes_text(climb * min / span);
    let headroom = since(total, used) as nat;
    let a = name + " VRAM "@ + crate::text::fixed0(used as nat * 100, total as nat)
        + "% and climbing ~"@ + rate;
    let eta = crate::text::fixed0(headroom * span, climb * min);
    lemma_mentions_add(a, lit, "likely"@);
    lemma_mentions_add(a + lit, eta, "likely"@);
    lemma_mentions_add(a + lit + eta, " min"@, "likely"@);
    lemma_mentions_add(
        a + lit + eta + " min"@,
        crate::events::vram::grower_text(procs),
        "likely"@,
    );
}

proof fn lemma_spillovers_honest(
    m: DevModel,
    device: Seq<char>,
    name: Seq<char>,
    s: DynamicSample,
    ps: Seq<ProcView>,
)
    ensures
        all_honest(spillover_step(m, device, name, s, ps).1, device, s.ts_ms),
{
    let told = spillover_step(m, device, name, s, ps).1;
    let all = m.spillovers + crate::events::spillover::opened(m, s.ts_ms, ps);
    reveal_strlit("over ");
    lemma_filter_map_source(all, tell_rule(device, name, s, ps));
    assert forall|i: int| 0 <= i < told.len() implies honest(
        #[trigger] told[i],
        device,
        s.ts_ms,
    ) by {
        let j = choose|j: int|
            0 <= j < all.len() && tell_rule(device, name, s, ps)(#[trigger] all[j]) == Some(
                told[i],
            );
        let p = crate::events::spillover::entry_of(ps, all[j].holder.pid)->0;
        lemma_spillover_hedged(
            device,
            name,
            s.ts_ms,
            crate::events::spillover::assessed_on(all[j], s, p),
        );
    }
}

proof fn lemma_hang_honest(m: DevModel, device: Seq<char>, name: Seq<char>, s: DynamicSample)
    ensures
        all_honest(hang_step(m, device, name, s).1, device, s.ts_ms),
{
    reveal_strlit("device util mean ");
    if let Some(ep) = m.hang {
        if let Some(util) = s.util_pct {
            lemma_hang_hedged(
                device,
                name,
                s.ts_ms,
                HangView { util: ep.util.with(util as int), ..ep },
            );
        }
    }
}

/// Facts are told as facts and inferences as inferences: whatever is observed, every event is of
/// the observed device at the sample's time and has evidence, exactly the inferences are marked
/// `Likely` and hedged in their title, and everything else tells where throttling began or ended
/// or a process came or left.
pub proof fn law_events_are_honest(
    m: DevModel,
    device: Seq<char>,
    name: Seq<char>,
    s: DynamicSample,
    ps: Seq<ProcView>,
    mem_total: Option<u64>,
    temp_slowdown_c: Option<MilliC>,
)
    ensures
        all_honest(
            observe_step(m, device, name, s, ps, mem_total, temp_slowdown_c).1,
            device,
            s.ts_ms,
        ),
{
    let a = throttle_step(m, device, name, s, temp_slowdown_c);
    let b = spillover_step(a.0, device, name, s, ps);
    let c = process_step(b.0, device, name, s.ts_ms, ps);
    let d = hang_step(c.0, device, name, s);
    let e = idle_gap_step(d.0, device, name, s);
    let f = vram_pressure_step(e.0, device, name, s, mem_total);
    reveal_strlit("throttle bits: [");
    reveal_strlit("throttle bits cleared");
    reveal_strlit("new ");
    reveal_strlit("pid ");
    reveal_strlit("used ");
    assert(all_honest(a.1, device, s.ts_ms));
    lemma_spillovers_honest(a.0, device, name, s, ps);
    assert(all_honest(c.1, device, s.ts_ms)) by {
        lemma_filter_map_source(latest(ps), attach_rule(b.0.procs, device, name, s.ts_ms));
        lemma_filter_map_source(b.0.procs, exit_rule(ps, device, name, s.ts_ms));
    }
    lemma_hang_honest(c.0, device, name, s);
    assert(all_honest(e.1, device, s.ts_ms)) by {
        if let Some(gap) = d.0.idle_gap {
            lemma_gap_hedged(
                device,
                name,
                s.ts_ms,
                crate::events::state::IdleGapView {
                    holders: crate::events::idle::staying(gap.holders, d.0.procs),
                    ..gap
                },
            );
        }
    }
    assert(all_honest(f.1, device, s.ts_ms)) by {
        if let (Some(used), Some(total)) = (s.mem_used_bytes, mem_total) {
            lemma_pressure_hedged(
                device,
                name,
                s.ts_ms,
                used,
                total,
                window_step(e.0.vram_window, s.ts_ms, used, total),
                e.0.procs,
            );
        }
    }
}

/// No event of kind `k`.
pub open spec fn none_of(es: Seq<EventView>, k: EventKind) -> bool {
    forall|i: int| 0 <= i < es.len() ==> (#[trigger] es[i]).kind != k
}

/// The first list of a device's processes is taken over in silence: its processes were there
/// before, and nobody came or went.
pub proof fn law_first_list_is_silent(
    m: DevModel,
    device: Seq<char>,
    name: Seq<char>,
    s: DynamicSample,
    ps: Seq<ProcView>,
    mem_total: Option<u64>,
    temp_slowdown_c: Option<MilliC>,
)
    requires
        !m.seen_first_procs,
    ensures
        none_of(
            observe_step(m, device, name, s, ps, mem_total, temp_slowdown_c).1,
            EventKind::ProcessAttached,
        ),
        none_of(
            observe_step(m, device, name, s, ps, mem_total, temp_slowdown_c).1,
            EventKind::ProcessExited,
        ),
        observe_step(m, device, name, s, ps, mem_total, temp_slowdown_c).0.seen_first_procs,
{
    let a = throttle_step(m, device, name, s, temp_slowdown_c);
    let b = spillover_step(a.0, device, name, s, ps);
    lemma_filter_map_source(
        a.0.spillovers + crate::events::spillover::opened(a.0, s.ts_ms, ps),
        tell_rule(device, name, s, ps),
    );
    assert(none_of(b.1, EventKind::ProcessAttached) && none_of(b.1, EventKind::ProcessExited));
}

/// The reduced list speaks of each listed process once.
pub proof fn law_one_entry_per_process(ps: Seq<ProcView>)
    ensures
        forall|i: int, j: int|
            0 <= i < j < latest(ps).len() ==> (#[trigger] latest(ps)[i]).pid != (
            #[trigger] latest(ps)[j]).pid,
        forall|pid: u32| #[trigger] listed(latest(ps), pid) == listed(ps, pid),
{
    lemma_latest_upto(ps, ps.len());
    let l = latest(ps);
    assert forall|pid: u32| #[trigger] listed(l, pid) == listed(ps, pid) by {
        if listed(ps, pid) {
            lemma_last_of(ps, pid, ps.len());
            let k = choose|k: int|
                0 <= k < ps.len() && (#[trigger] ps[k]).pid == pid && !superseded(ps, k);
            assert(l.contains(ps[k]));
            let i = choose|i: int| 0 <= i < l.len() && l[i] == ps[k];
            assert(l[i].pid == pid);
        }
        if listed(l, pid) {
            let i = choose|i: int| 0 <= i < l.len() && (#[trigger] l[i]).pid == pid;
            let k = choose|k: int|
                0 <= k < ps.len() && #[trigger] ps[k] == l[i] && !superseded(ps, k);
            assert(ps[k].pid == pid);
        }
    }
}

pub(crate) proof fn lemma_latest_upto(ps: Seq<ProcView>, n: nat)
    requires
        n <= ps.len(),
    ensures
        forall|i: int|
            0 <= i < latest_upto(ps, n).len() ==> exists|k: int|
                0 <= k < n && #[trigger] ps[k] == #[trigger] latest_upto(ps, n)[i] && !superseded(
                    ps,
                    k,
                ),
        forall|k: int|
            0 <= k < n && !superseded(ps, k) ==> latest_upto(ps, n).contains(#[trigger] ps[k]),
        forall|i: int, j: int|
            0 <= i < j < latest_upto(ps, n).len() ==> (#[trigger] latest_upto(ps, n)[i]).pid != (
            #[trigger] latest_upto(ps, n)[j]).pid,
    decreases n,
{
    if n > 0 {
        let m = (n - 1) as nat;
        lemma_latest_upto(ps, m);
        let before = latest_upto(ps, m);
        let after = latest_upto(ps, n);
        if !superseded(ps, n - 1) {
            assert(after == before.push(ps[n - 1]));
            assert forall|k: int| 0 <= k < n && !superseded(ps, k) implies after.contains(
                #[trigger] ps[k],
            ) by {
                if k < m {
                    let i = choose|i: int| 0 <= i < before.len() && before[i] == ps[k];
                    assert(after[i] == ps[k]);
                } else {
                    assert(after[before.len() as int] == ps[k]);
                }
            }
            assert forall|i: int, j: int| 0 <= i < j < after.len() implies (#[trigger] after[i]).pid
                != (#[trigger] after[j]).pid by {
                if j == before.len() {
                    let k = choose|k: int|
                        0 <= k < m && #[trigger] ps[k] == before[i] && !superseded(ps, k);
                    assert(ps[n - 1].pid != ps[k].pid);
                } else {
                    assert(before[i].pid != before[j].pid);
                }
            }
            assert forall|i: int| 0 <= i < after.len() implies exists|k: int|
                0 <= k < n && #[trigger] ps[k] == #[trigger] after[i] && !superseded(ps, k) by {
                if i < before.len() {
                    assert(after[i] == before[i]);
                } else {
                    assert(ps[n - 1] == after[i]);
                }
            }
        }
    }
}

proof fn lemma_last_of(ps: Seq<ProcView>, pid: u32, n: nat)
    requires
        n <= ps.len(),
        exists|k: int| 0 <= k < n && (#[trigger] ps[k]).pid == pid,
        forall|k: int| n <= k < ps.len() ==> (#[trigger] ps[k]).pid != pid,
    ensures
        exists|k: int| 0 <= k < ps.len() && (#[trigger] ps[k]).pid == pid && !superseded(ps, k),
    decreases n,
{
    if ps[n - 1].pid == pid {
        assert(!superseded(ps, n - 1));
    } else {
        lemma_last_of(ps, pid, (n - 1) as nat);
    }
}

/// `e` tells that a process of this list, which the one before had not, attached.
pub open spec fn tells_arrival(
    e: EventView,
    m: DevModel,
    device: Seq<char>,
    name: Seq<char>,
    ts_ms: u64,
    ps: Seq<ProcView>,
) -> bool {
    exists|i: int|
        0 <= i < latest(ps).len() && !known(m.procs, (#[trigger] latest(ps)[i]).pid) && e
            == attached(device, name, ts_ms, latest(ps)[i])
}

/// `e` tells that a process of the list before, which this one has not, left.
pub open spec fn tells_departure(
    e: EventView,
    m: DevModel,
    device: Seq<char>,
    name: Seq<char>,
    ts_ms: u64,
    ps: Seq<ProcView>,
) -> bool {
    exists|i: int|
        0 <= i < m.procs.len() && !listed(ps, (#[trigger] m.procs[i]).pid) && e == exited(
            device,
            name,
            ts_ms,
            m.procs[i],
        )
}

/// After the first list, a process that the list has and the one before had not is told as
/// attached, and one that the list before had and this one has not is told as gone; no other
/// arrival or departure is told.
pub proof fn law_arrivals_and_departures(
    m: DevModel,
    device: Seq<char>,
    name: Seq<char>,
    ts_ms: u64,
    ps: Seq<ProcView>,
)
    requires
        m.seen_first_procs,
    ensures
        forall|i: int|
            0 <= i < latest(ps).len() && !known(m.procs, (#[trigger] latest(ps)[i]).pid)
                ==> process_step(m, device, name, ts_ms, ps).1.contains(
                attached(device, name, ts_ms, latest(ps)[i]),
            ),
        forall|i: int|
            0 <= i < m.procs.len() && !listed(ps, (#[trigger] m.procs[i]).pid) ==> process_step(
                m,
                device,
                name,
                ts_ms,
                ps,
            ).1.contains(exited(device, name, ts_ms, m.procs[i])),
        forall|e: EventView| #[trigger]
            process_step(m, device, name, ts_ms, ps).1.contains(e) ==> tells_arrival(
                e,
                m,
                device,
                name,
                ts_ms,
                ps,
            ) || tells_departure(e, m, device, name, ts_ms, ps),
{
    let now = latest(ps);
    let arule = attach_rule(m.procs, device, name, ts_ms);
    let erule = exit_rule(ps, device, name, ts_ms);
    let arrivals = filter_map(now, arule);
    let departures = filter_map(m.procs, erule);
    let es = process_step(m, device, name, ts_ms, ps).1;
    assert(es == arrivals + departures);
    assert forall|i: int|
        0 <= i < now.len() && !known(m.procs, (#[trigger] now[i]).pid) implies es.contains(
        attached(device, name, ts_ms, now[i]),
    ) by {
        lemma_filter_map_contains(now, arule, i);
        let k = choose|k: int| 0 <= k < arrivals.len() && arrivals[k] == arule(now[i])->0;
        assert(es[k] == arrivals[k]);
    }
    assert forall|i: int|
        0 <= i < m.procs.len() && !listed(ps, (#[trigger] m.procs[i]).pid) implies es.contains(
        exited(device, name, ts_ms, m.procs[i]),
    ) by {
        lemma_filter_map_contains(m.procs, erule, i);
        let k = choose|k: int| 0 <= k < departures.len() && departures[k] == erule(m.procs[i])->0;
        assert(es[arrivals.len() + k] == departures[k]);
    }
    lemma_filter_map_source(now, arule);
    lemma_filter_map_source(m.procs, erule);
    assert forall|e: EventView| #[trigger] es.contains(e) implies tells_arrival(
        e,
        m,
        device,
        name,
        ts_ms,
        ps,
    ) || tells_departure(e, m, device, name, ts_ms, ps) by {
        let i = choose|i: int| 0 <= i < es.len() && es[i] == e;
        if i < arrivals.len() {
            assert(arrivals[i] == e);
            let j = choose|j: int|
                0 <= j < now.len() && arule(#[trigger] now[j]) == Some(arrivals[i]);
            assert(e == attached(device, name, ts_ms, now[j]));
        } else {
            let k = i - arrivals.len();
            assert(departures[k] == e);
            let j = choose|j: int|
                0 <= j < m.procs.len() && erule(#[trigger] m.procs[j]) == Some(departures[k]);
            assert(e == exited(device, name, ts_ms, m.procs[j]));
        }
    }
}

/// A hang is told only after ten unbroken minutes, and only once: it is then marked as told, and
/// as long as the mark stands nothing more is told of it. The gap it lived in is muted with it.
pub proof fn law_a_hang_is_told_once(
    m: DevModel,
    device: Seq<char>,
    name: Seq<char>,
    s: DynamicSample,
)
    ensures
        hang_step(m, device, name, s).1.len() > 0 ==> {
            let next = hang_step(m, device, name, s).0;
            &&& m.hang matches Some(ep) && !ep.fired && since(s.ts_ms, ep.start_ms) >= HANG_MIN_MS
            &&& next.hang matches Some(ep2) && ep2.fired
            &&& next.idle_gap matches Some(gap) ==> gap.hang_narrated
        },
        (match m.hang {
            Some(ep) => ep.fired ==> hang_step(m, device, name, s).1.len() == 0 && (
            match hang_step(m, device, name, s).0.hang {
                Some(ep2) => ep2.fired && ep2.start_ms == ep.start_ms && ep2.holder == ep.holder,
                None => true,
            }),
            None => true,
        }),
{
}

/// A gap in which a hang was told is never told itself, however it ends.
pub proof fn law_a_muted_gap_stays_silent(
    m: DevModel,
    device: Seq<char>,
    name: Seq<char>,
    s: DynamicSample,
)
    requires
        m.idle_gap matches Some(gap) && gap.hang_narrated,
    ensures
        idle_gap_step(m, device, name, s).1.len() == 0,
        idle_gap_step(m, device, name, s).0.idle_gap matches Some(gap) ==> gap.hang_narrated,
{
}

/// All the events are of kind `k` or `l`.
pub open spec fn only(es: Seq<EventView>, k: EventKind, l: EventKind) -> bool {
    forall|i: int| 0 <= i < es.len() ==> (#[trigger] es[i]).kind == k || es[i].kind == l
}

pub(crate) proof fn lemma_kinds(
    m: DevModel,
    device: Seq<char>,
    name: Seq<char>,
    s: DynamicSample,
    ps: Seq<ProcView>,
    mem_total: Option<u64>,
    temp_slowdown_c: Option<MilliC>,
)
    ensures
        only(
            throttle_step(m, device, name, s, temp_slowdown_c).1,
            EventKind::ThrottleStart,
            EventKind::ThrottleEnd,
        ),
        only(
            spillover_step(m, device, name, s, ps).1,
            EventKind::CpuSpillover,
            EventKind::CpuSpillover,
        ),
        only(
            process_step(m, device, name, s.ts_ms, ps).1,
            EventKind::ProcessAttached,
            EventKind::ProcessExited,
        ),
        only(
            hang_step(m, device, name, s).1,
            EventKind::HangSuspected,
            EventKind::HangSuspected,
        ),
        only(idle_gap_step(m, device, name, s).1, EventKind::IdleGap, EventKind::IdleGap),
        only(
            vram_pressure_step(m, device, name, s, mem_total).1,
            EventKind::VramPressure,
            EventKind::VramPressure,
        ),
{
    lemma_filter_map_source(
        m.spillovers + crate::events::spillover::opened(m, s.ts_ms, ps),
        tell_rule(device, name, s, ps),
    );
    lemma_filter_map_source(latest(ps), attach_rule(m.procs, device, name, s.ts_ms));
    lemma_filter_map_source(m.procs, exit_rule(ps, device, name, s.ts_ms));
}

/// What cannot be seen is not told: without a utilization reading every open gap and suspected
/// hang is dropped in silence.
pub proof fn law_blind_utilization_is_silent(
    m: DevModel,
    device: Seq<char>,
    name: Seq<char>,
    s: DynamicSample,
    ps: Seq<ProcView>,
    mem_total: Option<u64>,
    temp_slowdown_c: Option<MilliC>,
)
    requires
        s.util_pct is None,
    ensures
        ({
            let r = observe_step(m, device, name, s, ps, mem_total, temp_slowdown_c);
            &&& r.0.hang is None
            &&& r.0.idle_gap is None
            &&& !r.0.idle_eligible
            &&& none_of(r.1, EventKind::HangSuspected)
            &&& none_of(r.1, EventKind::IdleGap)
        }),
{
    let a = throttle_step(m, device, name, s, temp_slowdown_c);
    let b = spillover_step(a.0, device, name, s, ps);
    let c = process_step(b.0, device, name, s.ts_ms, ps);
    let d = hang_step(c.0, device, name, s);
    let e = idle_gap_step(d.0, device, name, s);
    let f = vram_pressure_step(e.0, device, name, s, mem_total);
    lemma_kinds(m, device, name, s, ps, mem_total, temp_slowdown_c);
    lemma_kinds(a.0, device, name, s, ps, mem_total, temp_slowdown_c);
    lemma_kinds(b.0, device, name, s, ps, mem_total, temp_slowdown_c);
    lemma_kinds(e.0, device, name, s, ps, mem_total, temp_slowdown_c);
    assert(d.1.len() == 0 && e.1.len() == 0);
    assert(f.0.hang is None && f.0.idle_gap is None && !f.0.idle_eligible);
}

proof fn lemma_throttle_kept(
    m: DevModel,
    device: Seq<char>,
    name: Seq<char>,
    s: DynamicSample,
    ps: Seq<ProcView>,
    mem_total: Option<u64>,
)
    ensures
        spillover_step(m, device, name, s, ps).0.throttle_since == m.throttle_since,
        process_step(m, device, name, s.ts_ms, ps).0.throttle_since == m.throttle_since,
        hang_step(m, device, name, s).0.throttle_since == m.throttle_since,
        idle_gap_step(m, device, name, s).0.throttle_since == m.throttle_since,
        vram_pressure_step(m, device, name, s, mem_total).0.throttle_since == m.throttle_since,
{
}

/// Without a throttle reading the open episode is dropped in silence, and the next sample does not
/// tell its end either.
#[verifier::rlimit(60)]
pub proof fn law_blind_throttling_is_silent(
    m: DevModel,
    device: Seq<char>,
    name: Seq<char>,
    s: DynamicSample,
    ps: Seq<ProcView>,
    mem_total: Option<u64>,
    temp_slowdown_c: Option<MilliC>,
    next: DynamicSample,
)
    requires
        s.throttle is None,
    ensures
        ({
            let r = observe_step(m, device, name, s, ps, mem_total, temp_slowdown_c);
            &&& r.0.throttle_since is None
            &&& none_of(r.1, EventKind::ThrottleStart)
            &&& none_of(r.1, EventKind::ThrottleEnd)
            &&& none_of(
                throttle_step(r.0, device, name, next, temp_slowdown_c).1,
                EventKind::ThrottleEnd,
            )
        }),
{
    let a = throttle_step(m, device, name, s, temp_slowdown_c);
    let b = spillover_step(a.0, device, name, s, ps);
    let c = process_step(b.0, device, name, s.ts_ms, ps);
    let d = hang_step(c.0, device, name, s);
    let e = idle_gap_step(d.0, device, name, s);
    let f = vram_pressure_step(e.0, device, name, s, mem_total);
    lemma_kinds(a.0, device, name, s, ps, mem_total, temp_slowdown_c);
    lemma_kinds(b.0, device, name, s, ps, mem_total, temp_slowdown_c);
    lemma_kinds(c.0, device, name, s, ps, mem_total, temp_slowdown_c);
    lemma_kinds(d.0, device, name, s, ps, mem_total, temp_slowdown_c);
    lemma_kinds(e.0, device, name, s, ps, mem_total, temp_slowdown_c);
    lemma_throttle_kept(a.0, device, name, s, ps, mem_total);
    lemma_throttle_kept(b.0, device, name, s, ps, mem_total);
    lemma_throttle_kept(c.0, device, name, s, ps, mem_total);
    lemma_throttle_kept(d.0, device, name, s, ps, mem_total);
    lemma_throttle_kept(e.0, device, name, s, ps, mem_total);
}

/// Pressure is told at most once per cooldown: every told pressure is remembered with its time,
/// and within the cooldown of a remembered one none is told.
pub proof fn law_pressure_cools_down(
    m: DevModel,
    device: Seq<char>,
    name: Seq<char>,
    s: DynamicSample,
    mem_total: Option<u64>,
)
    ensures
        vram_pressure_step(m, device, name, s, mem_total).1.len() > 0 ==> vram_pressure_step(
            m,
            device,
            name,
            s,
            mem_total,
        ).0.last_pressure_evt == Some(s.ts_ms),
        m.last_pressure_evt matches Some(t) && since(s.ts_ms, t) < VRAM_COOLDOWN_MS
            ==> vram_pressure_step(m, device, name, s, mem_total).1.len() == 0,
{
}

/// The times of a trend window do not fall, and none is after `ts_ms`.
pub open spec fn in_order(w: Seq<(u64, u64)>, ts_ms: u64) -> bool {
    &&& forall|i: int, j: int|
        0 <= i <= j < w.len() ==> (#[trigger] w[i]).0 <= (#[trigger] w[j]).0
    &&& forall|i: int| 0 <= i < w.len() ==> (#[trigger] w[i]).0 <= ts_ms
}

/// While time does not run backwards, the trend window stays in order, ends with the new reading
/// and holds nothing older than its length.
pub proof fn law_trend_window(w: Seq<(u64, u64)>, ts_ms: u64, used: u64, total: u64)
    requires
        in_order(w, ts_ms),
    ensures
        in_order(window_step(w, ts_ms, used, total), ts_ms),
        window_step(w, ts_ms, used, total).len() > 0,
        window_step(w, ts_ms, used, total).last() == (ts_ms, used),
        forall|i: int|
            0 <= i < window_step(w, ts_ms, used, total).len() ==> ts_ms - (
            #[trigger] window_step(w, ts_ms, used, total)[i]).0 <= VRAM_WINDOW_MS,
{
    let kept = if w.len() > 0 && since(w.last().1, used) > total / 20 {
        Seq::empty()
    } else {
        w
    };
    lemma_trimmed(kept.push((ts_ms, used)), ts_ms);
}

proof fn lemma_trimmed(w: Seq<(u64, u64)>, ts_ms: u64)
    requires
        in_order(w, ts_ms),
        w.len() > 0,
        w.last().0 == ts_ms,
    ensures
        in_order(trimmed(w, ts_ms), ts_ms),
        trimmed(w, ts_ms).len() > 0,
        trimmed(w, ts_ms).last() == w.last(),
        forall|i: int|
            0 <= i < trimmed(w, ts_ms).len() ==> ts_ms - (#[trigger] trimmed(w, ts_ms)[i]).0
                <= VRAM_WINDOW_MS,
    decreases w.len(),
{
    if since(ts_ms, w[0].0) > VRAM_WINDOW_MS {
        let rest = w.skip(1);
        assert(rest.last() == w.last());
        assert forall|i: int, j: int| 0 <= i <= j < rest.len() implies (#[trigger] rest[i]).0 <= (
        #[trigger] rest[j]).0 by {
            assert(w[i + 1].0 <= w[j + 1].0);
        }
        lemma_trimmed(rest, ts_ms);
    } else {
        assert forall|i: int| 0 <= i < w.len() implies ts_ms - (#[trigger] w[i]).0
            <= VRAM_WINDOW_MS by {
            assert(w[0].0 <= w[i].0);
        }
    }
}

} // verus!
