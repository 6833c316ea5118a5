//! What is told at the edges: where throttling begins and ends, and where processes come and go.

use vstd::prelude::*;
use crate::events::laws::{law_arrivals_and_departures, none_of, tells_arrival, tells_departure};
use crate::events::process::{attached, exited, known, latest, listed, process_step, seen_of};
use crate::events::state::DevModel;
use crate::events::story::Frame;
use crate::events::story::{after, at_list, at_spillover, at_throttle, told};
use crate::events::story::{lemma_all_told, lemma_by_kind, lemma_early_stages, lemma_known_before, lemma_stages};
use crate::events::throttle::{prev_clock, reasons_text, recovery_text, throttle_start, throttle_step, was_throttling};
use crate::events::{EventKind, EventView, dur_text, since};
use crate::lists::join;
use crate::model::ThrottleReasons;
use crate::text::{dec, signed_fixed0};

verus! {

/// The frame shows throttling.
pub open spec fn throttles(f: Frame) -> bool {
    f.s.throttle matches Some(t) && t.is_any()
}

/// Throttling begins with frame `k`.
pub open spec fn begins(fs: Seq<Frame>, k: int) -> bool {
    throttles(fs[k]) && (k == 0 || !throttles(fs[k - 1]))
}

/// Throttling is seen to have ended with frame `n`.
pub open spec fn ends(fs: Seq<Frame>, n: int) -> bool {
    n > 0 && throttles(fs[n - 1]) && fs[n].s.throttle is Some && !throttles(fs[n])
}

/// What is remembered shows throttling exactly where the last frame does.
proof fn lemma_was_throttling(device: Seq<char>, name: Seq<char>, fs: Seq<Frame>, n: nat)
    ensures
        was_throttling(after(device, name, fs, n)) == (n > 0 && throttles(fs[n - 1])),
{
    if n > 0 {
        lemma_early_stages(
            after(device, name, fs, (n - 1) as nat),
            device,
            name,
            fs[n - 1],
        );
    }
}

/// The start of throttling is told exactly at the frames with which it begins, and its end exactly
/// at those with which it is seen to have ended.
pub proof fn law_throttling_is_told_at_its_edges(
    device: Seq<char>,
    name: Seq<char>,
    fs: Seq<Frame>,
    n: nat,
)
    ensures
        !none_of(told(device, name, fs, n), EventKind::ThrottleStart) <==> begins(fs, n as int),
        !none_of(told(device, name, fs, n), EventKind::ThrottleEnd) <==> ends(fs, n as int),
{
    let m = after(device, name, fs, n);
    let f = fs[n as int];
    let es = told(device, name, fs, n);
    let ts = throttle_step(m, device, name, f.s, f.temp_slowdown_c).1;
    lemma_was_throttling(device, name, fs, n);
    lemma_all_told(m, device, name, f);
    assert forall|i: int|
        0 <= i < es.len() && ((#[trigger] es[i]).kind is ThrottleStart || es[i].kind
            is ThrottleEnd) implies ts.contains(es[i]) by {
        lemma_by_kind(m, device, name, f, i);
    }
    if ts.len() > 0 {
        assert(ts.contains(ts[0]));
        let i = choose|i: int| 0 <= i < es.len() && es[i] == ts[0];
        assert(es[i].kind == ts[0].kind);
    }
}

/// The clock of the frame before `k`.
pub open spec fn clock_before(fs: Seq<Frame>, k: int) -> Option<u32> {
    if k > 0 {
        fs[k - 1].s.sm_clock_mhz
    } else {
        None
    }
}

/// Throttling began with frame `k` and went on up to frame `n`.
pub open spec fn throttled_through(fs: Seq<Frame>, k: int, n: int) -> bool {
    &&& 0 <= k < n
    &&& begins(fs, k)
    &&& forall|i: int| k <= i < n ==> throttles(#[trigger] fs[i])
}

/// What is remembered of the episode is what the frame that began it showed.
spec fn episode_of(fs: Seq<Frame>, k: int, n: int, m: DevModel) -> bool {
    &&& throttled_through(fs, k, n)
    &&& m.throttle_since == Some(fs[k].s.ts_ms)
    &&& m.pre_throttle_clock == clock_before(fs, k)
}

proof fn lemma_throttle_history(device: Seq<char>, name: Seq<char>, fs: Seq<Frame>, n: nat)
    ensures
        n > 0 && throttles(fs[n - 1]) ==> exists|k: int| #[trigger]
            episode_of(fs, k, n as int, after(device, name, fs, n)),
    decreases n,
{
    if n > 0 && throttles(fs[n - 1]) {
        let before = (n - 1) as nat;
        let m = after(device, name, fs, before);
        let f = fs[n - 1];
        lemma_throttle_history(device, name, fs, before);
        lemma_was_throttling(device, name, fs, before);
        lemma_early_stages(m, device, name, f);
        reveal(at_throttle);
        if was_throttling(m) {
            let k = choose|k: int| #[trigger] episode_of(fs, k, before as int, m);
            assert(episode_of(fs, k, n as int, after(device, name, fs, n)));
        } else {
            if before > 0 {
                lemma_early_stages(
                    after(device, name, fs, (before - 1) as nat),
                    device,
                    name,
                    fs[before - 1],
                );
            }
            assert(episode_of(fs, n - 1, n as int, after(device, name, fs, n)));
        }
    }
}

/// The event tells how long throttling lasted since frame `k`, with which it began, and what came
/// of the clock of the frame before, where both clocks are known: it has recovered where it is at
/// nine tenths of what it was.
pub open spec fn tells_of_the_end(
    e: EventView,
    name: Seq<char>,
    fs: Seq<Frame>,
    k: int,
    n: int,
) -> bool {
    &&& throttled_through(fs, k, n)
    &&& e.severity is Info
    &&& e.title == name + " stopped throttling after "@ + dur_text(
        if fs[n].s.ts_ms >= fs[k].s.ts_ms {
            (fs[n].s.ts_ms - fs[k].s.ts_ms) as nat
        } else {
            0
        },
    )
    &&& e.evidence == (if k > 0 && fs[k - 1].s.sm_clock_mhz is Some && fs[n].s.sm_clock_mhz is Some {
        let was = fs[k - 1].s.sm_clock_mhz->0;
        let now = fs[n].s.sm_clock_mhz->0;
        if 10 * now >= 9 * was {
            "throttle bits cleared; clocks recovered to "@ + dec(now as nat) + " MHz"@
        } else {
            "throttle bits cleared; clocks now "@ + dec(now as nat) + " MHz ("@ + dec(was as nat)
                + " MHz pre-throttle)"@
        }
    } else {
        "throttle bits cleared"@
    })
}

/// The end of throttling is told with the length of the whole episode, from the frame with which
/// it began, and with the clock of the frame before that.
pub proof fn law_an_end_looks_back_to_its_start(
    device: Seq<char>,
    name: Seq<char>,
    fs: Seq<Frame>,
    n: nat,
    i: int,
)
    requires
        0 <= i < told(device, name, fs, n).len(),
        told(device, name, fs, n)[i].kind is ThrottleEnd,
    ensures
        exists|k: int| #[trigger]
            tells_of_the_end(told(device, name, fs, n)[i], name, fs, k, n as int),
{
    let m = after(device, name, fs, n);
    let f = fs[n as int];
    lemma_by_kind(m, device, name, f, i);
    lemma_was_throttling(device, name, fs, n);
    lemma_throttle_history(device, name, fs, n);
    let k = choose|k: int| #[trigger] episode_of(fs, k, n as int, m);
    let e = told(device, name, fs, n)[i];
    lemma_end_words();
    assert(e.title =~= name + " stopped throttling after "@ + dur_text(
        since(fs[n as int].s.ts_ms, fs[k].s.ts_ms) as nat,
    ));
    assert(e.evidence =~= "throttle bits cleared"@ + recovery_text(
        clock_before(fs, k),
        fs[n as int].s.sm_clock_mhz,
    ));
    if let (Some(was), Some(now)) = (clock_before(fs, k), fs[n as int].s.sm_clock_mhz) {
        if 10 * now >= 9 * was {
            assert(e.evidence =~= "throttle bits cleared; clocks recovered to "@ + dec(now as nat)
                + " MHz"@);
        } else {
            assert(e.evidence =~= "throttle bits cleared; clocks now "@ + dec(now as nat)
                + " MHz ("@ + dec(was as nat) + " MHz pre-throttle)"@);
        }
    } else {
        assert(e.evidence =~= "throttle bits cleared"@);
    }
    assert(tells_of_the_end(e, name, fs, k, n as int));
}

proof fn lemma_end_words()
    ensures
        " stopped throttling after "@ == " stopped throttling"@ + " after "@,
        "throttle bits cleared; clocks recovered to "@ == "throttle bits cleared"@
            + "; clocks recovered to "@,
        "throttle bits cleared; clocks now "@ == "throttle bits cleared"@ + "; clocks now "@,
{
    reveal_strlit(" stopped throttling after ");
    reveal_strlit(" stopped throttling");
    reveal_strlit(" after ");
    reveal_strlit("throttle bits cleared");
    reveal_strlit("throttle bits cleared; clocks recovered to ");
    reveal_strlit("throttle bits cleared; clocks now ");
    reveal_strlit("; clocks recovered to ");
    reveal_strlit("; clocks now ");
    assert(" stopped throttling after "@ =~= " stopped throttling"@ + " after "@);
    assert("throttle bits cleared; clocks recovered to "@ =~= "throttle bits cleared"@
        + "; clocks recovered to "@);
    assert("throttle bits cleared; clocks now "@ =~= "throttle bits cleared"@ + "; clocks now "@);
}

/// The names of the reasons for throttling, in the order of heat, power cap, slowdown by the
/// hardware, sync boost and others, with commas between them.
pub open spec fn names_of(t: ThrottleReasons) -> Seq<char> {
    let named = seq![
        (t.thermal, "thermal"@),
        (t.power_cap, "power cap"@),
        (t.hw_slowdown, "hw slowdown"@),
        (t.sync_boost, "sync boost"@),
        (t.other, "other"@),
    ].filter(|r: (bool, Seq<char>)| r.0);
    named.fold_left(
        Seq::empty(),
        |text: Seq<char>, r: (bool, Seq<char>)|
            if text.len() == 0 {
                r.1
            } else {
                text + ", "@ + r.1
            },
    )
}

/// The event tells why throttling began with frame `n`, and of its clock and the one before where
/// it fell: first what it was, then what it is. Otherwise no clocks are told. The temperature is
/// told where it is known, and then what it is measured against.
pub open spec fn tells_of_the_start(
    e: EventView,
    name: Seq<char>,
    fs: Seq<Frame>,
    n: int,
) -> bool {
    let why = names_of(fs[n].s.throttle->0);
    &&& begins(fs, n)
    &&& e.ts_ms == fs[n].s.ts_ms
    &&& e.severity is Critical <==> fs[n].s.throttle->0.hw_slowdown
    &&& e.severity is Warning <==> !fs[n].s.throttle->0.hw_slowdown
    &&& e.title == (if n > 0 && fs[n - 1].s.sm_clock_mhz is Some && fs[n].s.sm_clock_mhz is Some
        && fs[n].s.sm_clock_mhz->0 < fs[n - 1].s.sm_clock_mhz->0 {
        name + " began throttling ("@ + why + ") — clocks "@ + dec(
            fs[n - 1].s.sm_clock_mhz->0 as nat,
        ) + "→"@ + dec(fs[n].s.sm_clock_mhz->0 as nat) + " MHz"@
    } else {
        name + " began throttling ("@ + why + ")"@
    })
    &&& e.evidence == (match (fs[n].s.temp_c, fs[n].temp_slowdown_c) {
        (Some(t), Some(limit)) => "throttle bits: ["@ + why + "]; "@ + signed_fixed0(
            t as int,
            1000,
        ) + "°C vs "@ + signed_fixed0(limit as int, 1000) + "°C slowdown threshold"@,
        (Some(t), None) => "throttle bits: ["@ + why + "]; "@ + signed_fixed0(t as int, 1000)
            + "°C"@,
        (None, _) => "throttle bits: ["@ + why + "]"@,
    })
}

/// The start of throttling is told with its reasons, and with the fall of the clock from the frame
/// before, in the order of time.
pub proof fn law_a_start_tells_the_fall_of_the_clock(
    device: Seq<char>,
    name: Seq<char>,
    fs: Seq<Frame>,
    n: nat,
    i: int,
)
    requires
        0 <= i < told(device, name, fs, n).len(),
        told(device, name, fs, n)[i].kind is ThrottleStart,
    ensures
        tells_of_the_start(told(device, name, fs, n)[i], name, fs, n as int),
{
    let m = after(device, name, fs, n);
    let f = fs[n as int];
    let e = told(device, name, fs, n)[i];
    lemma_by_kind(m, device, name, f, i);
    lemma_was_throttling(device, name, fs, n);
    if n > 0 {
        lemma_early_stages(
            after(device, name, fs, (n - 1) as nat),
            device,
            name,
            fs[n - 1],
        );
    }
    let t = f.s.throttle->0;
    let why = names_of(t);
    lemma_names(t);
    assert(prev_clock(m) == clock_before(fs, n as int));
    assert(e == throttle_start(m, device, name, f.s, t, f.temp_slowdown_c));
    lemma_start_words();
    if let (Some(was), Some(now)) = (clock_before(fs, n as int), f.s.sm_clock_mhz) {
        if now < was {
            assert(e.title =~= name + " began throttling ("@ + why + ") — clocks "@ + dec(
                was as nat,
            ) + "→"@ + dec(now as nat) + " MHz"@);
        } else {
            assert(e.title =~= name + " began throttling ("@ + why + ")"@);
        }
    } else {
        assert(e.title =~= name + " began throttling ("@ + why + ")"@);
    }
    match (f.s.temp_c, f.temp_slowdown_c) {
        (Some(c), Some(limit)) => {
            assert(e.evidence =~= "throttle bits: ["@ + why + "]; "@ + signed_fixed0(
                c as int,
                1000,
            ) + "°C vs "@ + signed_fixed0(limit as int, 1000) + "°C slowdown threshold"@);
        },
        (Some(c), None) => {
            assert(e.evidence =~= "throttle bits: ["@ + why + "]; "@ + signed_fixed0(
                c as int,
                1000,
            ) + "°C"@);
        },
        (None, _) => {
            assert(e.evidence =~= "throttle bits: ["@ + why + "]"@);
        },
    }
}

proof fn lemma_start_words()
    ensures
        ") — clocks "@ == ")"@ + " — clocks "@,
        "]; "@ == "]"@ + "; "@,
{
    reveal_strlit(") — clocks ");
    reveal_strlit(")");
    reveal_strlit(" — clocks ");
    reveal_strlit("]; ");
    reveal_strlit("]");
    reveal_strlit("; ");
    assert(") — clocks "@ =~= ")"@ + " — clocks "@);
    assert("]; "@ =~= "]"@ + "; "@);
}

proof fn lemma_names(t: ThrottleReasons)
    ensures
        names_of(t) == reasons_text(t),
{
    reveal(Seq::filter);
    reveal_with_fuel(Seq::filter, 6);
    reveal_with_fuel(Seq::fold_left, 6);
    reveal_with_fuel(join, 6);
    reveal_strlit("thermal");
    reveal_strlit("power cap");
    reveal_strlit("hw slowdown");
    reveal_strlit("sync boost");
    reveal_strlit("other");
    assert(names_of(t) =~= reasons_text(t));
}

/// `e` tells that a process of frame `n`, which the one before had not, attached.
pub open spec fn tells_who_came(
    e: EventView,
    device: Seq<char>,
    name: Seq<char>,
    fs: Seq<Frame>,
    n: int,
) -> bool {
    exists|i: int|
        0 <= i < latest(fs[n].ps).len() && !listed(
            fs[n - 1].ps,
            (#[trigger] latest(fs[n].ps)[i]).pid,
        ) && e == attached(device, name, fs[n].s.ts_ms, latest(fs[n].ps)[i])
}

/// `e` tells that a process of the frame before `n`, which `n` has not, left.
pub open spec fn tells_who_left(
    e: EventView,
    device: Seq<char>,
    name: Seq<char>,
    fs: Seq<Frame>,
    n: int,
) -> bool {
    exists|i: int|
        0 <= i < latest(fs[n - 1].ps).len() && !listed(
            fs[n].ps,
            (#[trigger] latest(fs[n - 1].ps)[i]).pid,
        ) && e == exited(device, name, fs[n].s.ts_ms, seen_of(latest(fs[n - 1].ps)[i]))
}

/// The processes that came and those that left are told exactly where two lists that follow one
/// another differ; the first list tells nothing.
pub proof fn law_comings_and_goings(
    device: Seq<char>,
    name: Seq<char>,
    fs: Seq<Frame>,
    n: nat,
    e: EventView,
)
    requires
        e.kind is ProcessAttached || e.kind is ProcessExited,
    ensures
        told(device, name, fs, n).contains(e) <==> n > 0 && (tells_who_came(
            e,
            device,
            name,
            fs,
            n as int,
        ) || tells_who_left(e, device, name, fs, n as int)),
{
    let m = after(device, name, fs, n);
    let f = fs[n as int];
    let es = told(device, name, fs, n);
    let b = at_spillover(m, device, name, f);
    let ps = process_step(b, device, name, f.s.ts_ms, f.ps).1;
    lemma_early_stages(m, device, name, f);
    lemma_known_before(device, name, fs, n);
    lemma_all_told(m, device, name, f);
    if es.contains(e) {
        let i = choose|i: int| 0 <= i < es.len() && es[i] == e;
        lemma_by_kind(m, device, name, f, i);
        assert(ps.contains(e));
    }
    assert(es.contains(e) <==> ps.contains(e));
    if n > 0 {
        let l = latest(f.ps);
        let was = latest(fs[n - 1].ps);
        lemma_remembered(device, name, fs, n);
        law_arrivals_and_departures(b, device, name, f.s.ts_ms, f.ps);
        if ps.contains(e) {
            if tells_arrival(e, b, device, name, f.s.ts_ms, f.ps) {
                let i = choose|i: int|
                    0 <= i < l.len() && !known(b.procs, (#[trigger] l[i]).pid) && e == attached(
                        device,
                        name,
                        f.s.ts_ms,
                        l[i],
                    );
                assert(!listed(fs[n - 1].ps, l[i].pid));
            } else {
                assert(tells_departure(e, b, device, name, f.s.ts_ms, f.ps));
                let i = choose|i: int|
                    0 <= i < b.procs.len() && !listed(f.ps, (#[trigger] b.procs[i]).pid) && e
                        == exited(device, name, f.s.ts_ms, b.procs[i]);
                assert(b.procs[i] == seen_of(was[i]));
                assert(!listed(f.ps, was[i].pid));
            }
        }
        if tells_who_came(e, device, name, fs, n as int) {
            let i = choose|i: int|
                0 <= i < l.len() && !listed(fs[n - 1].ps, (#[trigger] l[i]).pid) && e == attached(
                    device,
                    name,
                    f.s.ts_ms,
                    l[i],
                );
            assert(!known(b.procs, l[i].pid));
            assert(ps.contains(e));
        }
        if tells_who_left(e, device, name, fs, n as int) {
            let i = choose|i: int|
                0 <= i < was.len() && !listed(f.ps, (#[trigger] was[i]).pid) && e == exited(
                    device,
                    name,
                    f.s.ts_ms,
                    seen_of(was[i]),
                );
            assert(b.procs[i] == seen_of(was[i]));
            assert(ps.contains(e));
        }
    }
}

/// After a frame its list is remembered, one entry per process.
proof fn lemma_remembered(device: Seq<char>, name: Seq<char>, fs: Seq<Frame>, n: nat)
    requires
        n > 0,
    ensures
        ({
            let was = latest(fs[n - 1].ps);
            after(device, name, fs, n).procs == Seq::new(was.len(), |i: int| seen_of(was[i]))
        }),
{
    lemma_stages(after(device, name, fs, (n - 1) as nat), device, name, fs[n - 1]);
    reveal(at_list);
}

} // verus!
