//! Throttle episodes: where they begin and where they end.

use vstd::prelude::*;
use crate::events::state::{DevModel, DevState};
use crate::events::{Confidence, Event, EventKind, EventView, Severity};
use crate::events::{dur_text, event_views, since};
use crate::events::{lemma_event_pushed, push_dur_ms};
use crate::lists::join;
use crate::model::{DeviceId, DynamicSample, MilliC, ThrottleReasons};
use crate::model::str_views;
use crate::text::{dec, push_dec, push_signed_fixed0, signed_fixed0};

verus! {

/// A hardware slowdown is critical; every other reason is a warning.
pub open spec fn severity_of(t: ThrottleReasons) -> Severity {
    if t.hw_slowdown {
        Severity::Critical
    } else {
        Severity::Warning
    }
}

pub fn severity_for(t: &ThrottleReasons) -> (r: Severity)
    ensures
        r == severity_of(*t),
{
    if t.hw_slowdown {
        Severity::Critical
    } else {
        Severity::Warning
    }
}

/// A temperature in whole degrees.
pub open spec fn degrees_text(t: MilliC) -> Seq<char> {
    signed_fixed0(t as int, 1000)
}

fn push_degrees(out: &mut String, t: MilliC)
    ensures
        final(out)@ == old(out)@ + degrees_text(t),
{
    push_signed_fixed0(out, t as i128, 1000);
}

/// The active reasons, comma-separated.
pub open spec fn reasons_text(t: ThrottleReasons) -> Seq<char> {
    join(t.label_texts(), ", "@)
}

fn reasons(t: &ThrottleReasons) -> (r: String)
    ensures
        r@ == reasons_text(*t),
{
    let labels = t.labels();
    let ghost texts = str_views(labels@);
    let mut out: String = String::new();
    let mut i: usize = 0;
    assert(texts.take(0) =~= Seq::empty());
    while i < labels.len()
        invariant
            i <= labels.len(),
            texts == str_views(labels@),
            out@ == join(texts.take(i as int), ", "@),
        decreases labels.len() - i,
    {
        if i > 0 {
            out.append(", ");
        }
        out.append(labels[i]);
        proof {
            let next = texts.take(i + 1);
            assert(next.drop_last() =~= texts.take(i as int));
            assert(next.last() == labels@[i as int]@);
            if i == 0 {
                assert(out@ =~= next[0]);
            }
        }
        i = i + 1;
    }
    assert(texts.take(texts.len() as int) =~= texts);
    out
}

/// The clocks before and at the start of throttling, where they are known and fell.
pub open spec fn fall_text(before: Option<u32>, now: Option<u32>) -> Seq<char> {
    match (before, now) {
        (Some(a), Some(b)) => if b < a {
            " — clocks "@ + dec(a as nat) + "→"@ + dec(b as nat) + " MHz"@
        } else {
            Seq::empty()
        },
        _ => Seq::empty(),
    }
}

/// The temperature, and the slowdown threshold, where they are known.
pub open spec fn temp_text(temp: Option<MilliC>, threshold: Option<MilliC>) -> Seq<char> {
    match (temp, threshold) {
        (Some(t), Some(thr)) => "; "@ + degrees_text(t) + "°C vs "@ + degrees_text(thr)
            + "°C slowdown threshold"@,
        (Some(t), None) => "; "@ + degrees_text(t) + "°C"@,
        _ => Seq::empty(),
    }
}

/// How long the episode lasted, where its start was seen.
pub open spec fn lasted_text(began: Option<u64>, now: u64) -> Seq<char> {
    match began {
        Some(t0) => " after "@ + dur_text(since(now, t0) as nat),
        None => Seq::empty(),
    }
}

/// The clocks after throttling. They have recovered only at nine tenths of what they were before:
/// throttling that ends because the device went idle is no recovery.
pub open spec fn recovery_text(before: Option<u32>, now: Option<u32>) -> Seq<char> {
    match (before, now) {
        (Some(a), Some(b)) => if 10 * b >= 9 * a {
            "; clocks recovered to "@ + dec(b as nat) + " MHz"@
        } else {
            "; clocks now "@ + dec(b as nat) + " MHz ("@ + dec(a as nat) + " MHz pre-throttle)"@
        },
        _ => Seq::empty(),
    }
}

/// The event of an episode that begins.
pub open spec fn throttle_start(
    m: DevModel,
    device: Seq<char>,
    name: Seq<char>,
    s: DynamicSample,
    t: ThrottleReasons,
    threshold: Option<MilliC>,
) -> EventView {
    EventView {
        ts_ms: s.ts_ms,
        device,
        kind: EventKind::ThrottleStart,
        severity: severity_of(t),
        confidence: Confidence::Fact,
        title: name + " began throttling ("@ + reasons_text(t) + ")"@ + fall_text(
            prev_clock(m),
            s.sm_clock_mhz,
        ),
        evidence: "throttle bits: ["@ + reasons_text(t) + "]"@ + temp_text(s.temp_c, threshold),
    }
}

/// The event of an episode that ends.
pub open spec fn throttle_end(
    m: DevModel,
    device: Seq<char>,
    name: Seq<char>,
    s: DynamicSample,
) -> EventView {
    EventView {
        ts_ms: s.ts_ms,
        device,
        kind: EventKind::ThrottleEnd,
        severity: Severity::Info,
        confidence: Confidence::Fact,
        title: name + " stopped throttling"@ + lasted_text(m.throttle_since, s.ts_ms),
        evidence: "throttle bits cleared"@ + recovery_text(m.pre_throttle_clock, s.sm_clock_mhz),
    }
}

/// The clock of the previous sample.
pub open spec fn prev_clock(m: DevModel) -> Option<u32> {
    match m.prev {
        Some(p) => p.sm_clock_mhz,
        None => None,
    }
}

/// The previous sample showed throttling.
pub open spec fn was_throttling(m: DevModel) -> bool {
    match m.prev {
        Some(p) => match p.throttle {
            Some(t) => t.is_any(),
            None => false,
        },
        None => false,
    }
}

/// What a sample does to the throttle episode, and the events it gives. Where throttling cannot
/// be observed neither a start nor an end can be claimed: an open episode is dropped untold.
pub open spec fn throttle_step(
    m: DevModel,
    device: Seq<char>,
    name: Seq<char>,
    s: DynamicSample,
    threshold: Option<MilliC>,
) -> (DevModel, Seq<EventView>) {
    match s.throttle {
        None => (
            DevModel { throttle_since: None, pre_throttle_clock: None, ..m },
            Seq::empty(),
        ),
        Some(t) => if !was_throttling(m) && t.is_any() {
            (
                DevModel {
                    throttle_since: Some(s.ts_ms),
                    pre_throttle_clock: prev_clock(m),
                    ..m
                },
                seq![throttle_start(m, device, name, s, t, threshold)],
            )
        } else if was_throttling(m) && !t.is_any() {
            (
                DevModel { throttle_since: None, pre_throttle_clock: None, ..m },
                seq![throttle_end(m, device, name, s)],
            )
        } else {
            (m, Seq::empty())
        },
    }
}

fn start_event(
    prev: Option<u32>,
    device: &DeviceId,
    name: &String,
    sample: &DynamicSample,
    t: &ThrottleReasons,
    threshold: Option<MilliC>,
    Ghost(m): Ghost<DevModel>,
) -> (e: Event)
    requires
        prev == prev_clock(m),
    ensures
        e@ == throttle_start(m, device@, name@, *sample, *t, threshold),
{
    let labels = reasons(t);
    let mut title: String = name.clone();
    title.append(" began throttling (");
    title.append(labels.as_str());
    title.append(")");
    if let (Some(a), Some(b)) = (prev, sample.sm_clock_mhz) {
        if b < a {
            title.append(" — clocks ");
            push_dec(&mut title, a as u128);
            title.append("→");
            push_dec(&mut title, b as u128);
            title.append(" MHz");
        }
    }
    let mut evidence: String = String::new();
    evidence.append("throttle bits: [");
    evidence.append(labels.as_str());
    evidence.append("]");
    if let Some(c) = sample.temp_c {
        evidence.append("; ");
        push_degrees(&mut evidence, c);
        if let Some(thr) = threshold {
            evidence.append("°C vs ");
            push_degrees(&mut evidence, thr);
            evidence.append("°C slowdown threshold");
        } else {
            evidence.append("°C");
        }
    }
    let e = Event {
        ts_ms: sample.ts_ms,
        device: device.clone(),
        kind: EventKind::ThrottleStart,
        severity: severity_for(t),
        confidence: Confidence::Fact,
        title,
        evidence,
    };
    proof {
        let want = throttle_start(m, device@, name@, *sample, *t, threshold);
        assert(e.title@ =~= want.title);
        assert(e.evidence@ =~= want.evidence);
    }
    e
}

fn end_event(
    began: Option<u64>,
    before: Option<u32>,
    device: &DeviceId,
    name: &String,
    sample: &DynamicSample,
    Ghost(m): Ghost<DevModel>,
) -> (e: Event)
    requires
        began == m.throttle_since,
        before == m.pre_throttle_clock,
    ensures
        e@ == throttle_end(m, device@, name@, *sample),
{
    let mut title: String = name.clone();
    title.append(" stopped throttling");
    if let Some(t0) = began {
        title.append(" after ");
        push_dur_ms(&mut title, sample.ts_ms.saturating_sub(t0));
    }
    let mut evidence: String = String::new();
    evidence.append("throttle bits cleared");
    if let (Some(a), Some(b)) = (before, sample.sm_clock_mhz) {
        if 10 * b as u64 >= 9 * a as u64 {
            evidence.append("; clocks recovered to ");
            push_dec(&mut evidence, b as u128);
            evidence.append(" MHz");
        } else {
            evidence.append("; clocks now ");
            push_dec(&mut evidence, b as u128);
            evidence.append(" MHz (");
            push_dec(&mut evidence, a as u128);
            evidence.append(" MHz pre-throttle)");
        }
    }
    let e = Event {
        ts_ms: sample.ts_ms,
        device: device.clone(),
        kind: EventKind::ThrottleEnd,
        severity: Severity::Info,
        confidence: Confidence::Fact,
        title,
        evidence,
    };
    proof {
        let want = throttle_end(m, device@, name@, *sample);
        assert(e.title@ =~= want.title);
        assert(e.evidence@ =~= want.evidence);
    }
    e
}

/// Follows the throttle episode of a device.
pub fn throttle_events(
    st: &mut DevState,
    device: &DeviceId,
    name: &String,
    sample: &DynamicSample,
    temp_slowdown_c: Option<MilliC>,
    out: &mut Vec<Event>,
)
    ensures
        final(st)@ == throttle_step(old(st)@, device@, name@, *sample, temp_slowdown_c).0,
        event_views(final(out)@) == event_views(old(out)@) + throttle_step(
            old(st)@,
            device@,
            name@,
            *sample,
            temp_slowdown_c,
        ).1,
        final(st).idle_gap == old(st).idle_gap,
        final(st).hang == old(st).hang,
        final(st).spillovers == old(st).spillovers,
{
    let ghost m = st@;
    let t = match sample.throttle {
        Some(t) => t,
        None => {
            st.throttle_since = None;
            st.pre_throttle_clock = None;
            assert(event_views(out@) =~= event_views(old(out)@) + Seq::empty());
            return ;
        },
    };
    let before: Option<u32> = match st.prev {
        Some(p) => p.sm_clock_mhz,
        None => None,
    };
    let prev_any: bool = match st.prev {
        Some(p) => match p.throttle {
            Some(r) => r.any(),
            None => false,
        },
        None => false,
    };
    let now_any: bool = t.any();
    if !prev_any && now_any {
        let e = start_event(before, device, name, sample, &t, temp_slowdown_c, Ghost(m));
        st.pre_throttle_clock = before;
        st.throttle_since = Some(sample.ts_ms);
        proof {
            lemma_event_pushed(out@, e);
        }
        out.push(e);
    } else if prev_any && !now_any {
        let e = end_event(
            st.throttle_since,
            st.pre_throttle_clock,
            device,
            name,
            sample,
            Ghost(m),
        );
        st.throttle_since = None;
        st.pre_throttle_clock = None;
        proof {
            lemma_event_pushed(out@, e);
        }
        out.push(e);
    }
    assert(event_views(out@) =~= event_views(old(out)@) + throttle_step(
        m,
        device@,
        name@,
        *sample,
        temp_slowdown_c,
    ).1);
}

} // verus!
