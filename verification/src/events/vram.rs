//! Memory pressure: a device whose memory is nearly full and still filling.

use vstd::prelude::*;
use std::collections::VecDeque;
use crate::events::holders::{holders, largest};
use crate::events::holders::{holders_of, largest_of};
use crate::events::state::{DevModel, DevState, SeenProcess, SeenView};
use crate::events::state::seen_views;
use crate::events::{Confidence, Event, EventKind, EventView, Severity};
use crate::events::{event_views, since};
use crate::events::lemma_event_pushed;
use crate::model::{DeviceId, DynamicSample};
use crate::model::{bytes_text, push_bytes};
use crate::text::{dec, fixed0, fixed1, push_dec, push_fixed0, push_fixed1};

verus! {

/// The trend is taken over at most this long,
pub const VRAM_WINDOW_MS: u64 = 180_000;

/// and at least this long.
pub const VRAM_MIN_SPAN_MS: u64 = 60_000;

/// Pressure begins at this share of the memory, in percent.
pub const VRAM_PRESSURE_PCT: u64 = 85;

/// 16 MiB a minute.
pub const VRAM_MIN_SLOPE_BYTES_PER_MIN: u64 = 0x100_0000;

/// Pressure is told no more often than this.
pub const VRAM_COOLDOWN_MS: u64 = 90_000;

pub const MS_PER_MIN: u64 = 60_000;

/// The window without the entries that are too old at `ts_ms`.
pub open spec fn trimmed(w: Seq<(u64, u64)>, ts_ms: u64) -> Seq<(u64, u64)>
    decreases w.len(),
{
    if w.len() > 0 && since(ts_ms, w[0].0) > VRAM_WINDOW_MS {
        trimmed(w.skip(1), ts_ms)
    } else {
        w
    }
}

/// The window after a reading. A sharp drop restarts it: a trend across the old peak would
/// understate the climb.
pub open spec fn window_step(
    w: Seq<(u64, u64)>,
    ts_ms: u64,
    used: u64,
    total: u64,
) -> Seq<(u64, u64)> {
    let kept = if w.len() > 0 && since(w.last().1, used) > total / 20 {
        Seq::empty()
    } else {
        w
    };
    trimmed(kept.push((ts_ms, used)), ts_ms)
}

/// The window shows a climb that is long and steep enough.
pub open spec fn climbing(w: Seq<(u64, u64)>) -> bool {
    let span = since(w.last().0, w[0].0);
    &&& w.len() > 0
    &&& span >= VRAM_MIN_SPAN_MS
    &&& (w.last().1 - w[0].1) * MS_PER_MIN >= VRAM_MIN_SLOPE_BYTES_PER_MIN * span
}

/// The last event is long enough ago.
pub open spec fn cooled_down(last: Option<u64>, ts_ms: u64) -> bool {
    match last {
        Some(t) => since(ts_ms, t) >= VRAM_COOLDOWN_MS,
        None => true,
    }
}

/// Names the process that holds most, where the size of any is known.
pub open spec fn grower_text(procs: Seq<SeenView>) -> Seq<char> {
    match largest(holders(procs, 0, None)) {
        Some(h) => " (largest holder: "@ + h.name + " pid "@ + dec(h.pid as nat) + ")"@,
        None => Seq::empty(),
    }
}

/// The event of pressure: `w` is the window that shows it.
pub open spec fn pressure(
    device: Seq<char>,
    name: Seq<char>,
    ts_ms: u64,
    used: u64,
    total: u64,
    w: Seq<(u64, u64)>,
    procs: Seq<SeenView>,
) -> EventView {
    let span = (w.last().0 - w[0].0) as nat;
    let climb = (w.last().1 - w[0].1) as nat;
    let rate = bytes_text(climb * MS_PER_MIN as nat / span);
    let headroom = since(total, used) as nat;
    EventView {
        ts_ms,
        device,
        kind: EventKind::VramPressure,
        severity: Severity::Warning,
        confidence: Confidence::Likely,
        title: name + " VRAM "@ + fixed0(used as nat * 100, total as nat) + "% and climbing ~"@
            + rate + "/min — likely full in ~"@ + fixed0(headroom * span, climb * MS_PER_MIN as nat)
            + " min"@ + grower_text(procs),
        evidence: "used "@ + bytes_text(used as nat) + "/"@ + bytes_text(total as nat) + " ("@
            + fixed1(used as nat * 100, total as nat) + "%); slope +"@ + rate
            + "/min over last "@ + fixed1(span, MS_PER_MIN as nat)
            + " min (linear extrapolation)"@,
    }
}

/// What a sample does to the memory trend, and the events it gives.
pub open spec fn vram_pressure_step(
    m: DevModel,
    device: Seq<char>,
    name: Seq<char>,
    s: DynamicSample,
    mem_total: Option<u64>,
) -> (DevModel, Seq<EventView>) {
    match (s.mem_used_bytes, mem_total) {
        (Some(used), Some(total)) => if total == 0 {
            (m, Seq::empty())
        } else {
            let w = window_step(m.vram_window, s.ts_ms, used, total);
            if used * 100 >= total * VRAM_PRESSURE_PCT && climbing(w) && cooled_down(
                m.last_pressure_evt,
                s.ts_ms,
            ) {
                (
                    DevModel { vram_window: w, last_pressure_evt: Some(s.ts_ms), ..m },
                    seq![pressure(device, name, s.ts_ms, used, total, w, m.procs)],
                )
            } else {
                (DevModel { vram_window: w, ..m }, Seq::empty())
            }
        },
        _ => (m, Seq::empty()),
    }
}

/// Trimming keeps the newest entry, and keeps it last.
proof fn lemma_trimmed_last(w: Seq<(u64, u64)>, ts_ms: u64)
    requires
        w.len() > 0,
        since(ts_ms, w.last().0) <= VRAM_WINDOW_MS,
    ensures
        trimmed(w, ts_ms).len() > 0,
        trimmed(w, ts_ms).last() == w.last(),
    decreases w.len(),
{
    if since(ts_ms, w[0].0) > VRAM_WINDOW_MS {
        assert(w.skip(1).last() == w.last());
        lemma_trimmed_last(w.skip(1), ts_ms);
    }
}

/// Takes a reading into the window.
fn advance_window(w: &mut VecDeque<(u64, u64)>, ts_ms: u64, used: u64, total: u64)
    ensures
        final(w)@ == window_step(old(w)@, ts_ms, used, total),
        final(w)@.len() > 0,
        final(w)@.last() == (ts_ms, used),
{
    let n: usize = w.len();
    if n > 0 {
        let last_used: u64 = w[n - 1].1;
        if last_used.saturating_sub(used) > total / 20 {
            w.clear();
        }
    }
    w.push_back((ts_ms, used));
    let ghost grown = w@;
    while w.len() > 0 && ts_ms.saturating_sub(w[0].0) > VRAM_WINDOW_MS
        invariant
            trimmed(w@, ts_ms) == trimmed(grown, ts_ms),
        decreases w@.len(),
    {
        let ghost before = w@;
        let _ = w.pop_front();
        assert(w@ =~= before.skip(1));
    }
    proof {
        lemma_trimmed_last(grown, ts_ms);
    }
}

fn push_grower(out: &mut String, procs: &Vec<SeenProcess>)
    ensures
        final(out)@ == old(out)@ + grower_text(seen_views(procs@)),
{
    let known = holders_of(procs, 0, None);
    if let Some(i) = largest_of(&known) {
        out.append(" (largest holder: ");
        out.append(known[i].name.as_str());
        out.append(" pid ");
        push_dec(out, known[i].pid as u128);
        out.append(")");
    }
    assert(final(out)@ =~= old(out)@ + grower_text(seen_views(procs@)));
}

fn pressure_event(
    device: &DeviceId,
    name: &String,
    ts_ms: u64,
    used: u64,
    total: u64,
    first: (u64, u64),
    procs: &Vec<SeenProcess>,
    Ghost(w): Ghost<Seq<(u64, u64)>>,
) -> (e: Event)
    requires
        total > 0,
        w.len() > 0,
        w[0] == first,
        w.last() == (ts_ms, used),
        climbing(w),
    ensures
        e@ == pressure(device@, name@, ts_ms, used, total, w, seen_views(procs@)),
{
    let span: u64 = ts_ms - first.0;
    assert(VRAM_MIN_SLOPE_BYTES_PER_MIN * span > 0) by (nonlinear_arith)
        requires
            span >= VRAM_MIN_SPAN_MS,
    ;
    assert(used > first.1);
    let climb: u64 = used - first.1;
    let per_min: u128 = climb as u128 * MS_PER_MIN as u128 / span as u128;
    assert(per_min <= climb) by (nonlinear_arith)
        requires
            span >= MS_PER_MIN,
            MS_PER_MIN == 60_000,
            climb >= 0,
            per_min == (climb * MS_PER_MIN) / (span as int),
    ;
    let headroom: u64 = total.saturating_sub(used);
    assert(headroom * span <= 0xffff_ffff_ffff_ffff * 0xffff_ffff_ffff_ffff) by (nonlinear_arith)
        requires
            headroom <= 0xffff_ffff_ffff_ffff,
            span <= 0xffff_ffff_ffff_ffff,
    ;
    let rate = crate::model::fmt_bytes(per_min as u64);
    let mut title: String = name.clone();
    title.append(" VRAM ");
    push_fixed0(&mut title, used as u128 * 100, total as u128);
    title.append("% and climbing ~");
    title.append(rate.as_str());
    title.append("/min — likely full in ~");
    push_fixed0(
        &mut title,
        headroom as u128 * span as u128,
        climb as u128 * MS_PER_MIN as u128,
    );
    title.append(" min");
    push_grower(&mut title, procs);
    let mut evidence: String = String::new();
    evidence.append("used ");
    push_bytes(&mut evidence, used);
    evidence.append("/");
    push_bytes(&mut evidence, total);
    evidence.append(" (");
    push_fixed1(&mut evidence, used as u128 * 100, total as u128);
    evidence.append("%); slope +");
    evidence.append(rate.as_str());
    evidence.append("/min over last ");
    push_fixed1(&mut evidence, span as u128, MS_PER_MIN as u128);
    evidence.append(" min (linear extrapolation)");
    let e = Event {
        ts_ms,
        device: device.clone(),
        kind: EventKind::VramPressure,
        severity: Severity::Warning,
        confidence: Confidence::Likely,
        title,
        evidence,
    };
    proof {
        let want = pressure(device@, name@, ts_ms, used, total, w, seen_views(procs@));
        assert(e.title@ =~= want.title);
        assert(e.evidence@ =~= want.evidence);
    }
    e
}

/// Follows the memory trend of a device.
pub fn vram_pressure_events(
    st: &mut DevState,
    device: &DeviceId,
    name: &String,
    sample: &DynamicSample,
    mem_total: Option<u64>,
    out: &mut Vec<Event>,
)
    ensures
        final(st)@ == vram_pressure_step(old(st)@, device@, name@, *sample, mem_total).0,
        event_views(final(out)@) == event_views(old(out)@) + vram_pressure_step(
            old(st)@,
            device@,
            name@,
            *sample,
            mem_total,
        ).1,
        final(st).idle_gap == old(st).idle_gap,
        final(st).hang == old(st).hang,
        final(st).spillovers == old(st).spillovers,
{
    let ghost told = event_views(out@);
    assert(event_views(out@) =~= told + Seq::empty());
    let used: u64 = match sample.mem_used_bytes {
        Some(u) => u,
        None => {
            return ;
        },
    };
    let total: u64 = match mem_total {
        Some(t) => t,
        None => {
            return ;
        },
    };
    if total == 0 {
        return ;
    }
    advance_window(&mut st.vram_window, sample.ts_ms, used, total);
    let ghost w = st.vram_window@;
    if (used as u128 * 100) < (total as u128 * VRAM_PRESSURE_PCT as u128) {
        return ;
    }
    let first: (u64, u64) = st.vram_window[0];
    let span: u64 = sample.ts_ms.saturating_sub(first.0);
    if span < VRAM_MIN_SPAN_MS {
        return ;
    }
    if used < first.1 || (used - first.1) as u128 * (MS_PER_MIN as u128) < (
    VRAM_MIN_SLOPE_BYTES_PER_MIN as u128) * span as u128 {
        return ;
    }
    if let Some(last) = st.last_pressure_evt {
        if sample.ts_ms.saturating_sub(last) < VRAM_COOLDOWN_MS {
            return ;
        }
    }
    st.last_pressure_evt = Some(sample.ts_ms);
    let e = pressure_event(
        device,
        name,
        sample.ts_ms,
        used,
        total,
        first,
        &st.procs,
        Ghost(w),
    );
    proof {
        lemma_event_pushed(out@, e);
    }
    out.push(e);
    assert(event_views(out@) =~= told + seq![e@]);
}

} // verus!
