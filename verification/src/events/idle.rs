//! Idle gaps: a device that worked, fell idle while its process stayed, and works again.

use vstd::prelude::*;
use crate::events::holders::{holders, largest};
use crate::events::holders::{holders_of, largest_of};
use crate::events::process::{is_known, known};
use crate::events::state::{DevModel, DevState, Holder, HolderView, IdleGap, IdleGapView, Mean, MeanView, SeenProcess, SeenView};
use crate::events::state::{holder_views, seen_views};
use crate::events::{Confidence, Event, EventKind, EventView, Severity};
use crate::events::{dur_text, event_views, since};
use crate::events::{lemma_event_pushed, push_dur_ms};
use crate::lists::filter_map;
use crate::lists::lemma_filter_map_step;
use crate::model::{DeviceId, DynamicSample, MilliPct};
use crate::model::{bytes_text, push_bytes};
use crate::text::{dec, push_dec, push_signed_fixed0, push_signed_fixed1, signed_fixed0, signed_fixed1};

verus! {

/// From here on the device is active.
pub const IDLE_ACTIVE_UTIL_PCT: MilliPct = 50_000;

/// For so long it has to be, before a trough reads as a stall.
pub const IDLE_ACTIVE_MIN_MS: u64 = 30_000;

/// Below this a gap opens.
pub const IDLE_GAP_UTIL_PCT: MilliPct = 10_000;

/// A shorter gap is not told.
pub const IDLE_GAP_MIN_MS: u64 = 10_000;

/// 256 MiB.
pub const IDLE_HOLDER_MIN_BYTES: u64 = 0x1000_0000;

/// The event of a gap that ended.
pub open spec fn idle_gap(
    device: Seq<char>,
    name: Seq<char>,
    ts_ms: u64,
    gap: IdleGapView,
    holder: HolderView,
) -> EventView {
    let who = holder.name + " (pid "@ + dec(holder.pid as nat) + ")"@;
    let dur = dur_text(since(ts_ms, gap.start_ms) as nat);
    EventView {
        ts_ms,
        device,
        kind: EventKind::IdleGap,
        severity: Severity::Info,
        confidence: Confidence::Likely,
        title: name + " sat idle "@ + dur + " while "@ + who
            + " stayed attached — likely a dataloader or checkpoint stall"@,
        evidence: "util "@ + signed_fixed0(gap.pre_util_pct as int, 1000) + "% → mean "@ + signed_fixed1(
            gap.util.sum,
            gap.util.divisor() * 1000,
        ) + "% over "@ + dur + " ("@ + dec(gap.start_ms as nat) + ".."@ + dec(ts_ms as nat)
            + " ms); "@ + who + " held "@ + bytes_text(holder.mem as nat)
            + " for the whole gap"@,
    }
}

/// A holder that is still attached stays.
pub open spec fn stay_rule(procs: Seq<SeenView>) -> spec_fn(HolderView) -> Option<HolderView> {
    |h: HolderView|
        if known(procs, h.pid) {
            Some(h)
        } else {
            None
        }
}

/// The holders that are still attached.
pub open spec fn staying(h: Seq<HolderView>, procs: Seq<SeenView>) -> Seq<HolderView> {
    filter_map(h, stay_rule(procs))
}

/// The events of a gap that ends with a sample at `ts_ms`: it is told where it lasted, no hang was
/// told in it, and a holder stayed through all of it.
pub open spec fn gap_told(
    device: Seq<char>,
    name: Seq<char>,
    ts_ms: u64,
    gap: IdleGapView,
) -> Seq<EventView> {
    match largest(gap.holders) {
        Some(holder) => if since(ts_ms, gap.start_ms) >= IDLE_GAP_MIN_MS && !gap.hang_narrated {
            seq![idle_gap(device, name, ts_ms, gap, holder)]
        } else {
            Seq::empty()
        },
        None => Seq::empty(),
    }
}

/// The utilization of the previous sample, or else `util`.
pub open spec fn util_before(m: DevModel, util: MilliPct) -> MilliPct {
    match m.prev {
        Some(p) => match p.util_pct {
            Some(u) => u,
            None => util,
        },
        None => util,
    }
}

/// What a sample does to an idle gap, and the events it gives. Where utilization cannot be seen
/// everything is dropped. An open gap lasts until the device is active again; a device that is
/// active for long enough becomes eligible for a gap, which opens when utilization falls.
pub open spec fn idle_gap_step(
    m: DevModel,
    device: Seq<char>,
    name: Seq<char>,
    s: DynamicSample,
) -> (DevModel, Seq<EventView>) {
    match s.util_pct {
        None => (
            DevModel { active_since: None, idle_eligible: false, idle_gap: None, ..m },
            Seq::empty(),
        ),
        Some(util) => match m.idle_gap {
            Some(gap) => {
                let gap = IdleGapView { holders: staying(gap.holders, m.procs), ..gap };
                if util < IDLE_ACTIVE_UTIL_PCT {
                    (
                        DevModel {
                            idle_gap: Some(IdleGapView { util: gap.util.with(util as int), ..gap }),
                            ..m
                        },
                        Seq::empty(),
                    )
                } else {
                    (
                        DevModel {
                            active_since: Some(s.ts_ms),
                            idle_eligible: false,
                            idle_gap: None,
                            ..m
                        },
                        gap_told(device, name, s.ts_ms, gap),
                    )
                }
            },
            None => if util >= IDLE_ACTIVE_UTIL_PCT {
                let from = match m.active_since {
                    Some(t) => t,
                    None => s.ts_ms,
                };
                (
                    DevModel {
                        active_since: Some(from),
                        idle_eligible: m.idle_eligible || since(s.ts_ms, from)
                            >= IDLE_ACTIVE_MIN_MS,
                        ..m
                    },
                    Seq::empty(),
                )
            } else if util >= IDLE_GAP_UTIL_PCT || !m.idle_eligible {
                (DevModel { active_since: None, ..m }, Seq::empty())
            } else {
                (
                    DevModel {
                        active_since: None,
                        idle_gap: Some(
                            IdleGapView {
                                start_ms: s.ts_ms,
                                pre_util_pct: util_before(m, util),
                                util: MeanView::none().with(util as int),
                                holders: holders(m.procs, IDLE_HOLDER_MIN_BYTES, None),
                                hang_narrated: false,
                            },
                        ),
                        ..m
                    },
                    Seq::empty(),
                )
            },
        },
    }
}

/// Drops the holders that are no longer attached.
fn keep_staying(h: Vec<Holder>, procs: &Vec<SeenProcess>) -> (v: Vec<Holder>)
    ensures
        holder_views(v@) == staying(holder_views(h@), seen_views(procs@)),
{
    let ghost views = holder_views(h@);
    let ghost rule = stay_rule(seen_views(procs@));
    let mut v: Vec<Holder> = Vec::new();
    let mut i: usize = 0;
    assert(holder_views(v@) =~= filter_map(views.take(0), rule));
    while i < h.len()
        invariant
            i <= h.len(),
            views == holder_views(h@),
            rule == stay_rule(seen_views(procs@)),
            holder_views(v@) == filter_map(views.take(i as int), rule),
        decreases h.len() - i,
    {
        proof {
            lemma_filter_map_step(views, rule, i as int);
            assert(views[i as int] == h@[i as int]@);
        }
        let ghost before = v@;
        if is_known(procs, h[i].pid) {
            let kept = Holder { pid: h[i].pid, name: h[i].name.clone(), mem: h[i].mem };
            assert(holder_views(before.push(kept)) =~= holder_views(before).push(kept@));
            v.push(kept);
        }
        i = i + 1;
    }
    assert(views.take(views.len() as int) =~= views);
    v
}

fn gap_event(
    device: &DeviceId,
    name: &String,
    ts_ms: u64,
    gap: &IdleGap,
    holder: &Holder,
) -> (e: Event)
    requires
        gap.util.within(u64::MAX as nat),
    ensures
        e@ == idle_gap(device@, name@, ts_ms, gap@, holder@),
{
    let dur_ms: u64 = ts_ms.saturating_sub(gap.start_ms);
    let mut who: String = holder.name.clone();
    who.append(" (pid ");
    push_dec(&mut who, holder.pid as u128);
    who.append(")");
    let mut title: String = name.clone();
    title.append(" sat idle ");
    push_dur_ms(&mut title, dur_ms);
    title.append(" while ");
    title.append(who.as_str());
    title.append(" stayed attached — likely a dataloader or checkpoint stall");
    let mut evidence: String = String::new();
    evidence.append("util ");
    push_signed_fixed0(&mut evidence, gap.pre_util_pct as i128, 1000);
    evidence.append("% → mean ");
    push_signed_fixed1(&mut evidence, gap.util.sum, gap.util.divisor() as u128 * 1000);
    evidence.append("% over ");
    push_dur_ms(&mut evidence, dur_ms);
    evidence.append(" (");
    push_dec(&mut evidence, gap.start_ms as u128);
    evidence.append("..");
    push_dec(&mut evidence, ts_ms as u128);
    evidence.append(" ms); ");
    evidence.append(who.as_str());
    evidence.append(" held ");
    push_bytes(&mut evidence, holder.mem);
    evidence.append(" for the whole gap");
    let e = Event {
        ts_ms,
        device: device.clone(),
        kind: EventKind::IdleGap,
        severity: Severity::Info,
        confidence: Confidence::Likely,
        title,
        evidence,
    };
    proof {
        let want = idle_gap(device@, name@, ts_ms, gap@, holder@);
        assert(e.title@ =~= want.title);
        assert(e.evidence@ =~= want.evidence);
    }
    e
}

/// Follows the idle gaps of a device.
pub fn idle_gap_events(
    st: &mut DevState,
    device: &DeviceId,
    name: &String,
    sample: &DynamicSample,
    out: &mut Vec<Event>,
)
    requires
        old(st).gap_within((u64::MAX - 1) as nat),
    ensures
        final(st)@ == idle_gap_step(old(st)@, device@, name@, *sample).0,
        event_views(final(out)@) == event_views(old(out)@) + idle_gap_step(
            old(st)@,
            device@,
            name@,
            *sample,
        ).1,
        forall|limit: nat| #[trigger] old(st).gap_within(limit) ==> final(st).gap_within(limit + 1),
        final(st).hang == old(st).hang,
        final(st).spillovers == old(st).spillovers,
{
    let ghost m = st@;
    let ghost told = event_views(out@);
    assert(event_views(out@) =~= told + Seq::empty());
    let util: MilliPct = match sample.util_pct {
        Some(u) => u,
        None => {
            st.active_since = None;
            st.idle_eligible = false;
            st.idle_gap = None;
            return ;
        },
    };
    match st.idle_gap.take() {
        Some(open) => {
            let mut gap = open;
            let kept = keep_staying(gap.holders, &st.procs);
            gap.holders = kept;
            if util < IDLE_ACTIVE_UTIL_PCT {
                gap.util.take(util);
                st.idle_gap = Some(gap);
                return ;
            }
            let lasted: bool = sample.ts_ms.saturating_sub(gap.start_ms) >= IDLE_GAP_MIN_MS;
            if lasted && !gap.hang_narrated {
                if let Some(i) = largest_of(&gap.holders) {
                    let e = gap_event(device, name, sample.ts_ms, &gap, &gap.holders[i]);
                    proof {
                        lemma_event_pushed(out@, e);
                    }
                    out.push(e);
                    assert(event_views(out@) =~= told + seq![e@]);
                }
            }
            st.active_since = Some(sample.ts_ms);
            st.idle_eligible = false;
        },
        None => {
            if util >= IDLE_ACTIVE_UTIL_PCT {
                let from: u64 = match st.active_since {
                    Some(t) => t,
                    None => sample.ts_ms,
                };
                st.active_since = Some(from);
                if sample.ts_ms.saturating_sub(from) >= IDLE_ACTIVE_MIN_MS {
                    st.idle_eligible = true;
                }
                return ;
            }
            st.active_since = None;
            if util >= IDLE_GAP_UTIL_PCT || !st.idle_eligible {
                return ;
            }
            let pre_util_pct: MilliPct = match st.prev {
                Some(p) => match p.util_pct {
                    Some(u) => u,
                    None => util,
                },
                None => util,
            };
            let mut mean = Mean::new();
            mean.take(util);
            st.idle_gap = Some(
                IdleGap {
                    start_ms: sample.ts_ms,
                    pre_util_pct,
                    util: mean,
                    holders: holders_of(&st.procs, IDLE_HOLDER_MIN_BYTES, None),
                    hang_narrated: false,
                },
            );
        },
    }
}

} // verus!
