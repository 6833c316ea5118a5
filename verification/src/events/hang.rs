//! Suspected hangs: memory held on a device whose engines are flat-dead.

use vstd::prelude::*;
use crate::events::holders::{holders, largest};
use crate::events::holders::{holders_of, largest_of};
use crate::events::state::{DevModel, DevState, HangEpisode, HangView, Holder, HolderView, IdleGapView, Mean, MeanView};
use crate::events::state::holder_views;
use crate::events::{Confidence, Event, EventKind, EventView, Severity};
use crate::events::{dur_text, event_views, since};
use crate::events::{lemma_event_pushed, push_dur_ms};
use crate::model::{DeviceId, DynamicSample, MilliPct};
use crate::model::{bytes_text, push_bytes};
use crate::text::{dec, push_dec, push_signed_fixed1, signed_fixed1};

verus! {

/// The device is dead up to here.
pub const HANG_DEVICE_UTIL_PCT: MilliPct = 2_000;

/// A process is dead up to here.
pub const HANG_PROC_UTIL_PCT: MilliPct = 2_000;

/// 1 GiB.
pub const HANG_HOLDER_MIN_BYTES: u64 = 0x4000_0000;

/// Ten minutes.
pub const HANG_MIN_MS: u64 = 600_000;

/// The event of a hang.
pub open spec fn hang_suspected(
    device: Seq<char>,
    name: Seq<char>,
    ts_ms: u64,
    ep: HangView,
) -> EventView {
    let who = ep.holder.name + " (pid "@ + dec(ep.holder.pid as nat) + ")"@;
    let dur = dur_text(since(ts_ms, ep.start_ms) as nat);
    EventView {
        ts_ms,
        device,
        kind: EventKind::HangSuspected,
        severity: Severity::Warning,
        confidence: Confidence::Likely,
        title: name + ": "@ + who + " likely hung — held "@ + bytes_text(ep.holder.mem as nat)
            + " for "@ + dur + " with zero GPU activity, process still alive"@,
        evidence: "device util mean "@ + signed_fixed1(ep.util.sum, ep.util.divisor() * 1000) + "% over "@
            + dur + " ("@ + dec(ep.start_ms as nat) + ".."@ + dec(ts_ms as nat) + " ms); "@ + who
            + " held "@ + bytes_text(ep.holder.mem as nat)
            + " throughout while its own engine activity stayed flat"@,
    }
}

/// One of the holders is process `pid`.
pub open spec fn among(h: Seq<HolderView>, pid: u32) -> bool {
    exists|i: int| 0 <= i < h.len() && (#[trigger] h[i]).pid == pid
}

fn is_among(h: &Vec<Holder>, pid: u32) -> (r: bool)
    ensures
        r == among(holder_views(h@), pid),
{
    let ghost views = holder_views(h@);
    let mut i: usize = 0;
    while i < h.len()
        invariant
            i <= h.len(),
            views == holder_views(h@),
            forall|k: int| 0 <= k < i ==> (#[trigger] views[k]).pid != pid,
        decreases h.len() - i,
    {
        if h[i].pid == pid {
            assert(views[i as int].pid == pid);
            return true;
        }
        i = i + 1;
    }
    false
}

/// The premise of a hang of process `pid`: the device is dead, and so is this process, which holds
/// much memory on it.
pub open spec fn looks_hung(m: DevModel, util: MilliPct, pid: u32) -> bool {
    util <= HANG_DEVICE_UTIL_PCT && among(
        holders(m.procs, HANG_HOLDER_MIN_BYTES, Some(HANG_PROC_UTIL_PCT)),
        pid,
    )
}

/// What a sample does to a suspected hang, and the events it gives. An episode opens on the
/// premise, anchored to the largest such holder, and is dropped untold as soon as the premise
/// breaks of this very process (it leaves, it works, it gives its memory back) or utilization
/// cannot be seen. One that lasted is told once, and the idle gap it lived in is then muted.
pub open spec fn hang_step(
    m: DevModel,
    device: Seq<char>,
    name: Seq<char>,
    s: DynamicSample,
) -> (DevModel, Seq<EventView>) {
    let quiet = holders(m.procs, HANG_HOLDER_MIN_BYTES, Some(HANG_PROC_UTIL_PCT));
    match s.util_pct {
        None => (DevModel { hang: None, ..m }, Seq::empty()),
        Some(util) => match m.hang {
            Some(ep) => if !looks_hung(m, util, ep.holder.pid) {
                (DevModel { hang: None, ..m }, Seq::empty())
            } else {
                let ep = HangView { util: ep.util.with(util as int), ..ep };
                if since(s.ts_ms, ep.start_ms) >= HANG_MIN_MS && !ep.fired {
                    (
                        DevModel {
                            hang: Some(HangView { fired: true, ..ep }),
                            idle_gap: match m.idle_gap {
                                Some(gap) => Some(IdleGapView { hang_narrated: true, ..gap }),
                                None => None,
                            },
                            ..m
                        },
                        seq![hang_suspected(device, name, s.ts_ms, ep)],
                    )
                } else {
                    (DevModel { hang: Some(ep), ..m }, Seq::empty())
                }
            },
            None => match largest(quiet) {
                Some(holder) => if util <= HANG_DEVICE_UTIL_PCT {
                    (
                        DevModel {
                            hang: Some(
                                HangView {
                                    start_ms: s.ts_ms,
                                    holder,
                                    util: MeanView::none().with(util as int),
                                    fired: false,
                                },
                            ),
                            ..m
                        },
                        Seq::empty(),
                    )
                } else {
                    (m, Seq::empty())
                },
                None => (m, Seq::empty()),
            },
        },
    }
}

fn hang_event(device: &DeviceId, name: &String, ts_ms: u64, ep: &HangEpisode) -> (e: Event)
    requires
        ep.util.within(u64::MAX as nat),
    ensures
        e@ == hang_suspected(device@, name@, ts_ms, ep@),
{
    let elapsed: u64 = ts_ms.saturating_sub(ep.start_ms);
    let mut who: String = ep.holder.name.clone();
    who.append(" (pid ");
    push_dec(&mut who, ep.holder.pid as u128);
    who.append(")");
    let mut title: String = name.clone();
    title.append(": ");
    title.append(who.as_str());
    title.append(" likely hung — held ");
    push_bytes(&mut title, ep.holder.mem);
    title.append(" for ");
    push_dur_ms(&mut title, elapsed);
    title.append(" with zero GPU activity, process still alive");
    let mut evidence: String = String::new();
    evidence.append("device util mean ");
    push_signed_fixed1(&mut evidence, ep.util.sum, ep.util.divisor() as u128 * 1000);
    evidence.append("% over ");
    push_dur_ms(&mut evidence, elapsed);
    evidence.append(" (");
    push_dec(&mut evidence, ep.start_ms as u128);
    evidence.append("..");
    push_dec(&mut evidence, ts_ms as u128);
    evidence.append(" ms); ");
    evidence.append(who.as_str());
    evidence.append(" held ");
    push_bytes(&mut evidence, ep.holder.mem);
    evidence.append(" throughout while its own engine activity stayed flat");
    let e = Event {
        ts_ms,
        device: device.clone(),
        kind: EventKind::HangSuspected,
        severity: Severity::Warning,
        confidence: Confidence::Likely,
        title,
        evidence,
    };
    proof {
        let want = hang_suspected(device@, name@, ts_ms, ep@);
        assert(e.title@ =~= want.title);
        assert(e.evidence@ =~= want.evidence);
    }
    e
}

/// Follows a suspected hang of a device.
pub fn hang_events(
    st: &mut DevState,
    device: &DeviceId,
    name: &String,
    sample: &DynamicSample,
    out: &mut Vec<Event>,
)
    requires
        old(st).hang_within((u64::MAX - 1) as nat),
    ensures
        final(st)@ == hang_step(old(st)@, device@, name@, *sample).0,
        event_views(final(out)@) == event_views(old(out)@) + hang_step(
            old(st)@,
            device@,
            name@,
            *sample,
        ).1,
        forall|limit: nat| #[trigger]
            old(st).hang_within(limit) ==> final(st).hang_within(limit + 1),
        forall|limit: nat| #[trigger] old(st).gap_within(limit) ==> final(st).gap_within(limit),
        final(st).spillovers == old(st).spillovers,
{
    let ghost m = st@;
    let ghost told = event_views(out@);
    assert(event_views(out@) =~= told + Seq::empty());
    let util: MilliPct = match sample.util_pct {
        Some(u) => u,
        None => {
            st.hang = None;
            return ;
        },
    };
    let mut quiet = holders_of(&st.procs, HANG_HOLDER_MIN_BYTES, Some(HANG_PROC_UTIL_PCT));
    match st.hang.take() {
        Some(mut ep) => {
            if util > HANG_DEVICE_UTIL_PCT || !is_among(&quiet, ep.holder.pid) {
                return ;
            }
            ep.util.take(util);
            if sample.ts_ms.saturating_sub(ep.start_ms) >= HANG_MIN_MS && !ep.fired {
                let e = hang_event(device, name, sample.ts_ms, &ep);
                proof {
                    lemma_event_pushed(out@, e);
                }
                out.push(e);
                ep.fired = true;
                match st.idle_gap.take() {
                    Some(mut gap) => {
                        gap.hang_narrated = true;
                        st.idle_gap = Some(gap);
                    },
                    None => {},
                }
                assert(event_views(out@) =~= told + seq![e@]);
            }
            st.hang = Some(ep);
        },
        None => {
            match largest_of(&quiet) {
                Some(i) => {
                    if util <= HANG_DEVICE_UTIL_PCT {
                        let holder: Holder = quiet.swap_remove(i);
                        let mut mean = Mean::new();
                        mean.take(util);
                        st.hang = Some(
                            HangEpisode {
                                start_ms: sample.ts_ms,
                                holder,
                                util: mean,
                                fired: false,
                            },
                        );
                    }
                },
                None => {},
            }
        },
    }
}

} // verus!
