//! Event derivation: from samples to the story they tell.
//!
//! Two tiers. `Confidence::Fact` events assert observed transitions plainly. `Confidence::Likely`
//! events are inferences and always read as hedged. Both carry the evidence behind them.

pub mod hang;
pub mod holders;
pub mod idle;
pub mod laws;
pub mod process;
pub mod spillover;
pub mod state;
pub mod story;
pub mod throttle;
pub mod vram;

use vstd::prelude::*;
use crate::by_id::ById;
use crate::events::hang::{hang_events, hang_step};
use crate::events::idle::{idle_gap_events, idle_gap_step};
use crate::events::laws::{all_honest, law_events_are_honest};
use crate::events::process::{process_events, process_step};
use crate::events::spillover::{spillover_events, spillover_step};
use crate::events::state::{DevModel, DevState, PrevSample};
use crate::events::throttle::{throttle_events, throttle_step};
use crate::events::vram::{vram_pressure_events, vram_pressure_step};
use crate::model::{DeviceId, DynamicSample, MilliC, ProcView, ProcessSample};
use crate::model::proc_views;
use crate::text::{dec, push_dec};

verus! {

#[derive(Clone, Copy, Debug, PartialEq, Eq, Structural)]
pub enum Severity {
    Info,
    Warning,
    Critical,
}

#[derive(Clone, Copy, Debug, PartialEq, Eq, Structural)]
pub enum Confidence {
    Fact,
    Likely,
}

#[derive(Clone, Copy, Debug, PartialEq, Eq, Hash, Structural)]
pub enum EventKind {
    ThrottleStart,
    ThrottleEnd,
    ProcessAttached,
    ProcessExited,
    VramPressure,
    IdleGap,
    /// The collector fell behind its ticks: the recording has a hole, which must not pass for
    /// an idle device.
    CollectorStall,
    /// History was cut or restarted: the break is no behaviour of the device.
    HistoryReset,
    /// A workload holds memory on a device whose engines are dead: always `Likely`.
    HangSuspected,
    /// A device stopped answering altogether. Only the silence is claimed, never its cause:
    /// always `Fact`.
    DeviceLost,
    /// A lost device answered again; the samples in between were never taken: always `Fact`.
    DeviceReturned,
    /// A process on the device burns CPU while the device sits idle: always `Likely`.
    CpuSpillover,
    /// A recording session began: always `Fact`.
    RecordingStarted,
    /// A recording session ended cleanly: always `Fact`.
    RecordingStopped,
}

#[derive(Debug)]
pub struct Event {
    pub ts_ms: u64,
    pub device: DeviceId,
    pub kind: EventKind,
    pub severity: Severity,
    pub confidence: Confidence,
    /// One line of narration.
    pub title: String,
    /// The readings behind the narration.
    pub evidence: String,
}

/// An event by its contents.
#[verifier::ext_equal]
pub struct EventView {
    pub ts_ms: u64,
    pub device: Seq<char>,
    pub kind: EventKind,
    pub severity: Severity,
    pub confidence: Confidence,
    pub title: Seq<char>,
    pub evidence: Seq<char>,
}

impl View for Event {
    type V = EventView;

    open spec fn view(&self) -> EventView {
        EventView {
            ts_ms: self.ts_ms,
            device: self.device@,
            kind: self.kind,
            severity: self.severity,
            confidence: self.confidence,
            title: self.title@,
            evidence: self.evidence@,
        }
    }
}

/// The contents of a list of events.
pub open spec fn event_views(v: Seq<Event>) -> Seq<EventView> {
    Seq::new(v.len(), |i: int| v[i]@)
}

/// A list grows by one event.
pub proof fn lemma_event_pushed(v: Seq<Event>, e: Event)
    ensures
        event_views(v.push(e)) == event_views(v).push(e@),
{
    assert(event_views(v.push(e)) =~= event_views(v).push(e@));
}

/// `a - b`, or zero where that is negative.
pub open spec fn since(a: u64, b: u64) -> u64 {
    if a >= b {
        (a - b) as u64
    } else {
        0
    }
}

/// A duration rounded to whole seconds: `42s`, or `3m 7s` from a minute on.
pub open spec fn dur_text(ms: nat) -> Seq<char> {
    let s = (ms + 500) / 1000;
    if s >= 60 {
        dec(s / 60) + "m "@ + dec(s % 60) + "s"@
    } else {
        dec(s) + "s"@
    }
}

/// Appends a duration.
pub fn push_dur_ms(out: &mut String, ms: u64)
    ensures
        final(out)@ == old(out)@ + dur_text(ms as nat),
{
    let s: u128 = (ms as u128 + 500) / 1000;
    if s >= 60 {
        push_dec(out, s / 60);
        out.append("m ");
        push_dec(out, s % 60);
    } else {
        push_dec(out, s);
    }
    out.append("s");
    assert(final(out)@ =~= old(out)@ + dur_text(ms as nat));
}

/// A duration as text.
pub fn fmt_dur_ms(ms: u64) -> (r: String)
    ensures
        r@ == dur_text(ms as nat),
{
    let mut out: String = String::new();
    push_dur_ms(&mut out, ms);
    assert(out@ =~= dur_text(ms as nat));
    out
}

/// What an observation of a device does to what is remembered of it, and the events it gives. The
/// six rules apply in this order, each to what the ones before it left: assessments open on the
/// arrivals of the list, before the list is taken over; a hang sees the list that was taken over;
/// and a gap sees the hang that was told in it.
pub open spec fn observe_step(
    m: DevModel,
    device: Seq<char>,
    name: Seq<char>,
    s: DynamicSample,
    ps: Seq<ProcView>,
    mem_total: Option<u64>,
    temp_slowdown_c: Option<MilliC>,
) -> (DevModel, Seq<EventView>) {
    let a = throttle_step(m, device, name, s, temp_slowdown_c);
    let b = spillover_step(a.0, device, name, s, ps);
    let c = process_step(b.0, device, name, s.ts_ms, ps);
    let d = hang_step(c.0, device, name, s);
    let e = idle_gap_step(d.0, device, name, s);
    let f = vram_pressure_step(e.0, device, name, s, mem_total);
    (
        DevModel {
            prev: Some(
                PrevSample {
                    util_pct: s.util_pct,
                    sm_clock_mhz: s.sm_clock_mhz,
                    throttle: s.throttle,
                },
            ),
            ..f.0
        },
        a.1 + b.1 + c.1 + d.1 + e.1 + f.1,
    )
}

/// Applies the six rules to what is remembered of a device.
fn apply_rules(
    st: &mut DevState,
    device: &DeviceId,
    name: &String,
    sample: &DynamicSample,
    processes: &[ProcessSample],
    mem_total: Option<u64>,
    temp_slowdown_c: Option<MilliC>,
) -> (out: Vec<Event>)
    requires
        old(st).within((u64::MAX - 1) as nat),
    ensures
        (final(st)@, event_views(out@)) == observe_step(
            old(st)@,
            device@,
            name@,
            *sample,
            proc_views(processes@),
            mem_total,
            temp_slowdown_c,
        ),
        forall|limit: nat| #[trigger] old(st).within(limit) ==> final(st).within(limit + 1),
{
    let ghost s0 = *st;
    let mut out: Vec<Event> = Vec::new();
    assert(event_views(out@) =~= Seq::empty());
    throttle_events(st, device, name, sample, temp_slowdown_c, &mut out);
    let ghost s1 = *st;
    assert(forall|limit: nat| s1.spillovers_within(limit) == s0.spillovers_within(limit));
    spillover_events(st, device, name, sample, processes, &mut out);
    let ghost s2 = *st;
    process_events(st, device, name, sample.ts_ms, processes, &mut out);
    let ghost s3 = *st;
    assert(forall|limit: nat| s3.hang_within(limit) == s0.hang_within(limit));
    assert(forall|limit: nat| s3.gap_within(limit) == s0.gap_within(limit));
    hang_events(st, device, name, sample, &mut out);
    let ghost s4 = *st;
    idle_gap_events(st, device, name, sample, &mut out);
    vram_pressure_events(st, device, name, sample, mem_total, &mut out);
    st.prev = Some(
        PrevSample {
            util_pct: sample.util_pct,
            sm_clock_mhz: sample.sm_clock_mhz,
            throttle: sample.throttle,
        },
    );
    proof {
        assert forall|limit: nat| #[trigger] s0.within(limit) implies st.within(limit + 1) by {
            assert(s1.spillovers_within(limit));
            assert(s2.spillovers_within(limit + 1));
            assert(s3.hang_within(limit) && s3.gap_within(limit));
            assert(s4.hang_within(limit + 1) && s4.gap_within(limit));
        }
    }
    out
}

/// Derives events from the samples of any number of devices.
pub struct EventEngine {
    devices: ById<DevState>,
    names: ById<String>,
    ticks: u64,
}

impl EventEngine {
    /// What is remembered of device `id`.
    pub closed spec fn device(self, id: Seq<char>) -> DevModel {
        match self.devices.at(id) {
            Some(st) => st@,
            None => DevModel::fresh(),
        }
    }

    /// The name of device `id` in narration: the one registered for it, else its identity.
    pub closed spec fn short_name(self, id: Seq<char>) -> Seq<char> {
        match self.names.at(id) {
            Some(name) => name@,
            None => id,
        }
    }

    /// The number of observations so far.
    pub closed spec fn observed(self) -> nat {
        self.ticks as nat
    }

    /// Each device has one state and one name, and no running mean holds more readings than there
    /// were observations.
    pub closed spec fn wf(self) -> bool {
        &&& self.devices.wf()
        &&& self.names.wf()
        &&& forall|id: Seq<char>|
            (#[trigger] self.devices.at(id)) matches Some(st) ==> st.within(self.ticks as nat)
    }

    pub fn new() -> (r: Self)
        ensures
            r.wf(),
            r.observed() == 0,
            forall|id: Seq<char>| #[trigger] r.device(id) == DevModel::fresh(),
            forall|id: Seq<char>| #[trigger] r.short_name(id) == id,
    {
        EventEngine { devices: ById::new(), names: ById::new(), ticks: 0 }
    }

    /// Registers the name of a device in narration ("GPU0").
    pub fn register_device(&mut self, id: DeviceId, short_name: String)
        requires
            old(self).wf(),
        ensures
            final(self).wf(),
            final(self).observed() == old(self).observed(),
            forall|d: Seq<char>| #[trigger] final(self).device(d) == old(self).device(d),
            final(self).short_name(id@) == short_name@,
            forall|d: Seq<char>|
                d != id@ ==> #[trigger] final(self).short_name(d) == old(self).short_name(d),
    {
        self.names.insert(id, short_name);
    }

    /// The name of a device in narration.
    fn short(&self, id: &DeviceId) -> (r: String)
        requires
            self.wf(),
        ensures
            r@ == self.short_name(id@),
    {
        match self.names.get(id) {
            Some(name) => name.clone(),
            None => id.text(),
        }
    }

    /// Takes a sample of a device and the list of its processes, and tells what they show.
    pub fn observe(
        &mut self,
        device: &DeviceId,
        sample: &DynamicSample,
        processes: &[ProcessSample],
        mem_total: Option<u64>,
        temp_slowdown_c: Option<MilliC>,
    ) -> (out: Vec<Event>)
        requires
            old(self).wf(),
            old(self).observed() < u64::MAX,
        ensures
            final(self).wf(),
            final(self).observed() == old(self).observed() + 1,
            forall|d: Seq<char>| #[trigger]
                final(self).short_name(d) == old(self).short_name(d),
            forall|d: Seq<char>|
                d != device@ ==> #[trigger] final(self).device(d) == old(self).device(d),
            (final(self).device(device@), event_views(out@)) == observe_step(
                old(self).device(device@),
                device@,
                old(self).short_name(device@),
                *sample,
                proc_views(processes@),
                mem_total,
                temp_slowdown_c,
            ),
            all_honest(event_views(out@), device@, sample.ts_ms),
    {
        let name = self.short(device);
        let mut st = match self.devices.index_of(device) {
            Some(i) => self.devices.replace_at(i, DevState::new()),
            None => DevState::new(),
        };
        assert(st@ == old(self).device(device@));
        let out = apply_rules(
            &mut st,
            device,
            &name,
            sample,
            processes,
            mem_total,
            temp_slowdown_c,
        );
        self.devices.insert(device.clone(), st);
        self.ticks = self.ticks + 1;
        proof {
            law_events_are_honest(
                old(self).device(device@),
                device@,
                old(self).short_name(device@),
                *sample,
                proc_views(processes@),
                mem_total,
                temp_slowdown_c,
            );
        }
        out
    }
}

} // verus!
