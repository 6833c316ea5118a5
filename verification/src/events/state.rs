//! What the event engine remembers of one device, and the mathematical model of it.

use std::collections::VecDeque;
use vstd::prelude::*;
use crate::model::{MilliPct, ThrottleReasons};

verus! {

/// The metrics of the previous sample that later samples are held against.
#[derive(Clone, Copy)]
pub struct PrevSample {
    pub util_pct: Option<MilliPct>,
    pub sm_clock_mhz: Option<u32>,
    pub throttle: Option<ThrottleReasons>,
}

/// A process of the last list, as far as later lists are held against it.
pub struct SeenProcess {
    pub pid: u32,
    pub name: String,
    pub mem_bytes: Option<u64>,
    pub util_pct: Option<MilliPct>,
}

pub struct SeenView {
    pub pid: u32,
    pub name: Seq<char>,
    pub mem_bytes: Option<u64>,
    pub util_pct: Option<MilliPct>,
}

impl View for SeenProcess {
    type V = SeenView;

    open spec fn view(&self) -> SeenView {
        SeenView {
            pid: self.pid,
            name: self.name@,
            mem_bytes: self.mem_bytes,
            util_pct: self.util_pct,
        }
    }
}

pub open spec fn seen_views(v: Seq<SeenProcess>) -> Seq<SeenView> {
    Seq::new(v.len(), |i: int| v[i]@)
}

/// A process that holds a known amount of device memory.
pub struct Holder {
    pub pid: u32,
    pub name: String,
    pub mem: u64,
}

pub struct HolderView {
    pub pid: u32,
    pub name: Seq<char>,
    pub mem: u64,
}

impl View for Holder {
    type V = HolderView;

    open spec fn view(&self) -> HolderView {
        HolderView { pid: self.pid, name: self.name@, mem: self.mem }
    }
}

pub open spec fn holder_views(v: Seq<Holder>) -> Seq<HolderView> {
    Seq::new(v.len(), |i: int| v[i]@)
}

/// A running mean: the sum of the readings and their number.
pub struct Mean {
    pub sum: i128,
    pub n: u64,
}

pub struct MeanView {
    pub sum: int,
    pub n: nat,
}

impl View for Mean {
    type V = MeanView;

    open spec fn view(&self) -> MeanView {
        MeanView { sum: self.sum as int, n: self.n as nat }
    }
}

impl MeanView {
    /// No reading yet.
    pub open spec fn none() -> MeanView {
        MeanView { sum: 0, n: 0 }
    }

    /// One more reading.
    pub open spec fn with(self, reading: int) -> MeanView {
        MeanView { sum: self.sum + reading, n: self.n + 1 }
    }

    /// The divisor of the mean: the number of readings, at least one.
    pub open spec fn divisor(self) -> nat {
        if self.n == 0 {
            1
        } else {
            self.n
        }
    }
}

impl Mean {
    /// At most `limit` readings were taken, each of 64 bits.
    pub open spec fn within(self, limit: nat) -> bool {
        &&& self.n <= limit
        &&& -(self.n * 0x8000_0000_0000_0000) <= self.sum <= self.n * 0x8000_0000_0000_0000
    }

    pub fn new() -> (r: Self)
        ensures
            r@ == MeanView::none(),
            r.within(0),
    {
        Mean { sum: 0, n: 0 }
    }

    pub fn take(&mut self, reading: MilliPct)
        requires
            old(self).within(u64::MAX as nat),
            old(self).n < u64::MAX,
        ensures
            final(self)@ == old(self)@.with(reading as int),
            forall|limit: nat| #[trigger]
                old(self).within(limit) ==> final(self).within(limit + 1),
    {
        self.sum = self.sum + reading as i128;
        self.n = self.n + 1;
    }

    pub fn divisor(&self) -> (r: u64)
        ensures
            r == self@.divisor(),
            r > 0,
    {
        if self.n == 0 {
            1
        } else {
            self.n
        }
    }
}

/// An idle gap in flight: told (or dropped) only once utilization recovers and the gap's length
/// is known.
pub struct IdleGap {
    pub start_ms: u64,
    /// Utilization just before the drop.
    pub pre_util_pct: MilliPct,
    /// Mean utilization inside the gap.
    pub util: Mean,
    /// The processes that held real memory when the gap opened and have stayed since.
    pub holders: Vec<Holder>,
    /// A hang was told while the gap was open: the gap itself then stays untold.
    pub hang_narrated: bool,
}

pub struct IdleGapView {
    pub start_ms: u64,
    pub pre_util_pct: MilliPct,
    pub util: MeanView,
    pub holders: Seq<HolderView>,
    pub hang_narrated: bool,
}

impl View for IdleGap {
    type V = IdleGapView;

    open spec fn view(&self) -> IdleGapView {
        IdleGapView {
            start_ms: self.start_ms,
            pre_util_pct: self.pre_util_pct,
            util: self.util@,
            holders: holder_views(self.holders@),
            hang_narrated: self.hang_narrated,
        }
    }
}

/// A suspected hang in flight, anchored to the largest quiet holder at its start.
pub struct HangEpisode {
    pub start_ms: u64,
    pub holder: Holder,
    /// Mean device utilization over the episode.
    pub util: Mean,
    /// The event was told: a lasting hang is told once.
    pub fired: bool,
}

pub struct HangView {
    pub start_ms: u64,
    pub holder: HolderView,
    pub util: MeanView,
    pub fired: bool,
}

impl View for HangEpisode {
    type V = HangView;

    open spec fn view(&self) -> HangView {
        HangView {
            start_ms: self.start_ms,
            holder: self.holder@,
            util: self.util@,
            fired: self.fired,
        }
    }
}

/// The assessment in flight of one freshly attached process with much device memory.
pub struct Spillover {
    pub holder: Holder,
    pub start_ms: u64,
    pub util: Mean,
    pub cpu: Mean,
}

pub struct SpilloverView {
    pub holder: HolderView,
    pub start_ms: u64,
    pub util: MeanView,
    pub cpu: MeanView,
}

impl View for Spillover {
    type V = SpilloverView;

    open spec fn view(&self) -> SpilloverView {
        SpilloverView {
            holder: self.holder@,
            start_ms: self.start_ms,
            util: self.util@,
            cpu: self.cpu@,
        }
    }
}

pub open spec fn spillover_views(v: Seq<Spillover>) -> Seq<SpilloverView> {
    Seq::new(v.len(), |i: int| v[i]@)
}

impl Spillover {
    pub open spec fn within(self, limit: nat) -> bool {
        self.util.within(limit) && self.cpu.within(limit)
    }
}

/// All that is remembered of one device.
pub struct DevState {
    pub prev: Option<PrevSample>,
    pub procs: Vec<SeenProcess>,
    pub seen_first_procs: bool,
    pub throttle_since: Option<u64>,
    /// The clock just before throttling began.
    pub pre_throttle_clock: Option<u32>,
    /// Times and sizes of used memory, oldest first.
    pub vram_window: VecDeque<(u64, u64)>,
    pub last_pressure_evt: Option<u64>,
    /// Since when utilization has been at the active level; `None` below it.
    pub active_since: Option<u64>,
    /// Activity was sustained: a trough after it reads as a stall.
    pub idle_eligible: bool,
    pub idle_gap: Option<IdleGap>,
    pub hang: Option<HangEpisode>,
    pub spillovers: Vec<Spillover>,
}

#[verifier::ext_equal]
pub struct DevModel {
    pub prev: Option<PrevSample>,
    pub procs: Seq<SeenView>,
    pub seen_first_procs: bool,
    pub throttle_since: Option<u64>,
    pub pre_throttle_clock: Option<u32>,
    pub vram_window: Seq<(u64, u64)>,
    pub last_pressure_evt: Option<u64>,
    pub active_since: Option<u64>,
    pub idle_eligible: bool,
    pub idle_gap: Option<IdleGapView>,
    pub hang: Option<HangView>,
    pub spillovers: Seq<SpilloverView>,
}

impl DevModel {
    /// A device that was never observed.
    pub open spec fn fresh() -> DevModel {
        DevModel {
            prev: None,
            procs: Seq::empty(),
            seen_first_procs: false,
            throttle_since: None,
            pre_throttle_clock: None,
            vram_window: Seq::empty(),
            last_pressure_evt: None,
            active_since: None,
            idle_eligible: false,
            idle_gap: None,
            hang: None,
            spillovers: Seq::empty(),
        }
    }
}

impl View for DevState {
    type V = DevModel;

    open spec fn view(&self) -> DevModel {
        DevModel {
            prev: self.prev,
            procs: seen_views(self.procs@),
            seen_first_procs: self.seen_first_procs,
            throttle_since: self.throttle_since,
            pre_throttle_clock: self.pre_throttle_clock,
            vram_window: self.vram_window@,
            last_pressure_evt: self.last_pressure_evt,
            active_since: self.active_since,
            idle_eligible: self.idle_eligible,
            idle_gap: match self.idle_gap {
                Some(g) => Some(g@),
                None => None,
            },
            hang: match self.hang {
                Some(h) => Some(h@),
                None => None,
            },
            spillovers: spillover_views(self.spillovers@),
        }
    }
}

impl DevState {
    /// The mean of an open gap holds at most `limit` readings.
    pub open spec fn gap_within(self, limit: nat) -> bool {
        self.idle_gap matches Some(g) ==> g.util.within(limit)
    }

    /// The mean of a suspected hang holds at most `limit` readings.
    pub open spec fn hang_within(self, limit: nat) -> bool {
        self.hang matches Some(h) ==> h.util.within(limit)
    }

    /// The means of the assessments hold at most `limit` readings.
    pub open spec fn spillovers_within(self, limit: nat) -> bool {
        forall|i: int|
            0 <= i < self.spillovers@.len() ==> (#[trigger] self.spillovers@[i]).within(limit)
    }

    /// No running mean holds more than `limit` readings.
    pub open spec fn within(self, limit: nat) -> bool {
        self.gap_within(limit) && self.hang_within(limit) && self.spillovers_within(limit)
    }

    pub fn new() -> (r: Self)
        ensures
            r@ == DevModel::fresh(),
            r.within(0),
    {
        let r = DevState {
            prev: None,
            procs: Vec::new(),
            seen_first_procs: false,
            throttle_since: None,
            pre_throttle_clock: None,
            vram_window: VecDeque::new(),
            last_pressure_evt: None,
            active_since: None,
            idle_eligible: false,
            idle_gap: None,
            hang: None,
            spillovers: Vec::new(),
        };
        assert(r@ =~= DevModel::fresh());
        r
    }
}

} // verus!
