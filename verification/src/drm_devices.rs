//! The devices of the Linux drivers, and what their processes use of them.
//!
//! Utilization comes of counters that only grow: it is what was added between two readings. A mark
//! keeps the last reading of each process on each device.

use vstd::prelude::*;
use crate::backend::BackendError;
use crate::backend::is_not_found;
use crate::by_id::ById;
use crate::drm::{CardFiles, CardView, Mark};
use crate::drm::{card_views, cards_in_order, comm_text, cycles_rate, engine_rate, least, numbered, process_hint_text, reads, slot_name, uevent_value};
use crate::drm::{law_utilization_is_a_share, law_utilization_is_busy_ticks_over_ticks, law_utilization_is_busy_time_over_wall_time};
use crate::drm::{cycles_util_pct, engine_util_pct, fdinfo_process_hint, first_hwmon, order_cards, pci_slot_name, reads_as, uevent_field};
use crate::fdinfo::{FdinfoDrm, FdinfoView, PidFiles, PidFilesView};
use crate::fdinfo::{comm_from, fdinfo_view, is_busy, pid_views, scaled, use_of};
use crate::fdinfo::{device_clients, kib_to_bytes, name_of};
use crate::lists::filter_map;
use crate::lists::lemma_filter_map_step;
use crate::model::{DeviceId, MilliPct, ProcView, ProcessKind, ProcessSample};
use crate::model::{pids_of, proc_views, text_view};
use crate::pid_table::PidTable;
use crate::pid_table::{lemma_rising_determined, rising};
use crate::text::is_text;

verus! {

/// The kernel driver of a device. Each has its own counters.
#[derive(Clone, Copy, Debug, PartialEq, Eq, Structural)]
pub enum Driver {
    Amdgpu,
    I915,
    Xe,
}

/// Whose devices a backend looks for.
#[derive(Clone, Copy, Debug, PartialEq, Eq, Structural)]
pub enum Family {
    Amd,
    Intel,
}

impl Driver {
    /// The counter that utilization comes of. Two drivers count nanoseconds, against wall time;
    /// the third counts ticks, against the ticks that elapsed.
    pub open spec fn reading(self, f: FdinfoView, ts_ms: u64) -> Option<Mark> {
        match self {
            Driver::Amdgpu => at_time(f.gfx_ns, ts_ms),
            Driver::I915 => at_time(f.render_ns, ts_ms),
            Driver::Xe => match (f.rcs_cycles, f.rcs_total_cycles) {
                (Some(c), Some(t)) => Some(Mark { count: c, base: t }),
                _ => None,
            },
        }
    }

    /// Utilization between two readings.
    pub open spec fn rate(self, prev: Mark, now: Mark) -> Option<MilliPct> {
        match self {
            Driver::Xe => cycles_rate(prev, now),
            _ => engine_rate(prev, now),
        }
    }

    /// What a client does.
    pub open spec fn kind_of(self, f: FdinfoView) -> ProcessKind {
        match self {
            Driver::Amdgpu => if is_busy(f.compute_ns) {
                ProcessKind::Compute
            } else {
                ProcessKind::Graphics
            },
            _ => f.intel_kind(),
        }
    }

    /// Device memory of a client.
    pub open spec fn mem_of(self, f: FdinfoView) -> Option<u64> {
        match self {
            Driver::Amdgpu => match f.vram_kib {
                Some(kib) => scaled(Some(kib as nat), 1024),
                None => None,
            },
            _ => f.local_mem(),
        }
    }

    fn read(self, f: &FdinfoDrm, ts_ms: u64) -> (r: Option<Mark>)
        ensures
            r == self.reading(f@, ts_ms),
    {
        match self {
            Driver::Amdgpu => match f.gfx_ns {
                Some(ns) => Some(Mark { count: ns, base: ts_ms }),
                None => None,
            },
            Driver::I915 => match f.render_ns {
                Some(ns) => Some(Mark { count: ns, base: ts_ms }),
                None => None,
            },
            Driver::Xe => match (f.rcs_cycles, f.rcs_total_cycles) {
                (Some(c), Some(t)) => Some(Mark { count: c, base: t }),
                _ => None,
            },
        }
    }

    fn util(self, prev: Mark, now: Mark) -> (r: Option<MilliPct>)
        ensures
            r == self.rate(prev, now),
    {
        match self {
            Driver::Xe => cycles_util_pct(prev.count, prev.base, now.count, now.base),
            _ => engine_util_pct(prev.count, prev.base, now.count, now.base),
        }
    }

    fn kind(self, f: &FdinfoDrm) -> (r: ProcessKind)
        ensures
            r == self.kind_of(f@),
    {
        match self {
            Driver::Amdgpu => match f.compute_ns {
                Some(ns) => if ns > 0 {
                    ProcessKind::Compute
                } else {
                    ProcessKind::Graphics
                },
                None => ProcessKind::Graphics,
            },
            _ => f.kind(),
        }
    }

    fn mem_bytes(self, f: &FdinfoDrm) -> (r: Option<u64>)
        ensures
            r == self.mem_of(f@),
    {
        match self {
            Driver::Amdgpu => match f.vram_kib {
                Some(kib) => kib_to_bytes(kib),
                None => None,
            },
            _ => f.local_mem_bytes(),
        }
    }
}

/// A counter of nanoseconds, read at a time.
pub open spec fn at_time(ns: Option<u64>, ts_ms: u64) -> Option<Mark> {
    match ns {
        Some(n) => Some(Mark { count: n, base: ts_ms }),
        None => None,
    }
}

/// A device that was found.
pub struct DrmDevice {
    pub id: DeviceId,
    pub driver: Driver,
    /// The name of its entry in the directory of cards.
    pub card: String,
    /// The name of its directory of sensors, where it has one.
    pub hwmon: Option<String>,
}

#[verifier::ext_equal]
pub struct DrmDeviceView {
    pub id: Seq<char>,
    pub driver: Driver,
    pub card: Seq<char>,
    pub hwmon: Option<Seq<char>>,
}

impl View for DrmDevice {
    type V = DrmDeviceView;

    open spec fn view(&self) -> DrmDeviceView {
        DrmDeviceView {
            id: self.id@,
            driver: self.driver,
            card: self.card@,
            hwmon: text_view(self.hwmon),
        }
    }
}

pub open spec fn device_views(v: Seq<DrmDevice>) -> Seq<DrmDeviceView> {
    Seq::new(v.len(), |i: int| v[i]@)
}

/// The driver of a card, where the card is one of the family's and its driver is known.
pub open spec fn driver_of(family: Family, card: CardView) -> Option<Driver> {
    match family {
        Family::Amd => if reads(card.vendor, "0x1002"@) {
            Some(Driver::Amdgpu)
        } else {
            None
        },
        Family::Intel => if !reads(card.vendor, "0x8086"@) {
            None
        } else {
            match uevent_value(card.uevent, "DRIVER="@) {
                Some(d) => if d == "i915"@ {
                    Some(Driver::I915)
                } else if d == "xe"@ {
                    Some(Driver::Xe)
                } else {
                    None
                },
                None => None,
            }
        },
    }
}

fn card_driver(family: Family, card: &CardFiles) -> (r: Option<Driver>)
    ensures
        r == driver_of(family, card@),
{
    match family {
        Family::Amd => if reads_as(&card.vendor, "0x1002") {
            Some(Driver::Amdgpu)
        } else {
            None
        },
        Family::Intel => {
            if !reads_as(&card.vendor, "0x8086") {
                return None;
            }
            match uevent_field(&card.uevent, "DRIVER=") {
                Some(d) => if is_text(d.as_slice(), "i915") {
                    Some(Driver::I915)
                } else if is_text(d.as_slice(), "xe") {
                    Some(Driver::Xe)
                } else {
                    None
                },
                None => None,
            }
        },
    }
}

/// The device of a card. A card without a PCI address has no identity, and is none.
pub open spec fn device_of(family: Family) -> spec_fn(CardView) -> Option<DrmDeviceView> {
    |card: CardView|
        match driver_of(family, card) {
            Some(driver) => match slot_name(card.uevent) {
                Some(id) => Some(
                    DrmDeviceView { id, driver, card: card.name, hwmon: least(card.hwmon) },
                ),
                None => None,
            },
            None => None,
        }
}

/// The family's devices among the cards, in the order of the cards' numbers.
pub open spec fn found(family: Family, cards: Seq<CardView>) -> Seq<DrmDeviceView> {
    filter_map(cards_in_order(cards), device_of(family))
}

/// Looks for the family's devices among the cards.
pub fn find_devices(family: Family, cards: &Vec<CardFiles>) -> (v: Vec<DrmDevice>)
    ensures
        device_views(v@) == found(family, card_views(cards@)),
{
    let order = order_cards(cards);
    let ghost sorted = cards_in_order(card_views(cards@));
    let ghost rule = device_of(family);
    let mut v: Vec<DrmDevice> = Vec::new();
    let mut i: usize = 0;
    assert(device_views(v@) =~= filter_map(sorted.take(0), rule));
    while i < order.len()
        invariant
            i <= order.len(),
            order@ == numbered(card_views(cards@)),
            forall|k: int| 0 <= k < order@.len() ==> (#[trigger] order@[k]).1 < cards@.len(),
            sorted == cards_in_order(card_views(cards@)),
            rule == device_of(family),
            device_views(v@) == filter_map(sorted.take(i as int), rule),
        decreases order.len() - i,
    {
        let card = &cards[order[i].1];
        proof {
            lemma_filter_map_step(sorted, rule, i as int);
            assert(sorted[i as int] == card@);
        }
        let ghost before = v@;
        if let Some(driver) = card_driver(family, card) {
            if let Some(id) = pci_slot_name(&card.uevent) {
                let d = DrmDevice {
                    id: DeviceId(id),
                    driver,
                    card: card.name.clone(),
                    hwmon: first_hwmon(&card.hwmon),
                };
                let ghost dv = d@;
                v.push(d);
                assert(device_views(v@) =~= device_views(before).push(dv));
            }
        }
        i = i + 1;
    }
    assert(sorted.take(i as int) =~= sorted);
    v
}

/// The first device with the identity, from `i` on.
pub open spec fn device_from(devs: Seq<DrmDeviceView>, id: Seq<char>, i: int) -> Option<
    DrmDeviceView,
>
    decreases devs.len() - i,
{
    if i < 0 || i >= devs.len() {
        None
    } else if devs[i].id == id {
        Some(devs[i])
    } else {
        device_from(devs, id, i + 1)
    }
}

/// The last reading of each process on each device.
pub struct Watermarks {
    marks: ById<PidTable<Mark>>,
}

impl Watermarks {
    pub closed spec fn wf(self) -> bool {
        self.marks.wf() && forall|id: Seq<char>|
            (#[trigger] self.marks.at(id)) is Some ==> self.marks.at(id)->0.wf()
    }

    /// The mark of process `pid` on device `id`.
    pub closed spec fn at(self, id: Seq<char>, pid: u32) -> Option<Mark> {
        match self.marks.at(id) {
            Some(t) => t.at(pid),
            None => None,
        }
    }

    pub fn new() -> (r: Self)
        ensures
            r.wf(),
            forall|id: Seq<char>, pid: u32| #[trigger] r.at(id, pid) is None,
    {
        Watermarks { marks: ById::new() }
    }

    /// Takes out the marks of a device.
    fn take(&mut self, id: &DeviceId) -> (t: PidTable<Mark>)
        requires
            old(self).wf(),
        ensures
            final(self).wf(),
            t.wf(),
            forall|pid: u32| #[trigger] t.at(pid) == old(self).at(id@, pid),
            forall|d: Seq<char>, pid: u32|
                d != id@ ==> #[trigger] final(self).at(d, pid) == old(self).at(d, pid),
    {
        match self.marks.index_of(id) {
            Some(i) => self.marks.replace_at(i, PidTable::new()),
            None => PidTable::new(),
        }
    }

    /// Sets the marks of a device.
    fn put(&mut self, id: &DeviceId, t: PidTable<Mark>)
        requires
            old(self).wf(),
            t.wf(),
        ensures
            final(self).wf(),
            forall|pid: u32| #[trigger] final(self).at(id@, pid) == t.at(pid),
            forall|d: Seq<char>, pid: u32|
                d != id@ ==> #[trigger] final(self).at(d, pid) == old(self).at(d, pid),
    {
        self.marks.insert(id.clone(), t);
    }
}

/// The mark after a scan: the new reading, or else the old mark.
pub open spec fn mark_after(reading: Option<Mark>, before: Option<Mark>) -> Option<Mark> {
    match reading {
        Some(m) => Some(m),
        None => before,
    }
}

/// Utilization since the mark. Without a mark or a reading there is none.
pub open spec fn util_since(
    driver: Driver,
    before: Option<Mark>,
    reading: Option<Mark>,
) -> Option<MilliPct> {
    match (before, reading) {
        (Some(prev), Some(now)) => driver.rate(prev, now),
        _ => None,
    }
}

/// A process with the use `f` of a device.
pub open spec fn process_of(
    driver: Driver,
    ps: Seq<PidFilesView>,
    pid: u32,
    f: FdinfoView,
    ts_ms: u64,
    before: Option<Mark>,
) -> ProcView {
    ProcView {
        pid,
        name: comm_text(comm_from(ps, pid, 0), pid),
        kind: driver.kind_of(f),
        mem_bytes: driver.mem_of(f),
        util_pct: util_since(driver, before, driver.reading(f, ts_ms)),
        cpu_pct: None,
        container: None,
    }
}

/// The processes of device `d`, by rising id: those that have a client of it, and no others.
/// `before` gives the marks that they had.
pub open spec fn lists_processes(
    out: Seq<ProcView>,
    d: DrmDeviceView,
    ps: Seq<PidFilesView>,
    ts_ms: u64,
    before: spec_fn(u32) -> Option<Mark>,
) -> bool {
    &&& rising(pids_of(out))
    &&& forall|pid: u32|
        use_of(ps, d.id, pid) is Some <==> #[trigger] pids_of(out).contains(pid)
    &&& forall|i: int|
        0 <= i < out.len() ==> #[trigger] out[i] == process_of(
            d.driver,
            ps,
            out[i].pid,
            use_of(ps, d.id, out[i].pid)->0,
            ts_ms,
            before(out[i].pid),
        )
}

/// The mark of process `pid` on device `d` after a scan: a process without a client has none.
pub open spec fn scanned_mark(
    d: DrmDeviceView,
    ps: Seq<PidFilesView>,
    ts_ms: u64,
    pid: u32,
    before: Option<Mark>,
) -> Option<Mark> {
    match use_of(ps, d.id, pid) {
        Some(f) => mark_after(d.driver.reading(f, ts_ms), before),
        None => None,
    }
}

/// Scans the processes of a device.
fn scan(
    d: &DrmDevice,
    ps: &Vec<PidFiles>,
    ts_ms: u64,
    before: &PidTable<Mark>,
) -> (r: (Vec<ProcessSample>, PidTable<Mark>))
    requires
        before.wf(),
    ensures
        lists_processes(
            proc_views(r.0@),
            d@,
            pid_views(ps@),
            ts_ms,
            |pid: u32| before.at(pid),
        ),
        r.1.wf(),
        forall|pid: u32| #[trigger]
            r.1.at(pid) == scanned_mark(d@, pid_views(ps@), ts_ms, pid, before.at(pid)),
{
    let table = device_clients(ps, &d.id.0);
    let ghost pids = table.pids();
    let ghost views = pid_views(ps@);
    let mut out: Vec<ProcessSample> = Vec::new();
    let mut marks: PidTable<Mark> = PidTable::new();
    proof {
        table.lemma_at();
    }
    let mut i: usize = 0;
    assert(pids_of(proc_views(out@)) =~= pids.take(0));
    while i < table.len()
        invariant
            i <= pids.len(),
            pids == table.pids(),
            table.wf(),
            before.wf(),
            marks.wf(),
            views == pid_views(ps@),
            forall|pid: u32| (#[trigger] table.at(pid)) is Some <==> pids.contains(pid),
            forall|pid: u32| fdinfo_view(#[trigger] table.at(pid)) == use_of(views, d@.id, pid),
            pids_of(proc_views(out@)) == pids.take(i as int),
            forall|k: int|
                0 <= k < out@.len() ==> (#[trigger] proc_views(out@)[k]) == process_of(
                    d.driver,
                    views,
                    pids[k],
                    use_of(views, d@.id, pids[k])->0,
                    ts_ms,
                    before.at(pids[k]),
                ),
            forall|pid: u32| #[trigger]
                marks.at(pid) == (if pids.take(i as int).contains(pid) {
                    scanned_mark(d@, views, ts_ms, pid, before.at(pid))
                } else {
                    None
                }),
        decreases pids.len() - i,
    {
        let pid: u32 = table.pid_at(i);
        let f: &FdinfoDrm = table.value_at(i);
        assert(fdinfo_view(table.at(pid)) == Some(f@));
        let prev: Option<Mark> = match before.get(pid) {
            Some(m) => Some(*m),
            None => None,
        };
        let now: Option<Mark> = d.driver.read(f, ts_ms);
        let util_pct: Option<MilliPct> = match (prev, now) {
            (Some(p), Some(n)) => d.driver.util(p, n),
            _ => None,
        };
        let kept: Option<Mark> = match now {
            Some(n) => Some(n),
            None => prev,
        };
        assert(!pids.take(i as int).contains(pid));
        assert(pids.take(i + 1) =~= pids.take(i as int).push(pid));
        let ghost longer = pids.take(i + 1);
        assert(longer.contains(pid)) by {
            assert(longer[i as int] == pid);
        }
        assert forall|p: u32| p != pid implies longer.contains(p) == pids.take(i as int).contains(
            p,
        ) by {
            if pids.take(i as int).contains(p) {
                let k = choose|k: int| 0 <= k < i && pids.take(i as int)[k] == p;
                assert(longer[k] == p);
            }
            if longer.contains(p) {
                let k = choose|k: int| 0 <= k < longer.len() && longer[k] == p;
                assert(pids.take(i as int)[k] == p);
            }
        }
        if let Some(m) = kept {
            let _ = marks.insert(pid, m);
        }
        let p = ProcessSample {
            pid,
            name: name_of(ps, pid),
            kind: d.driver.kind(f),
            mem_bytes: d.driver.mem_bytes(f),
            util_pct,
            cpu_pct: None,
            container: None,
        };
        let ghost listed = out@;
        let ghost pv = p@;
        out.push(p);
        assert(proc_views(out@) =~= proc_views(listed).push(pv));
        assert(pids_of(proc_views(out@)) =~= pids.take(i + 1));
        i = i + 1;
    }
    assert(pids.take(i as int) =~= pids);
    proof {
        assert forall|pid: u32|
            use_of(views, d@.id, pid) is Some <==> #[trigger] pids_of(proc_views(out@)).contains(
                pid,
            ) by {
            assert(fdinfo_view(table.at(pid)) == use_of(views, d@.id, pid));
        }
    }
    (out, marks)
}

/// What the backends of the Linux drivers keep: their devices, the marks, and why their lists of
/// processes may be incomplete.
pub struct DrmDevices {
    devs: Vec<DrmDevice>,
    marks: Watermarks,
    hint: Option<String>,
}

impl DrmDevices {
    pub closed spec fn wf(self) -> bool {
        self.marks.wf()
    }

    /// The devices.
    pub closed spec fn devs(self) -> Seq<DrmDeviceView> {
        device_views(self.devs@)
    }

    /// The mark of process `pid` on device `id`.
    pub closed spec fn mark(self, id: Seq<char>, pid: u32) -> Option<Mark> {
        self.marks.at(id, pid)
    }

    pub closed spec fn hint(self) -> Option<Seq<char>> {
        text_view(self.hint)
    }

    /// The device with an identity: of several, the first.
    pub open spec fn device_at(self, id: Seq<char>) -> Option<DrmDeviceView> {
        device_from(self.devs(), id, 0)
    }

    /// The family's devices among the cards; `None` where there are none.
    pub fn new(family: Family, cards: &Vec<CardFiles>, status: &Option<String>) -> (r: Option<Self>)
        ensures
            match r {
                Some(b) => {
                    &&& b.wf()
                    &&& found(family, card_views(cards@)).len() > 0
                    &&& b.devs() == found(family, card_views(cards@))
                    &&& b.hint() == process_hint_text(text_view(*status))
                    &&& forall|id: Seq<char>, pid: u32| #[trigger] b.mark(id, pid) is None
                },
                None => found(family, card_views(cards@)).len() == 0,
            },
    {
        let devs = find_devices(family, cards);
        assert(device_views(devs@).len() == devs@.len());
        if devs.len() == 0 {
            return None;
        }
        Some(
            DrmDevices { devs, marks: Watermarks::new(), hint: fdinfo_process_hint(status) },
        )
    }

    /// The identities of the devices.
    pub fn devices(&self) -> (v: Vec<DeviceId>)
        ensures
            v@.len() == self.devs().len(),
            forall|i: int| 0 <= i < v@.len() ==> (#[trigger] v@[i])@ == self.devs()[i].id,
    {
        let mut v: Vec<DeviceId> = Vec::new();
        let mut i: usize = 0;
        while i < self.devs.len()
            invariant
                i <= self.devs.len(),
                v@.len() == i,
                forall|k: int| 0 <= k < i ==> (#[trigger] v@[k])@ == self.devs()[k].id,
            decreases self.devs.len() - i,
        {
            v.push(self.devs[i].id.clone());
            i = i + 1;
        }
        v
    }

    pub fn device(&self, dev: &DeviceId) -> (r: Result<&DrmDevice, BackendError>)
        ensures
            match r {
                Ok(d) => self.device_at(dev@) == Some(d@),
                Err(e) => self.device_at(dev@) is None && is_not_found(e, dev@),
            },
    {
        let mut i: usize = 0;
        while i < self.devs.len()
            invariant
                i <= self.devs.len(),
                device_from(self.devs(), dev@, i as int) == self.device_at(dev@),
            decreases self.devs.len() - i,
        {
            assert(self.devs()[i as int] == self.devs@[i as int]@);
            if self.devs[i].id.0 == dev.0 {
                return Ok(&self.devs[i]);
            }
            i = i + 1;
        }
        Err(BackendError::DeviceNotFound(dev.clone()))
    }

    pub fn process_hint(&self) -> (r: Option<String>)
        ensures
            text_view(r) == self.hint(),
    {
        match &self.hint {
            Some(h) => Some(h.clone()),
            None => None,
        }
    }

    /// Scans the processes of a device.
    pub fn refresh_processes(&mut self, dev: &DeviceId, ts_ms: u64, ps: &Vec<PidFiles>) -> (r:
        Result<Vec<ProcessSample>, BackendError>)
        requires
            old(self).wf(),
        ensures
            final(self).wf(),
            final(self).devs() == old(self).devs(),
            final(self).hint() == old(self).hint(),
            forall|d: Seq<char>, pid: u32|
                d != dev@ ==> #[trigger] final(self).mark(d, pid) == old(self).mark(d, pid),
            match r {
                Ok(v) => {
                    &&& old(self).device_at(dev@) is Some
                    &&& lists_processes(
                        proc_views(v@),
                        old(self).device_at(dev@)->0,
                        pid_views(ps@),
                        ts_ms,
                        |pid: u32| old(self).mark(dev@, pid),
                    )
                    &&& forall|pid: u32| #[trigger]
                        final(self).mark(dev@, pid) == scanned_mark(
                            old(self).device_at(dev@)->0,
                            pid_views(ps@),
                            ts_ms,
                            pid,
                            old(self).mark(dev@, pid),
                        )
                },
                Err(e) => {
                    &&& old(self).device_at(dev@) is None
                    &&& is_not_found(e, dev@)
                    &&& forall|pid: u32| #[trigger]
                        final(self).mark(dev@, pid) == old(self).mark(dev@, pid)
                },
            },
    {
        let mut marks = Watermarks::new();
        std::mem::swap(&mut marks, &mut self.marks);
        let before = marks.take(dev);
        let scanned = match self.device(dev) {
            Ok(d) => Ok(scan(d, ps, ts_ms, &before)),
            Err(e) => Err(e),
        };
        match scanned {
            Ok((out, after)) => {
                marks.put(dev, after);
                self.marks = marks;
                proof {
                    assert((|pid: u32| before.at(pid)) =~= (|pid: u32| old(self).mark(dev@, pid)));
                }
                Ok(out)
            },
            Err(e) => {
                marks.put(dev, before);
                self.marks = marks;
                Err(e)
            },
        }
    }
}

/// What the files say determines the list of processes, its order included.
pub proof fn law_the_list_is_determined(
    a: Seq<ProcView>,
    b: Seq<ProcView>,
    d: DrmDeviceView,
    ps: Seq<PidFilesView>,
    ts_ms: u64,
    before: spec_fn(u32) -> Option<Mark>,
)
    requires
        lists_processes(a, d, ps, ts_ms, before),
        lists_processes(b, d, ps, ts_ms, before),
    ensures
        a == b,
{
    assert forall|p: u32| pids_of(a).contains(p) <==> #[trigger] pids_of(b).contains(p) by {
        assert(pids_of(a).contains(p) <==> use_of(ps, d.id, p) is Some);
    }
    lemma_rising_determined(pids_of(a), pids_of(b));
    assert(a.len() == pids_of(a).len() && b.len() == pids_of(b).len());
    assert forall|i: int| 0 <= i < a.len() implies a[i] == b[i] by {
        assert(pids_of(a)[i] == pids_of(b)[i]);
    }
    assert(a =~= b);
}

/// A process that has no mark, as at its first sighting, shows no utilization. One that was seen
/// before never shows more than the whole.
pub proof fn law_utilization_takes_two_sightings(
    out: Seq<ProcView>,
    d: DrmDeviceView,
    ps: Seq<PidFilesView>,
    ts_ms: u64,
    before: spec_fn(u32) -> Option<Mark>,
    i: int,
)
    requires
        lists_processes(out, d, ps, ts_ms, before),
        0 <= i < out.len(),
    ensures
        before(out[i].pid) is None ==> out[i].util_pct is None,
        out[i].util_pct matches Some(p) ==> 0 <= p <= 100_000,
{
    let f = use_of(ps, d.id, out[i].pid)->0;
    assert(out[i] == process_of(d.driver, ps, out[i].pid, f, ts_ms, before(out[i].pid)));
    if before(out[i].pid) is Some && d.driver.reading(f, ts_ms) is Some {
        law_utilization_is_a_share(before(out[i].pid)->0, d.driver.reading(f, ts_ms)->0);
    }
}

/// A process that lost its last client of a device starts over: when its id comes back, its first
/// sighting has no mark to be measured against.
pub proof fn law_a_vanished_process_starts_over(
    d: DrmDeviceView,
    ps: Seq<PidFilesView>,
    ts_ms: u64,
    pid: u32,
    before: Option<Mark>,
)
    requires
        use_of(ps, d.id, pid) is None,
    ensures
        scanned_mark(d, ps, ts_ms, pid, before) is None,
        forall|later: Seq<PidFilesView>, ts: u64|
            use_of(later, d.id, pid) is Some ==> (#[trigger] process_of(
                d.driver,
                later,
                pid,
                use_of(later, d.id, pid)->0,
                ts,
                scanned_mark(d, ps, ts_ms, pid, before),
            )).util_pct is None,
{
}

/// Between two looks that follow one another, a process shows the busy time of the graphics engine
/// (amdgpu) or of the render engine (i915) over the wall time, and the busy ticks of the render
/// engine over the ticks that elapsed (xe), to the thousandth of a percent below, whatever was
/// remembered before the first look.
pub proof fn law_utilization_is_measured_between_two_looks(
    d: DrmDeviceView,
    first: Seq<PidFilesView>,
    first_ms: u64,
    second: Seq<PidFilesView>,
    second_ms: u64,
    pid: u32,
    before: Option<Mark>,
)
    requires
        use_of(first, d.id, pid) is Some,
        use_of(second, d.id, pid) is Some,
    ensures
        ({
            let a = use_of(first, d.id, pid)->0;
            let b = use_of(second, d.id, pid)->0;
            let shown = process_of(
                d.driver,
                second,
                pid,
                b,
                second_ms,
                scanned_mark(d, first, first_ms, pid, before),
            ).util_pct;
            match d.driver {
                Driver::Amdgpu => a.gfx_ns is Some && b.gfx_ns is Some ==> shows_share(
                    shown,
                    b.gfx_ns->0 - a.gfx_ns->0,
                    (second_ms - first_ms) * 1_000_000,
                ),
                Driver::I915 => a.render_ns is Some && b.render_ns is Some ==> shows_share(
                    shown,
                    b.render_ns->0 - a.render_ns->0,
                    (second_ms - first_ms) * 1_000_000,
                ),
                Driver::Xe => a.rcs_cycles is Some && a.rcs_total_cycles is Some && b.rcs_cycles
                    is Some && b.rcs_total_cycles is Some ==> shows_share(
                    shown,
                    b.rcs_cycles->0 - a.rcs_cycles->0,
                    b.rcs_total_cycles->0 - a.rcs_total_cycles->0,
                ),
            }
        }),
{
    let a = use_of(first, d.id, pid)->0;
    let b = use_of(second, d.id, pid)->0;
    if let (Some(prev), Some(now)) = (
        d.driver.reading(a, first_ms),
        d.driver.reading(b, second_ms),
    ) {
        law_utilization_is_busy_time_over_wall_time(prev, now);
        law_utilization_is_busy_ticks_over_ticks(prev, now);
    }
}

/// What is shown is `busy` over `elapsed`, and nothing where time did not go on or the counter went
/// back.
pub open spec fn shows_share(shown: Option<MilliPct>, busy: int, elapsed: int) -> bool {
    match shown {
        Some(p) => {
            &&& elapsed > 0 && busy >= 0
            &&& busy >= elapsed ==> p == 100_000
            &&& busy <= elapsed ==> p * elapsed <= busy * 100_000 < (p + 1) * elapsed
        },
        None => elapsed <= 0 || busy < 0,
    }
}

/// A process shows its device memory in bytes: of amdgpu 1024 to the KiB, of the others what it has
/// in all or else what is resident. It is of compute, or of graphics, as its engines were busy.
pub proof fn law_a_process_shows_what_its_counters_say(
    driver: Driver,
    ps: Seq<PidFilesView>,
    pid: u32,
    f: FdinfoView,
    ts_ms: u64,
    before: Option<Mark>,
)
    ensures
        ({
            let p = process_of(driver, ps, pid, f, ts_ms, before);
            &&& p.pid == pid
            &&& driver is Amdgpu ==> {
                &&& f.vram_kib is None ==> p.mem_bytes is None
                &&& f.vram_kib is Some && p.mem_bytes is Some ==> p.mem_bytes->0 == f.vram_kib->0
                    * 1024
                &&& f.vram_kib is Some && p.mem_bytes is None ==> f.vram_kib->0 * 1024 > u64::MAX
                &&& p.kind is Compute <==> f.compute_ns is Some && f.compute_ns->0 > 0
                &&& p.kind is Graphics <==> !(p.kind is Compute)
            }
            &&& !(driver is Amdgpu) ==> {
                &&& f.total_local_bytes is Some ==> p.mem_bytes == f.total_local_bytes
                &&& f.total_local_bytes is None ==> p.mem_bytes == f.resident_local_bytes
                &&& p.kind is Graphics <==> (f.video_ns is Some && f.video_ns->0 > 0) || (f.venh_ns
                    is Some && f.venh_ns->0 > 0) || (f.vcs_cycles is Some && f.vcs_cycles->0 > 0)
                    || (f.vecs_cycles is Some && f.vecs_cycles->0 > 0)
                &&& p.kind is Compute <==> !(p.kind is Graphics) && ((f.compute_ns is Some
                    && f.compute_ns->0 > 0) || (f.ccs_cycles is Some && f.ccs_cycles->0 > 0))
                &&& p.kind is Unknown <==> !(p.kind is Graphics) && !(p.kind is Compute)
            }
        }),
{
}

/// A list of processes has each process with a client of the device once, and no other, in the order
/// of their ids.
pub proof fn law_the_list_has_every_client_once(
    out: Seq<ProcView>,
    d: DrmDeviceView,
    ps: Seq<PidFilesView>,
    ts_ms: u64,
    before: spec_fn(u32) -> Option<Mark>,
    pid: u32,
)
    requires
        lists_processes(out, d, ps, ts_ms, before),
    ensures
        forall|i: int, j: int|
            0 <= i < j < out.len() ==> (#[trigger] out[i]).pid < (#[trigger] out[j]).pid,
        use_of(ps, d.id, pid) is Some <==> exists|i: int|
            0 <= i < out.len() && (#[trigger] out[i]).pid == pid,
{
    assert forall|i: int, j: int| 0 <= i < j < out.len() implies (#[trigger] out[i]).pid < (
    #[trigger] out[j]).pid by {
        assert(pids_of(out)[i] == out[i].pid && pids_of(out)[j] == out[j].pid);
    }
    if pids_of(out).contains(pid) {
        let i = choose|i: int| 0 <= i < pids_of(out).len() && pids_of(out)[i] == pid;
        assert(out[i].pid == pid);
    }
    if exists|i: int| 0 <= i < out.len() && (#[trigger] out[i]).pid == pid {
        let i = choose|i: int| 0 <= i < out.len() && (#[trigger] out[i]).pid == pid;
        assert(pids_of(out)[i] == pid);
    }
}

/// A card is a device of AMD where its vendor is 0x1002, and one of Intel where its vendor is 0x8086
/// and its driver i915 or xe; and only one that names its PCI address, by which it is known.
pub proof fn law_a_device_is_known_by_its_card(card: CardView)
    ensures
        ({
            let driver = uevent_value(card.uevent, "DRIVER="@);
            let amd = device_of(Family::Amd)(card);
            let intel = device_of(Family::Intel)(card);
            &&& amd is Some <==> reads(card.vendor, "0x1002"@) && slot_name(card.uevent) is Some
            &&& intel is Some <==> reads(card.vendor, "0x8086"@) && (driver == Some("i915"@)
                || driver == Some("xe"@)) && slot_name(card.uevent) is Some
            &&& amd matches Some(d) ==> d.driver is Amdgpu && Some(d.id) == slot_name(card.uevent)
                && d.card == card.name
            &&& intel matches Some(d) ==> (d.driver is Xe <==> driver == Some("xe"@)) && (d.driver
                is I915 <==> driver == Some("i915"@)) && Some(d.id) == slot_name(card.uevent)
                && d.card == card.name
        }),
{
    reveal_strlit("i915");
    reveal_strlit("xe");
    assert("i915"@.len() != "xe"@.len());
}

/// A device is found by its identity, and of several with one identity the first is.
pub proof fn law_the_first_device_with_an_identity_is_found(
    devs: Seq<DrmDeviceView>,
    id: Seq<char>,
    i: int,
)
    requires
        0 <= i <= devs.len(),
        forall|j: int| 0 <= j < i ==> (#[trigger] devs[j]).id != id,
    ensures
        i < devs.len() && devs[i].id == id ==> device_from(devs, id, 0) == Some(devs[i]),
        i == devs.len() ==> device_from(devs, id, 0) is None,
{
    lemma_device_from(devs, id, 0, i);
}

proof fn lemma_device_from(devs: Seq<DrmDeviceView>, id: Seq<char>, k: int, i: int)
    requires
        0 <= k <= i <= devs.len(),
        forall|j: int| 0 <= j < i ==> (#[trigger] devs[j]).id != id,
    ensures
        i < devs.len() && devs[i].id == id ==> device_from(devs, id, k) == Some(devs[i]),
        i == devs.len() ==> device_from(devs, id, k) is None,
    decreases i - k,
{
    if k < i {
        assert(devs[k].id != id);
        lemma_device_from(devs, id, k + 1, i);
    }
}

} // verus!
