//! The backend of devices of the NVIDIA driver.

use vstd::prelude::*;
use crate::backend::BackendError;
use crate::backend::{is_not_found, is_unavailable};
use crate::model::{DeviceId, DynamicSample, MilliC, MilliPct, ProcessSample, StaticInfo, Vendor};
use crate::model::{pids_of, proc_views, text_view};
use crate::nvidia::DriverModelClass;
use crate::nvidia::{attributed, matched_luid, reasons_of, windows_caveat, windows_hint, wsl_hint};
use crate::nvidia::{attribution, map_throttle, match_luid, windows_process_hint, windows_source_caveat, wsl_process_hint};
use crate::nvidia::processes::{NvmlPidFiles, NvmlProcess, UtilSample};
use crate::nvidia::processes::{device_sums_fit, entries, facts_from, listed_in, lists_linux, lists_windows, newest, percent, samples_view, sighting_after, snap_view};
use crate::nvidia::processes::{list_linux, list_windows, newest_of, to_percent};
use crate::pid_table::PidTable;
use crate::proc_meta::{CpuTracker, Sighting};
use crate::text::{dec, lowercase};
use crate::text::push_dec;
use crate::wddm::adapters::AdapterInfo;
use crate::wddm::backend::PidImage;
use crate::wddm::per_pid::adapter_bytes;
use crate::wddm::per_pid::{fits, size_of, total_of};
use crate::wddm::snapshot::{PdhSnapshot, SnapshotView};
use crate::wddm::sums::Luid;

verus! {

/// A device that the library could open, and its address, where the library tells it.
pub struct NvmlSlot {
    pub index: u32,
    pub bus_id: Option<String>,
}

/// The identity of a device: its address, else its place in the library's enumeration.
pub open spec fn slot_identity(s: NvmlSlot) -> Seq<char> {
    match s.bus_id {
        Some(bus) => lowercase(bus@),
        None => "nvml:"@ + dec(s.index as nat),
    }
}

fn slot_id(s: &NvmlSlot) -> (r: DeviceId)
    ensures
        r@ == slot_identity(*s),
{
    match &s.bus_id {
        Some(bus) => DeviceId(bus.as_str().to_lowercase()),
        None => {
            let mut out: String = String::new();
            out.append("nvml:");
            push_dec(&mut out, s.index as u128);
            assert(out@ =~= "nvml:"@ + dec(s.index as nat));
            DeviceId(out)
        },
    }
}

/// A device: its place in the library's enumeration, its identity, and its adapter on Windows,
/// where one has its address.
pub struct NvmlDevice {
    pub index: u32,
    pub id: DeviceId,
    pub luid: Option<Luid>,
}

#[verifier::ext_equal]
pub struct NvmlDeviceView {
    pub index: u32,
    pub id: Seq<char>,
    pub luid: Option<Luid>,
}

impl View for NvmlDevice {
    type V = NvmlDeviceView;

    open spec fn view(&self) -> NvmlDeviceView {
        NvmlDeviceView { index: self.index, id: self.id@, luid: self.luid }
    }
}

/// The devices of the slots.
pub open spec fn devices_of(slots: Seq<NvmlSlot>, adapters: Seq<AdapterInfo>) -> Seq<
    NvmlDeviceView,
> {
    Seq::new(
        slots.len(),
        |i: int|
            NvmlDeviceView {
                index: slots[i].index,
                id: slot_identity(slots[i]),
                luid: matched_luid(slot_identity(slots[i]), adapters),
            },
    )
}

/// The first device with the identity, from `i` on.
pub open spec fn device_from(devs: Seq<NvmlDeviceView>, id: Seq<char>, i: int) -> Option<
    NvmlDeviceView,
>
    decreases devs.len() - i,
{
    if i < 0 || i >= devs.len() {
        None
    } else if devs[i].id == id {
        Some(devs[i])
    } else {
        device_from(devs, id, i + 1)
    }
}

/// Where a device runs, and what the library and the system tell of that.
#[derive(Clone, Copy, Debug, PartialEq, Eq, Structural)]
pub enum Platform {
    Linux,
    Windows { model: DriverModelClass, engines_counted: bool },
}

/// What the library tells of a device once.
pub struct NvmlStatic {
    pub name: Option<String>,
    pub mem_total: Option<u64>,
    pub power_limit_mw: Option<u32>,
    pub max_sm_clock_mhz: Option<u32>,
    /// Whole degrees.
    pub temp_slowdown_c: Option<u32>,
    pub driver_version: Option<String>,
}

/// What the library tells of a device at a tick. Percentages and degrees are whole.
pub struct NvmlReadings {
    pub util: Option<u32>,
    pub mem_used: Option<u64>,
    pub power_mw: Option<u32>,
    pub temp_c: Option<u32>,
    pub fan: Option<u32>,
    pub sm_clock_mhz: Option<u32>,
    pub mem_clock_mhz: Option<u32>,
    pub encoder: Option<u32>,
    pub decoder: Option<u32>,
    /// The bits of the reasons for lower clocks.
    pub throttle: Option<u64>,
}

/// Whole degrees as a sample holds them.
pub open spec fn degrees(t: Option<u32>) -> Option<MilliC> {
    match t {
        Some(c) => Some((c * 1000) as MilliC),
        None => None,
    }
}

fn to_degrees(t: Option<u32>) -> (r: Option<MilliC>)
    ensures
        r == degrees(t),
{
    match t {
        Some(c) => Some(c as i64 * 1000),
        None => None,
    }
}

/// Whole percents as a sample holds them.
pub open spec fn percents(p: Option<u32>) -> Option<MilliPct> {
    match p {
        Some(n) => Some(percent(n)),
        None => None,
    }
}

fn to_percents(p: Option<u32>) -> (r: Option<MilliPct>)
    ensures
        r == percents(p),
{
    match p {
        Some(n) => Some(to_percent(n)),
        None => None,
    }
}

/// What a device is described as.
pub open spec fn describes(
    info: StaticInfo,
    d: NvmlDeviceView,
    f: NvmlStatic,
    platform: Platform,
    hint: Option<Seq<char>>,
) -> bool {
    &&& info.id@ == d.id
    &&& info.vendor == Vendor::Nvidia
    &&& info.name@ == (match f.name {
        Some(n) => n@,
        None => "NVIDIA GPU"@,
    })
    &&& info.backend@ == "nvidia"@
    &&& info.mem_total_bytes == f.mem_total
    &&& info.power_limit_mw == f.power_limit_mw
    &&& info.max_sm_clock_mhz == f.max_sm_clock_mhz
    &&& info.temp_slowdown_c == degrees(f.temp_slowdown_c)
    &&& text_view(info.driver_version) == text_view(f.driver_version)
    &&& match platform {
        Platform::Linux => text_view(info.process_hint) == hint && info.source_caveat is None,
        Platform::Windows { model, engines_counted } => {
            let pdh = attributed(engines_counted, d.luid);
            &&& text_view(info.process_hint) == windows_hint(model, pdh)
            &&& text_view(info.source_caveat) == Some(windows_caveat(pdh))
        },
    }
}

/// Memory in use of a device: what the system's counters tell, else what the library does.
pub open spec fn used_of(
    luid: Option<Luid>,
    snap: Option<SnapshotView>,
    told: Option<u64>,
) -> Option<u64> {
    match (luid, snap) {
        (Some(l), Some(s)) => match size_of(total_of(s.adapter_dedicated, l)) {
            Some(b) => Some(b),
            None => told,
        },
        _ => told,
    }
}

/// The sum over the counters of a device is a size that can be told.
pub open spec fn total_fits(luid: Option<Luid>, snap: Option<SnapshotView>) -> bool {
    match (luid, snap) {
        (Some(l), Some(s)) => fits(total_of(s.adapter_dedicated, l)),
        _ => true,
    }
}

/// What is told of a device at a tick. Throttling that could not be read is unobserved, not absent.
pub open spec fn samples(
    s: DynamicSample,
    d: NvmlDeviceView,
    ts_ms: u64,
    f: NvmlReadings,
    snap: Option<SnapshotView>,
) -> bool {
    &&& s.ts_ms == ts_ms
    &&& s.util_pct == percents(f.util)
    &&& s.util_engine is None
    &&& s.mem_used_bytes == used_of(d.luid, snap, f.mem_used)
    &&& s.power_mw == f.power_mw
    &&& s.temp_c == degrees(f.temp_c)
    &&& s.fan_pct == percents(f.fan)
    &&& s.sm_clock_mhz == f.sm_clock_mhz
    &&& s.mem_clock_mhz == f.mem_clock_mhz
    &&& s.encoder_pct == percents(f.encoder)
    &&& s.decoder_pct == percents(f.decoder)
    &&& s.throttle == (match f.throttle {
        Some(bits) => Some(reasons_of(bits)),
        None => None,
    })
}

pub struct NvidiaBackend {
    devs: Vec<NvmlDevice>,
    /// Of each device, the time of the latest sample of utilization.
    util_ts: PidTable<u64>,
    hint: Option<String>,
    cpu: CpuTracker,
    /// Of each device, the processes that its last list had.
    listed: PidTable<Vec<u32>>,
}

/// The ids of the processes.
fn pids_in(v: &Vec<ProcessSample>) -> (r: Vec<u32>)
    ensures
        r@ == pids_of(proc_views(v@)),
{
    let mut r: Vec<u32> = Vec::new();
    let mut i: usize = 0;
    while i < v.len()
        invariant
            i <= v@.len(),
            r@.len() == i,
            forall|k: int| 0 <= k < i ==> #[trigger] r@[k] == v@[k].pid,
        decreases v@.len() - i,
    {
        r.push(v[i].pid);
        i = i + 1;
    }
    assert(r@ =~= pids_of(proc_views(v@)));
    r
}

impl NvidiaBackend {
    pub closed spec fn wf(self) -> bool {
        self.util_ts.wf() && self.cpu.seen.wf() && self.listed.wf()
    }

    pub closed spec fn devs(self) -> Seq<NvmlDeviceView> {
        Seq::new(self.devs@.len(), |i: int| self.devs@[i]@)
    }

    pub closed spec fn hint(self) -> Option<Seq<char>> {
        text_view(self.hint)
    }

    /// The time of the latest sample of device `index`; zero where there was none.
    pub closed spec fn since(self, index: u32) -> u64 {
        match self.util_ts.at(index) {
            Some(ts) => ts,
            None => 0,
        }
    }

    /// The last reading of a process's CPU time.
    pub closed spec fn cpu(self, pid: u32) -> Option<Sighting> {
        self.cpu.seen.at(pid)
    }

    /// The last list of device `index` had process `pid`.
    pub closed spec fn had(self, index: u32, pid: u32) -> bool {
        match self.listed.at(index) {
            Some(pids) => pids@.contains(pid),
            None => false,
        }
    }

    /// The last list of another device than `index` had process `pid`.
    pub open spec fn had_elsewhere(self, index: u32, pid: u32) -> bool {
        exists|i: u32| i != index && #[trigger] self.had(i, pid)
    }

    pub open spec fn device_at(self, id: Seq<char>) -> Option<NvmlDeviceView> {
        device_from(self.devs(), id, 0)
    }

    /// The backend of the devices that the library could open. `adapters` are those of Windows, and
    /// `osrelease` is the release of the kernel of Linux.
    pub fn init(
        slots: &Vec<NvmlSlot>,
        adapters: &Vec<AdapterInfo>,
        osrelease: &Option<String>,
    ) -> (r: Result<Self, BackendError>)
        ensures
            match r {
                Ok(b) => {
                    &&& b.wf()
                    &&& slots@.len() > 0
                    &&& b.devs() == devices_of(slots@, adapters@)
                    &&& b.hint() == wsl_hint(text_view(*osrelease))
                    &&& forall|i: u32| #[trigger] b.since(i) == 0
                    &&& forall|pid: u32| #[trigger] b.cpu(pid) is None
                    &&& forall|i: u32, pid: u32| !#[trigger] b.had(i, pid)
                },
                Err(e) => slots@.len() == 0 && is_unavailable(e, "NVML loaded but no devices"@),
            },
    {
        if slots.len() == 0 {
            let mut why: String = String::new();
            why.append("NVML loaded but no devices");
            assert(why@ =~= "NVML loaded but no devices"@);
            return Err(BackendError::Unavailable(why));
        }
        let mut devs: Vec<NvmlDevice> = Vec::new();
        let mut i: usize = 0;
        while i < slots.len()
            invariant
                i <= slots.len(),
                devs@.len() == i,
                forall|k: int|
                    0 <= k < i ==> (#[trigger] devs@[k])@ == devices_of(slots@, adapters@)[k],
            decreases slots.len() - i,
        {
            let id = slot_id(&slots[i]);
            let luid = match_luid(id.0.as_str(), adapters);
            devs.push(NvmlDevice { index: slots[i].index, id, luid });
            i = i + 1;
        }
        let b = NvidiaBackend {
            devs,
            util_ts: PidTable::new(),
            hint: wsl_process_hint(osrelease),
            cpu: CpuTracker::new(),
            listed: PidTable::new(),
        };
        assert(b.devs() =~= devices_of(slots@, adapters@));
        Ok(b)
    }

    pub fn name(&self) -> (r: &'static str)
        ensures
            r@ == "nvidia"@,
    {
        "nvidia"
    }

    /// The identities of the devices.
    pub fn devices(&self) -> (v: Vec<DeviceId>)
        ensures
            v@.len() == self.devs().len(),
            forall|i: int| 0 <= i < v@.len() ==> (#[trigger] v@[i])@ == self.devs()[i].id,
    {
        let mut v: Vec<DeviceId> = Vec::new();
        let mut i: usize = 0;
        while i < self.devs.len()
            invariant
                i <= self.devs.len(),
                v@.len() == i,
                forall|k: int| 0 <= k < i ==> (#[trigger] v@[k])@ == self.devs()[k].id,
            decreases self.devs.len() - i,
        {
            v.push(self.devs[i].id.clone());
            i = i + 1;
        }
        v
    }

    /// The device with an identity.
    pub fn device(&self, dev: &DeviceId) -> (r: Result<&NvmlDevice, BackendError>)
        ensures
            match r {
                Ok(d) => self.device_at(dev@) == Some(d@),
                Err(e) => self.device_at(dev@) is None && is_not_found(e, dev@),
            },
    {
        let mut i: usize = 0;
        while i < self.devs.len()
            invariant
                i <= self.devs.len(),
                device_from(self.devs(), dev@, i as int) == self.device_at(dev@),
            decreases self.devs.len() - i,
        {
            assert(self.devs()[i as int] == self.devs@[i as int]@);
            if self.devs[i].id.0 == dev.0 {
                return Ok(&self.devs[i]);
            }
            i = i + 1;
        }
        Err(BackendError::DeviceNotFound(dev.clone()))
    }

    pub fn static_info(&self, dev: &DeviceId, f: &NvmlStatic, platform: Platform) -> (r: Result<
        StaticInfo,
        BackendError,
    >)
        ensures
            match r {
                Ok(info) => self.device_at(dev@) is Some && describes(
                    info,
                    self.device_at(dev@)->0,
                    *f,
                    platform,
                    self.hint(),
                ),
                Err(e) => self.device_at(dev@) is None && is_not_found(e, dev@),
            },
    {
        let d = match self.device(dev) {
            Ok(d) => d,
            Err(e) => {
                return Err(e);
            },
        };
        let mut name: String = String::new();
        match &f.name {
            Some(n) => {
                name.append(n.as_str());
                assert(name@ =~= n@);
            },
            None => {
                name.append("NVIDIA GPU");
                assert(name@ =~= "NVIDIA GPU"@);
            },
        }
        let mut backend: String = String::new();
        backend.append("nvidia");
        assert(backend@ =~= "nvidia"@);
        let (process_hint, source_caveat): (Option<String>, Option<String>) = match platform {
            Platform::Linux => (
                match &self.hint {
                    Some(h) => Some(h.clone()),
                    None => None,
                },
                None,
            ),
            Platform::Windows { model, engines_counted } => {
                let pdh = attribution(engines_counted, d.luid);
                (windows_process_hint(model, pdh), windows_source_caveat(pdh))
            },
        };
        Ok(
            StaticInfo {
                id: d.id.clone(),
                vendor: Vendor::Nvidia,
                name,
                backend,
                mem_total_bytes: f.mem_total,
                power_limit_mw: f.power_limit_mw,
                max_sm_clock_mhz: f.max_sm_clock_mhz,
                temp_slowdown_c: to_degrees(f.temp_slowdown_c),
                driver_version: match &f.driver_version {
                    Some(v) => Some(v.clone()),
                    None => None,
                },
                process_hint,
                source_caveat,
            },
        )
    }

    /// What is told of a device at a tick. `snap` is the collection of the system's counters, where
    /// there is one.
    pub fn refresh_dynamic(
        &self,
        dev: &DeviceId,
        ts_ms: u64,
        f: &NvmlReadings,
        snap: Option<&PdhSnapshot>,
    ) -> (r: Result<DynamicSample, BackendError>)
        requires
            self.device_at(dev@) matches Some(d) ==> total_fits(d.luid, snap_view(snap)),
        ensures
            match r {
                Ok(s) => self.device_at(dev@) is Some && samples(
                    s,
                    self.device_at(dev@)->0,
                    ts_ms,
                    *f,
                    snap_view(snap),
                ),
                Err(e) => self.device_at(dev@) is None && is_not_found(e, dev@),
            },
    {
        let d = match self.device(dev) {
            Ok(d) => d,
            Err(e) => {
                return Err(e);
            },
        };
        let counted: Option<u64> = match (d.luid, snap) {
            (Some(l), Some(s)) => adapter_bytes(&s.adapter_dedicated, l),
            _ => None,
        };
        Ok(
            DynamicSample {
                ts_ms,
                util_pct: to_percents(f.util),
                util_engine: None,
                mem_used_bytes: match counted {
                    Some(b) => Some(b),
                    None => f.mem_used,
                },
                power_mw: f.power_mw,
                temp_c: to_degrees(f.temp_c),
                fan_pct: to_percents(f.fan),
                sm_clock_mhz: f.sm_clock_mhz,
                mem_clock_mhz: f.mem_clock_mhz,
                encoder_pct: to_percents(f.encoder),
                decoder_pct: to_percents(f.decoder),
                throttle: match f.throttle {
                    Some(bits) => Some(map_throttle(bits)),
                    None => None,
                },
            },
        )
    }

    /// From when on samples of utilization are to be asked for.
    pub fn util_since(&self, dev: &DeviceId) -> (r: Result<u64, BackendError>)
        requires
            self.wf(),
        ensures
            match r {
                Ok(ts) => self.device_at(dev@) is Some && ts == self.since(
                    self.device_at(dev@)->0.index,
                ),
                Err(e) => self.device_at(dev@) is None && is_not_found(e, dev@),
            },
    {
        match self.device(dev) {
            Ok(d) => Ok(
                match self.util_ts.get(d.index) {
                    Some(ts) => *ts,
                    None => 0,
                },
            ),
            Err(e) => Err(e),
        }
    }

    /// The processes that the last lists of the other devices had.
    fn listed_elsewhere(&self, index: u32) -> (v: Vec<u32>)
        requires
            self.wf(),
        ensures
            forall|pid: u32| #[trigger] v@.contains(pid) <==> self.had_elsewhere(index, pid),
    {
        let mut v: Vec<u32> = Vec::new();
        let ghost keys = self.listed.pids();
        let mut i: usize = 0;
        while i < self.listed.len()
            invariant
                self.wf(),
                keys == self.listed.pids(),
                i <= keys.len(),
                forall|pid: u32| #[trigger]
                    v@.contains(pid) <==> exists|k: int|
                        0 <= k < i && #[trigger] keys[k] != index && self.had(keys[k], pid),
            decreases keys.len() - i,
        {
            let key: u32 = self.listed.pid_at(i);
            let pids = self.listed.value_at(i);
            let ghost before = v@;
            if key != index {
                let mut j: usize = 0;
                assert(v@ =~= before + pids@.take(0));
                while j < pids.len()
                    invariant
                        j <= pids@.len(),
                        v@ == before + pids@.take(j as int),
                    decreases pids@.len() - j,
                {
                    v.push(pids[j]);
                    assert(v@ =~= before + pids@.take(j + 1));
                    j = j + 1;
                }
                assert(pids@.take(j as int) =~= pids@);
            }
            proof {
                assert forall|pid: u32| #[trigger] v@.contains(pid) <==> exists|k: int|
                    0 <= k < i + 1 && #[trigger] keys[k] != index && self.had(keys[k], pid) by {
                    if v@.contains(pid) {
                        let x = choose|x: int| 0 <= x < v@.len() && v@[x] == pid;
                        if x < before.len() {
                            assert(before[x] == pid);
                            assert(before.contains(pid));
                            let k = choose|k: int|
                                0 <= k < i && #[trigger] keys[k] != index && self.had(keys[k], pid);
                            assert(keys[k] != index && self.had(keys[k], pid));
                        } else {
                            assert(pids@[x - before.len()] == pid);
                            assert(self.had(keys[i as int], pid));
                        }
                    }
                    if exists|k: int|
                        0 <= k < i + 1 && #[trigger] keys[k] != index && self.had(keys[k], pid) {
                        let k = choose|k: int|
                            0 <= k < i + 1 && #[trigger] keys[k] != index && self.had(keys[k], pid);
                        if k < i {
                            assert(before.contains(pid));
                            let x = choose|x: int| 0 <= x < before.len() && before[x] == pid;
                            assert(v@[x] == pid);
                        } else {
                            let x = choose|x: int| 0 <= x < pids@.len() && pids@[x] == pid;
                            assert(v@[before.len() + x] == pid);
                        }
                    }
                }
            }
            i = i + 1;
        }
        proof {
            self.listed.lemma_at();
            assert forall|pid: u32| #[trigger] v@.contains(pid) <==> self.had_elsewhere(
                index,
                pid,
            ) by {
                if self.had_elsewhere(index, pid) {
                    let d = choose|d: u32| d != index && #[trigger] self.had(d, pid);
                    assert(self.listed.at(d) is Some);
                    assert(keys.contains(d));
                    let k = choose|k: int| 0 <= k < keys.len() && keys[k] == d;
                    assert(keys[k] != index && self.had(keys[k], pid));
                }
            }
        }
        v
    }

    /// The processes of a device on Linux, by rising id. `samples` are those since the time that was
    /// asked for; `None` where the library gave none. The reading of a process that this list has
    /// not is kept while the last list of another device has it.
    pub fn refresh_processes(
        &mut self,
        dev: &DeviceId,
        compute: &Vec<NvmlProcess>,
        graphics: &Vec<NvmlProcess>,
        samples: &Option<Vec<UtilSample>>,
        fs: &Vec<NvmlPidFiles>,
        now_ns: u64,
    ) -> (r: Result<Vec<ProcessSample>, BackendError>)
        requires
            old(self).wf(),
        ensures
            final(self).wf(),
            final(self).devs() == old(self).devs(),
            final(self).hint() == old(self).hint(),
            match r {
                Ok(v) => {
                    let index = old(self).device_at(dev@)->0.index;
                    &&& old(self).device_at(dev@) is Some
                    &&& lists_linux(
                        proc_views(v@),
                        entries(compute@, graphics@),
                        samples_view(*samples),
                        fs@,
                        |pid: u32| old(self).cpu(pid),
                        now_ns,
                    )
                    &&& forall|pid: u32| #[trigger]
                        final(self).cpu(pid) == (match listed_in(
                            entries(compute@, graphics@),
                            pid,
                        ) {
                            Some(_) => sighting_after(
                                old(self).cpu(pid),
                                facts_from(fs@, pid, 0).stat,
                                now_ns,
                            ),
                            None => if old(self).had_elsewhere(index, pid) {
                                old(self).cpu(pid)
                            } else {
                                None
                            },
                        })
                    &&& forall|pid: u32| #[trigger]
                        final(self).had(index, pid) <==> listed_in(
                            entries(compute@, graphics@),
                            pid,
                        ) is Some
                    &&& forall|i: u32, pid: u32|
                        i != index ==> #[trigger] final(self).had(i, pid) == old(self).had(i, pid)
                    &&& final(self).since(index) == (match *samples {
                        Some(s) => newest(s@, old(self).since(index)),
                        None => old(self).since(index),
                    })
                    &&& forall|i: u32|
                        i != index ==> #[trigger] final(self).since(i) == old(self).since(i)
                },
                Err(e) => {
                    &&& old(self).device_at(dev@) is None
                    &&& is_not_found(e, dev@)
                    &&& forall|pid: u32| #[trigger] final(self).cpu(pid) == old(self).cpu(pid)
                    &&& forall|i: u32| #[trigger] final(self).since(i) == old(self).since(i)
                    &&& forall|i: u32, pid: u32| #[trigger]
                        final(self).had(i, pid) == old(self).had(i, pid)
                },
            },
    {
        let index: u32 = match self.device(dev) {
            Ok(d) => d.index,
            Err(e) => {
                return Err(e);
            },
        };
        let elsewhere = self.listed_elsewhere(index);
        let v = list_linux(compute, graphics, samples, fs, &mut self.cpu, &elsewhere, now_ns);
        let pids = pids_in(&v);
        let _ = self.listed.insert(index, pids);
        if let Some(s) = samples {
            let since: u64 = match self.util_ts.get(index) {
                Some(ts) => *ts,
                None => 0,
            };
            let _ = self.util_ts.insert(index, newest_of(s, since));
        }
        proof {
            assert((|pid: u32| old(self).cpu.seen.at(pid)) =~= (|pid: u32| old(self).cpu(pid)));
        }
        Ok(v)
    }

    /// The processes of a device on Windows, by rising id. `snap` is the collection of the system's
    /// counters, where there is one; `images` names the processes that only the counters tell of.
    pub fn refresh_processes_windows(
        &self,
        dev: &DeviceId,
        compute: &Vec<NvmlProcess>,
        graphics: &Vec<NvmlProcess>,
        snap: Option<&PdhSnapshot>,
        fs: &Vec<NvmlPidFiles>,
        images: &Vec<PidImage>,
    ) -> (r: Result<Vec<ProcessSample>, BackendError>)
        requires
            self.device_at(dev@) matches Some(d) ==> device_sums_fit(snap_view(snap), d.luid),
        ensures
            match r {
                Ok(v) => self.device_at(dev@) is Some && lists_windows(
                    proc_views(v@),
                    entries(compute@, graphics@),
                    snap_view(snap),
                    self.device_at(dev@)->0.luid,
                    fs@,
                    images@,
                ),
                Err(e) => self.device_at(dev@) is None && is_not_found(e, dev@),
            },
    {
        match self.device(dev) {
            Ok(d) => Ok(list_windows(compute, graphics, snap, d.luid, fs, images)),
            Err(e) => Err(e),
        }
    }
}

/// The samples are asked for from ever later times.
pub proof fn law_the_time_of_samples_does_not_go_back(s: Seq<UtilSample>, since: u64)
    ensures
        newest(s, since) == since || exists|i: int|
            0 <= i < s.len() && (#[trigger] s[i]).timestamp == newest(s, since),
        newest(s, since) >= since,
        forall|i: int| 0 <= i < s.len() ==> (#[trigger] s[i]).timestamp <= newest(s, since),
    decreases s.len(),
{
    if s.len() > 0 {
        let t = s.drop_last();
        law_the_time_of_samples_does_not_go_back(t, since);
        assert forall|i: int| 0 <= i < s.len() implies (#[trigger] s[i]).timestamp <= newest(
            s,
            since,
        ) by {
            if i < t.len() {
                assert(t[i] == s[i]);
            }
        }
    }
}

/// What the driver tells in whole degrees and percents is told in thousandths; what Windows counts
/// of the device's memory comes before what the driver tells, which stands in where nothing was
/// counted; and everything else is told as the driver tells it.
pub proof fn law_the_drivers_readings_are_told(
    s: DynamicSample,
    d: NvmlDeviceView,
    ts_ms: u64,
    f: NvmlReadings,
    snap: Option<SnapshotView>,
)
    requires
        samples(s, d, ts_ms, f, snap),
    ensures
        s.ts_ms == ts_ms,
        s.util_pct is Some <==> f.util is Some,
        f.util matches Some(n) ==> s.util_pct->0 == 1000 * n,
        s.fan_pct is Some <==> f.fan is Some,
        f.fan matches Some(n) ==> s.fan_pct->0 == 1000 * n,
        s.encoder_pct is Some <==> f.encoder is Some,
        f.encoder matches Some(n) ==> s.encoder_pct->0 == 1000 * n,
        s.decoder_pct is Some <==> f.decoder is Some,
        f.decoder matches Some(n) ==> s.decoder_pct->0 == 1000 * n,
        s.temp_c is Some <==> f.temp_c is Some,
        f.temp_c matches Some(n) ==> s.temp_c->0 == 1000 * n,
        s.power_mw == f.power_mw,
        s.sm_clock_mhz == f.sm_clock_mhz,
        s.mem_clock_mhz == f.mem_clock_mhz,
        s.throttle is Some <==> f.throttle is Some,
        d.luid is None || snap is None ==> s.mem_used_bytes == f.mem_used,
        d.luid is Some && snap is Some ==> match total_of(snap->0.adapter_dedicated, d.luid->0) {
            Some(b) => b <= u64::MAX ==> s.mem_used_bytes is Some && s.mem_used_bytes->0 == b,
            None => s.mem_used_bytes == f.mem_used,
        },
{
}

/// A device is found by its identity, and of several with one identity the first is.
pub proof fn law_the_first_device_with_an_identity_is_found(
    devs: Seq<NvmlDeviceView>,
    id: Seq<char>,
    i: int,
)
    requires
        0 <= i <= devs.len(),
        forall|j: int| 0 <= j < i ==> (#[trigger] devs[j]).id != id,
    ensures
        i < devs.len() && devs[i].id == id ==> device_from(devs, id, 0) == Some(devs[i]),
        i == devs.len() ==> device_from(devs, id, 0) is None,
{
    lemma_device_from(devs, id, 0, i);
}

proof fn lemma_device_from(devs: Seq<NvmlDeviceView>, id: Seq<char>, k: int, i: int)
    requires
        0 <= k <= i <= devs.len(),
        forall|j: int| 0 <= j < i ==> (#[trigger] devs[j]).id != id,
    ensures
        i < devs.len() && devs[i].id == id ==> device_from(devs, id, k) == Some(devs[i]),
        i == devs.len() ==> device_from(devs, id, k) is None,
    decreases i - k,
{
    if k < i {
        assert(devs[k].id != id);
        lemma_device_from(devs, id, k + 1, i);
    }
}

/// Every device that could be opened is there, in the order of the library's enumeration and with
/// its place in it; one without an address is named by that place.
pub proof fn law_every_opened_device_is_there(
    slots: Seq<NvmlSlot>,
    adapters: Seq<AdapterInfo>,
    i: int,
)
    requires
        0 <= i < slots.len(),
    ensures
        devices_of(slots, adapters).len() == slots.len(),
        devices_of(slots, adapters)[i].index == slots[i].index,
        slots[i].bus_id is None ==> devices_of(slots, adapters)[i].id == "nvml:"@ + dec(
            slots[i].index as nat,
        ),
        slots[i].bus_id matches Some(bus) ==> devices_of(slots, adapters)[i].id == lowercase(bus@),
        devices_of(slots, adapters)[i].luid == matched_luid(
            devices_of(slots, adapters)[i].id,
            adapters,
        ),
{
}

/// A device is described by what the driver tells, each in its own place; the temperature at which
/// it slows down is told in thousandths of a degree. On Linux nothing needs to be said of the
/// sources; on Windows it always is.
pub proof fn law_a_description_tells_what_the_driver_does(
    info: StaticInfo,
    d: NvmlDeviceView,
    f: NvmlStatic,
    platform: Platform,
    hint: Option<Seq<char>>,
)
    requires
        describes(info, d, f, platform, hint),
    ensures
        info.id@ == d.id && info.vendor is Nvidia && info.backend@ == "nvidia"@,
        f.name matches Some(n) ==> info.name@ == n@,
        f.name is None ==> info.name@ == "NVIDIA GPU"@,
        info.mem_total_bytes == f.mem_total,
        info.power_limit_mw == f.power_limit_mw,
        info.max_sm_clock_mhz == f.max_sm_clock_mhz,
        match f.temp_slowdown_c {
            Some(c) => info.temp_slowdown_c is Some && info.temp_slowdown_c->0 == 1000 * c,
            None => info.temp_slowdown_c is None,
        },
        info.driver_version is Some <==> f.driver_version is Some,
        f.driver_version matches Some(v) ==> info.driver_version->0@ == v@,
        platform is Linux ==> info.source_caveat is None && (info.process_hint is Some <==> hint
            is Some),
        platform is Windows ==> info.source_caveat is Some,
{
}

} // verus!
