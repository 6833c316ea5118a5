//! The backend of devices of the amdgpu driver.

use vstd::prelude::*;
use crate::amd::TempLabel;
use crate::amd::{decode_gpu_metrics_throttle, edge_temp_millic, fan_pct_of_max, gpu_name, power_cap_mw, power_mw, read_table};
use crate::amd::{current_mhz, device_name, edge_temp, fan_share, label_views, max_mhz, metrics_throttle, table_mhz};
use crate::backend::BackendError;
use crate::backend::{is_not_found, is_unavailable};
use crate::drm::{CardFiles, Mark};
use crate::drm::{card_views, file_mw, file_number, process_hint_text};
use crate::drm::read_u64;
use crate::drm_devices::{DrmDevice, DrmDeviceView, DrmDevices, Family};
use crate::drm_devices::{device_from, found, lists_processes, scanned_mark};
use crate::fdinfo::PidFiles;
use crate::fdinfo::pid_views;
use crate::model::{DeviceId, DynamicSample, MilliPct, ProcessSample, StaticInfo, ThrottleReasons, Vendor};
use crate::model::{proc_views, text_view};

verus! {

/// The files of a device that are read once.
pub struct AmdStaticFiles {
    pub device: Option<String>,
    pub revision: Option<String>,
    /// The list of device names (`amdgpu.ids`).
    pub ids: Option<String>,
    pub vram_total: Option<String>,
    /// `power1_cap` of the directory of sensors.
    pub power_cap: Option<String>,
    pub sclk: Option<String>,
}

/// What is read of a device at a tick. Numbers with a fraction come in thousandths; one that is no
/// finite number is missing.
pub struct AmdReadings {
    pub busy_pct: Option<MilliPct>,
    pub vram_used: Option<String>,
    pub sclk: Option<String>,
    pub mclk: Option<String>,
    pub gpu_metrics: Option<Vec<u8>>,
    /// Of the directory of sensors: `power1_average`, `power1_input`, the temperature labels with
    /// their inputs, `temp1_input`, `fan1_input` and `fan1_max`.
    pub power_average: Option<String>,
    pub power_input: Option<String>,
    pub temp_labels: Vec<TempLabel>,
    pub temp1_input: Option<String>,
    pub fan_rpm: Option<i64>,
    pub fan_max: Option<i64>,
}

/// The number in a file, as a count of bytes.
pub open spec fn file_bytes(file: Option<Seq<char>>) -> Option<u64> {
    match file_number(file, u64::MAX as nat) {
        Some(n) => Some(n as u64),
        None => None,
    }
}

/// What the files of device `d` say of it.
pub open spec fn describes(
    info: StaticInfo,
    d: DrmDeviceView,
    f: AmdStaticFiles,
    hint: Option<Seq<char>>,
) -> bool {
    &&& info.id@ == d.id
    &&& info.vendor == Vendor::Amd
    &&& info.name@ == device_name(text_view(f.device), text_view(f.revision), text_view(f.ids))
    &&& info.backend@ == "amd"@
    &&& info.mem_total_bytes == file_bytes(text_view(f.vram_total))
    &&& info.power_limit_mw == (if d.hwmon is Some {
        file_mw(text_view(f.power_cap))
    } else {
        None
    })
    &&& info.max_sm_clock_mhz == table_mhz(text_view(f.sclk), true)
    // Neither is told by the files: the critical temperature is not where slowdown starts, and an
    // in-tree driver has no version of its own.
    &&& info.temp_slowdown_c is None
    &&& info.driver_version is None
    &&& text_view(info.process_hint) == hint
    &&& info.source_caveat is None
}

/// The throttle reasons in a metrics table; `None` where there is no table.
pub open spec fn throttle_of(gpu_metrics: Option<Vec<u8>>) -> Option<ThrottleReasons> {
    match gpu_metrics {
        Some(b) => metrics_throttle(b@),
        None => None,
    }
}

/// What the readings of device `d` say of it.
pub open spec fn samples(s: DynamicSample, d: DrmDeviceView, ts_ms: u64, r: AmdReadings) -> bool {
    &&& s.ts_ms == ts_ms
    &&& s.util_pct == r.busy_pct
    &&& s.util_engine is None
    &&& s.mem_used_bytes == file_bytes(text_view(r.vram_used))
    &&& s.sm_clock_mhz == table_mhz(text_view(r.sclk), false)
    &&& s.mem_clock_mhz == table_mhz(text_view(r.mclk), false)
    &&& s.encoder_pct is None
    &&& s.decoder_pct is None
    &&& s.throttle == throttle_of(r.gpu_metrics)
    &&& match d.hwmon {
        Some(_) => {
            &&& s.power_mw == (match file_mw(text_view(r.power_average)) {
                Some(mw) => Some(mw),
                None => file_mw(text_view(r.power_input)),
            })
            &&& s.temp_c == edge_temp(label_views(r.temp_labels@), text_view(r.temp1_input))
            &&& s.fan_pct == fan_share(r.fan_rpm, r.fan_max)
        },
        None => s.power_mw is None && s.temp_c is None && s.fan_pct is None,
    }
}

pub struct AmdBackend {
    drm: DrmDevices,
}

impl AmdBackend {
    pub closed spec fn wf(self) -> bool {
        self.drm.wf()
    }

    pub closed spec fn devs(self) -> Seq<DrmDeviceView> {
        self.drm.devs()
    }

    /// The last reading of process `pid` on device `id`.
    pub closed spec fn mark(self, id: Seq<char>, pid: u32) -> Option<Mark> {
        self.drm.mark(id, pid)
    }

    pub closed spec fn hint(self) -> Option<Seq<char>> {
        self.drm.hint()
    }

    pub open spec fn device_at(self, id: Seq<char>) -> Option<DrmDeviceView> {
        device_from(self.devs(), id, 0)
    }

    /// The backend of the devices among the cards of a root directory. `status` is the contents of
    /// the own status file.
    pub fn with_root(cards: &Vec<CardFiles>, status: &Option<String>) -> (r: Result<
        Self,
        BackendError,
    >)
        ensures
            match r {
                Ok(b) => {
                    &&& b.wf()
                    &&& found(Family::Amd, card_views(cards@)).len() > 0
                    &&& b.devs() == found(Family::Amd, card_views(cards@))
                    &&& b.hint() == process_hint_text(text_view(*status))
                    &&& forall|id: Seq<char>, pid: u32| #[trigger] b.mark(id, pid) is None
                },
                Err(e) => {
                    &&& found(Family::Amd, card_views(cards@)).len() == 0
                    &&& is_unavailable(e, "no amdgpu devices under sys/class/drm"@)
                },
            },
    {
        match DrmDevices::new(Family::Amd, cards, status) {
            Some(drm) => Ok(AmdBackend { drm }),
            None => {
                let mut why: String = String::new();
                why.append("no amdgpu devices under sys/class/drm");
                assert(why@ =~= "no amdgpu devices under sys/class/drm"@);
                Err(BackendError::Unavailable(why))
            },
        }
    }

    pub fn name(&self) -> (r: &'static str)
        ensures
            r@ == "amd"@,
    {
        "amd"
    }

    /// The identities of the devices.
    pub fn devices(&self) -> (v: Vec<DeviceId>)
        ensures
            v@.len() == self.devs().len(),
            forall|i: int| 0 <= i < v@.len() ==> (#[trigger] v@[i])@ == self.devs()[i].id,
    {
        self.drm.devices()
    }

    /// Where a device's files are.
    pub fn device(&self, dev: &DeviceId) -> (r: Result<&DrmDevice, BackendError>)
        ensures
            match r {
                Ok(d) => self.device_at(dev@) == Some(d@),
                Err(e) => self.device_at(dev@) is None && is_not_found(e, dev@),
            },
    {
        self.drm.device(dev)
    }

    pub fn static_info(&self, dev: &DeviceId, f: &AmdStaticFiles) -> (r: Result<
        StaticInfo,
        BackendError,
    >)
        ensures
            match r {
                Ok(info) => self.device_at(dev@) is Some && describes(
                    info,
                    self.device_at(dev@)->0,
                    *f,
                    self.hint(),
                ),
                Err(e) => self.device_at(dev@) is None && is_not_found(e, dev@),
            },
    {
        let d = match self.drm.device(dev) {
            Ok(d) => d,
            Err(e) => {
                return Err(e);
            },
        };
        let mut backend: String = String::new();
        backend.append("amd");
        assert(backend@ =~= "amd"@);
        Ok(
            StaticInfo {
                id: d.id.clone(),
                vendor: Vendor::Amd,
                name: gpu_name(&f.device, &f.revision, &f.ids),
                backend,
                mem_total_bytes: read_u64(&f.vram_total),
                power_limit_mw: if d.hwmon.is_some() {
                    power_cap_mw(&f.power_cap)
                } else {
                    None
                },
                max_sm_clock_mhz: read_table(&f.sclk, true),
                temp_slowdown_c: None,
                driver_version: None,
                process_hint: self.drm.process_hint(),
                source_caveat: None,
            },
        )
    }

    pub fn refresh_dynamic(&self, dev: &DeviceId, ts_ms: u64, readings: &AmdReadings) -> (r: Result<
        DynamicSample,
        BackendError,
    >)
        ensures
            match r {
                Ok(s) => self.device_at(dev@) is Some && samples(
                    s,
                    self.device_at(dev@)->0,
                    ts_ms,
                    *readings,
                ),
                Err(e) => self.device_at(dev@) is None && is_not_found(e, dev@),
            },
    {
        let d = match self.drm.device(dev) {
            Ok(d) => d,
            Err(e) => {
                return Err(e);
            },
        };
        let sensors: bool = d.hwmon.is_some();
        Ok(
            DynamicSample {
                ts_ms,
                util_pct: readings.busy_pct,
                util_engine: None,
                mem_used_bytes: read_u64(&readings.vram_used),
                power_mw: if sensors {
                    power_mw(&readings.power_average, &readings.power_input)
                } else {
                    None
                },
                temp_c: if sensors {
                    edge_temp_millic(&readings.temp_labels, &readings.temp1_input)
                } else {
                    None
                },
                fan_pct: if sensors {
                    fan_pct_of_max(readings.fan_rpm, readings.fan_max)
                } else {
                    None
                },
                sm_clock_mhz: read_table(&readings.sclk, false),
                mem_clock_mhz: read_table(&readings.mclk, false),
                encoder_pct: None,
                decoder_pct: None,
                throttle: match &readings.gpu_metrics {
                    Some(b) => decode_gpu_metrics_throttle(b.as_slice()),
                    None => None,
                },
            },
        )
    }

    /// The processes that use a device, by rising id.
    pub fn refresh_processes(&mut self, dev: &DeviceId, ts_ms: u64, ps: &Vec<PidFiles>) -> (r:
        Result<Vec<ProcessSample>, BackendError>)
        requires
            old(self).wf(),
        ensures
            final(self).wf(),
            final(self).devs() == old(self).devs(),
            final(self).hint() == old(self).hint(),
            forall|d: Seq<char>, pid: u32|
                d != dev@ ==> #[trigger] final(self).mark(d, pid) == old(self).mark(d, pid),
            match r {
                Ok(v) => {
                    &&& old(self).device_at(dev@) is Some
                    &&& lists_processes(
                        proc_views(v@),
                        old(self).device_at(dev@)->0,
                        pid_views(ps@),
                        ts_ms,
                        |pid: u32| old(self).mark(dev@, pid),
                    )
                    &&& forall|pid: u32| #[trigger]
                        final(self).mark(dev@, pid) == scanned_mark(
                            old(self).device_at(dev@)->0,
                            pid_views(ps@),
                            ts_ms,
                            pid,
                            old(self).mark(dev@, pid),
                        )
                },
                Err(e) => {
                    &&& old(self).device_at(dev@) is None
                    &&& is_not_found(e, dev@)
                    &&& forall|pid: u32| #[trigger]
                        final(self).mark(dev@, pid) == old(self).mark(dev@, pid)
                },
            },
    {
        let r = self.drm.refresh_processes(dev, ts_ms, ps);
        proof {
            assert((|pid: u32| old(self).drm.mark(dev@, pid)) =~= (|pid: u32|
                old(self).mark(dev@, pid)));
        }
        r
    }
}

/// The clock is that of the marked level of the table, where there is one.
pub open spec fn shows_current_level(clock: Option<u32>, table: Option<Seq<char>>) -> bool {
    &&& table is None ==> clock is None
    &&& table matches Some(t) ==> (clock is Some <==> current_mhz(t) is Some)
    &&& table matches Some(t) ==> current_mhz(t) matches Some(mhz) ==> mhz <= u32::MAX ==> clock
        == Some(mhz as u32)
}

/// A sample of a device tells each file in its own metric: the memory in use in bytes, the clocks of
/// the marked levels, the power averaged (or, where that does not read, drawn now) in milliwatts, the
/// temperature at the edge, and the fan's share. A device without sensors has none of the last three.
pub proof fn law_a_sample_tells_its_files(
    s: DynamicSample,
    d: DrmDeviceView,
    ts_ms: u64,
    r: AmdReadings,
)
    requires
        samples(s, d, ts_ms, r),
    ensures
        s.ts_ms == ts_ms && s.util_pct == r.busy_pct,
        match file_number(text_view(r.vram_used), u64::MAX as nat) {
            Some(b) => s.mem_used_bytes is Some && s.mem_used_bytes->0 == b,
            None => s.mem_used_bytes is None,
        },
        shows_current_level(s.sm_clock_mhz, text_view(r.sclk)),
        shows_current_level(s.mem_clock_mhz, text_view(r.mclk)),
        d.hwmon is None ==> s.power_mw is None && s.temp_c is None && s.fan_pct is None,
        d.hwmon is Some ==> {
            let average = file_number(text_view(r.power_average), u64::MAX as nat);
            let now = file_number(text_view(r.power_input), u64::MAX as nat);
            &&& average matches Some(uw) ==> s.power_mw is Some && (uw <= 0x3e7_ffff_ffff
                ==> s.power_mw->0 * 1000 <= uw < s.power_mw->0 * 1000 + 1000)
            &&& average is None ==> (s.power_mw is Some <==> now is Some)
            &&& average is None && now is Some && now->0 <= 0x3e7_ffff_ffff ==> s.power_mw->0 * 1000
                <= now->0 < s.power_mw->0 * 1000 + 1000
            &&& s.temp_c == edge_temp(label_views(r.temp_labels@), text_view(r.temp1_input))
            &&& s.fan_pct == fan_share(r.fan_rpm, r.fan_max)
        },
        r.gpu_metrics is None ==> s.throttle is None,
{
}

/// A device is described by its own files: its memory in bytes, its power limit in whole milliwatts
/// where it has sensors, and the clock of the highest level of its table. What no file tells is
/// missing.
pub proof fn law_a_description_tells_its_files(
    info: StaticInfo,
    d: DrmDeviceView,
    f: AmdStaticFiles,
    hint: Option<Seq<char>>,
)
    requires
        describes(info, d, f, hint),
    ensures
        info.vendor is Amd && info.id@ == d.id && info.backend@ == "amd"@,
        info.name@ == device_name(text_view(f.device), text_view(f.revision), text_view(f.ids)),
        match file_number(text_view(f.vram_total), u64::MAX as nat) {
            Some(b) => info.mem_total_bytes is Some && info.mem_total_bytes->0 == b,
            None => info.mem_total_bytes is None,
        },
        d.hwmon is None ==> info.power_limit_mw is None,
        d.hwmon is Some ==> match file_number(text_view(f.power_cap), u64::MAX as nat) {
            Some(uw) => info.power_limit_mw is Some && (uw <= 0x3e7_ffff_ffff
                ==> info.power_limit_mw->0 * 1000 <= uw < info.power_limit_mw->0 * 1000 + 1000),
            None => info.power_limit_mw is None,
        },
        f.sclk is None ==> info.max_sm_clock_mhz is None,
        f.sclk matches Some(t) ==> (info.max_sm_clock_mhz is Some <==> max_mhz(t@) is Some),
        f.sclk matches Some(t) ==> max_mhz(t@) matches Some(mhz) ==> mhz <= u32::MAX
            ==> info.max_sm_clock_mhz == Some(mhz as u32),
        info.temp_slowdown_c is None && info.driver_version is None && info.source_caveat is None,
        info.process_hint is Some <==> hint is Some,
{
}

} // verus!
