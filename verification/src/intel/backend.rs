//! The backend of devices of the two Intel drivers.

use vstd::prelude::*;
use crate::backend::BackendError;
use crate::backend::{is_not_found, is_unavailable};
use crate::by_id::ById;
use crate::drm::{CardFiles, Mark};
use crate::drm::{card_views, file_int, file_mw, file_number, process_hint_text};
use crate::drm::{read_i64, read_mw, read_u64};
use crate::drm_devices::{Driver, DrmDevice, DrmDeviceView, DrmDevices, Family};
use crate::drm_devices::{device_from, found, lists_processes, scanned_mark};
use crate::fdinfo::PidFiles;
use crate::fdinfo::pid_views;
use crate::files::Files;
use crate::intel::{act_freq, device_name, energy_rate, file_u32, temp_channel, throttle_of};
use crate::intel::law_power_is_energy_over_time;
use crate::intel::{act_freq_mhz, decode_throttle, energy_delta_mw, gpu_name, max_freq_mhz, temp_input};
use crate::intel::Clock;
use crate::model::{DeviceId, DynamicSample, MilliC, ProcessSample, StaticInfo, Vendor};
use crate::model::{proc_views, text_view};

verus! {

/// The files of a device: those below its entry in the directory of cards, and those of its
/// directory of sensors.
pub struct IntelFiles {
    pub card: Files,
    pub sensors: Files,
}

/// The number in a file, as a count.
pub open spec fn file_u64(file: Option<Seq<char>>) -> Option<u64> {
    match file_number(file, u64::MAX as nat) {
        Some(n) => Some(n as u64),
        None => None,
    }
}

/// What the files of device `d` say of it. Memory is what the device has of its own: of it only one
/// driver tells, and system memory is never shown as it.
pub open spec fn describes(
    info: StaticInfo,
    d: DrmDeviceView,
    f: IntelFiles,
    hint: Option<Seq<char>>,
) -> bool {
    &&& info.id@ == d.id
    &&& info.vendor == Vendor::Intel
    &&& info.name@ == device_name(f.card.at("device/device"@))
    &&& info.backend@ == "intel"@
    &&& info.mem_total_bytes == (match d.driver {
        Driver::Xe => None,
        _ => file_u64(f.card.at("lmem_total_bytes"@)),
    })
    &&& info.power_limit_mw == (match d.hwmon {
        Some(_) => file_mw(f.sensors.at("power1_max"@)),
        None => None,
    })
    &&& info.max_sm_clock_mhz == file_u32(f.card.at(Clock::Maximum.path_text(d.driver)))
    // Neither is told by the files.
    &&& info.temp_slowdown_c is None
    &&& info.driver_version is None
    &&& text_view(info.process_hint) == hint
    &&& info.source_caveat is None
}

/// The energy counter of device `d`, read at a time.
pub open spec fn energy_reading(d: DrmDeviceView, f: IntelFiles, ts_ms: u64) -> Option<Mark> {
    match d.hwmon {
        Some(_) => match file_u64(f.sensors.at("energy1_input"@)) {
            Some(uj) => Some(Mark { count: uj, base: ts_ms }),
            None => None,
        },
        None => None,
    }
}

/// The package temperature of device `d`.
pub open spec fn temp_of(d: DrmDeviceView, f: IntelFiles) -> Option<MilliC> {
    match d.hwmon {
        Some(_) => match file_int(f.sensors.at(temp_channel(d.driver))) {
            Some(t) => Some(t as MilliC),
            None => None,
        },
        None => None,
    }
}

/// The energy reading that is remembered after a tick: the new one, or else the old one.
pub open spec fn energy_after(
    d: DrmDeviceView,
    f: IntelFiles,
    ts_ms: u64,
    before: Option<Mark>,
) -> Option<Mark> {
    match energy_reading(d, f, ts_ms) {
        Some(m) => Some(m),
        None => before,
    }
}

/// What the files of device `d` say of it at a tick, after energy reading `before`. Utilization,
/// memory in use, fan speed and the rest are told by no file that can be read without privilege.
pub open spec fn samples(
    s: DynamicSample,
    d: DrmDeviceView,
    ts_ms: u64,
    f: IntelFiles,
    before: Option<Mark>,
) -> bool {
    &&& s.ts_ms == ts_ms
    &&& s.power_mw == (match (before, energy_reading(d, f, ts_ms)) {
        (Some(prev), Some(now)) => energy_rate(prev, now),
        _ => None,
    })
    &&& s.temp_c == temp_of(d, f)
    &&& s.sm_clock_mhz == act_freq(f.card, d.driver)
    &&& s.throttle == throttle_of(f.card, d.driver)
    &&& s.util_pct is None
    &&& s.util_engine is None
    &&& s.mem_used_bytes is None
    &&& s.fan_pct is None
    &&& s.mem_clock_mhz is None
    &&& s.encoder_pct is None
    &&& s.decoder_pct is None
}

pub struct IntelBackend {
    drm: DrmDevices,
    energy: ById<Mark>,
}

impl IntelBackend {
    pub closed spec fn wf(self) -> bool {
        self.drm.wf() && self.energy.wf()
    }

    pub closed spec fn devs(self) -> Seq<DrmDeviceView> {
        self.drm.devs()
    }

    /// The last reading of process `pid` on device `id`.
    pub closed spec fn mark(self, id: Seq<char>, pid: u32) -> Option<Mark> {
        self.drm.mark(id, pid)
    }

    /// The last energy reading of device `id`.
    pub closed spec fn energy(self, id: Seq<char>) -> Option<Mark> {
        self.energy.at(id)
    }

    pub closed spec fn hint(self) -> Option<Seq<char>> {
        self.drm.hint()
    }

    pub open spec fn device_at(self, id: Seq<char>) -> Option<DrmDeviceView> {
        device_from(self.devs(), id, 0)
    }

    /// The backend of the devices among the cards of a root directory. `status` is the contents of
    /// the own status file.
    pub fn with_root(cards: &Vec<CardFiles>, status: &Option<String>) -> (r: Result<
        Self,
        BackendError,
    >)
        ensures
            match r {
                Ok(b) => {
                    &&& b.wf()
                    &&& found(Family::Intel, card_views(cards@)).len() > 0
                    &&& b.devs() == found(Family::Intel, card_views(cards@))
                    &&& b.hint() == process_hint_text(text_view(*status))
                    &&& forall|id: Seq<char>, pid: u32| #[trigger] b.mark(id, pid) is None
                    &&& forall|id: Seq<char>| #[trigger] b.energy(id) is None
                },
                Err(e) => {
                    &&& found(Family::Intel, card_views(cards@)).len() == 0
                    &&& is_unavailable(e, "no i915/xe devices under sys/class/drm"@)
                },
            },
    {
        match DrmDevices::new(Family::Intel, cards, status) {
            Some(drm) => Ok(IntelBackend { drm, energy: ById::new() }),
            None => {
                let mut why: String = String::new();
                why.append("no i915/xe devices under sys/class/drm");
                assert(why@ =~= "no i915/xe devices under sys/class/drm"@);
                Err(BackendError::Unavailable(why))
            },
        }
    }

    pub fn name(&self) -> (r: &'static str)
        ensures
            r@ == "intel"@,
    {
        "intel"
    }

    /// The identities of the devices.
    pub fn devices(&self) -> (v: Vec<DeviceId>)
        ensures
            v@.len() == self.devs().len(),
            forall|i: int| 0 <= i < v@.len() ==> (#[trigger] v@[i])@ == self.devs()[i].id,
    {
        self.drm.devices()
    }

    /// Where a device's files are.
    pub fn device(&self, dev: &DeviceId) -> (r: Result<&DrmDevice, BackendError>)
        ensures
            match r {
                Ok(d) => self.device_at(dev@) == Some(d@),
                Err(e) => self.device_at(dev@) is None && is_not_found(e, dev@),
            },
    {
        self.drm.device(dev)
    }

    pub fn static_info(&self, dev: &DeviceId, f: &IntelFiles) -> (r: Result<
        StaticInfo,
        BackendError,
    >)
        ensures
            match r {
                Ok(info) => self.device_at(dev@) is Some && describes(
                    info,
                    self.device_at(dev@)->0,
                    *f,
                    self.hint(),
                ),
                Err(e) => self.device_at(dev@) is None && is_not_found(e, dev@),
            },
    {
        let d = match self.drm.device(dev) {
            Ok(d) => d,
            Err(e) => {
                return Err(e);
            },
        };
        let mut backend: String = String::new();
        backend.append("intel");
        assert(backend@ =~= "intel"@);
        Ok(
            StaticInfo {
                id: d.id.clone(),
                vendor: Vendor::Intel,
                name: gpu_name(&f.card.read("device/device")),
                backend,
                mem_total_bytes: match d.driver {
                    Driver::Xe => None,
                    _ => read_u64(&f.card.read("lmem_total_bytes")),
                },
                power_limit_mw: match &d.hwmon {
                    Some(_) => read_mw(&f.sensors.read("power1_max")),
                    None => None,
                },
                max_sm_clock_mhz: max_freq_mhz(&f.card, d.driver),
                temp_slowdown_c: None,
                driver_version: None,
                process_hint: self.drm.process_hint(),
                source_caveat: None,
            },
        )
    }

    pub fn refresh_dynamic(&mut self, dev: &DeviceId, ts_ms: u64, f: &IntelFiles) -> (r: Result<
        DynamicSample,
        BackendError,
    >)
        requires
            old(self).wf(),
        ensures
            final(self).wf(),
            final(self).devs() == old(self).devs(),
            final(self).hint() == old(self).hint(),
            forall|d: Seq<char>, pid: u32| #[trigger]
                final(self).mark(d, pid) == old(self).mark(d, pid),
            forall|d: Seq<char>|
                d != dev@ ==> #[trigger] final(self).energy(d) == old(self).energy(d),
            match r {
                Ok(s) => {
                    let d = old(self).device_at(dev@)->0;
                    &&& old(self).device_at(dev@) is Some
                    &&& samples(s, d, ts_ms, *f, old(self).energy(dev@))
                    &&& final(self).energy(dev@) == energy_after(
                        d,
                        *f,
                        ts_ms,
                        old(self).energy(dev@),
                    )
                    &&& final(self).energy(dev@) == (match energy_reading(d, *f, ts_ms) {
                        Some(m) => Some(m),
                        None => old(self).energy(dev@),
                    })
                },
                Err(e) => {
                    &&& old(self).device_at(dev@) is None
                    &&& is_not_found(e, dev@)
                    &&& final(self).energy(dev@) == old(self).energy(dev@)
                },
            },
    {
        let d = match self.drm.device(dev) {
            Ok(d) => d,
            Err(e) => {
                return Err(e);
            },
        };
        let driver = d.driver;
        let temp_c: Option<MilliC> = match &d.hwmon {
            Some(_) => read_i64(&f.sensors.read(temp_input(driver))),
            None => None,
        };
        let energy_uj: Option<u64> = match &d.hwmon {
            Some(_) => read_u64(&f.sensors.read("energy1_input")),
            None => None,
        };
        let mut power_mw: Option<u32> = None;
        if let Some(cur) = energy_uj {
            if let Some(prev) = self.energy.get(dev) {
                power_mw = energy_delta_mw(prev.count, prev.base, cur, ts_ms);
            }
            self.energy.insert(dev.clone(), Mark { count: cur, base: ts_ms });
        }
        Ok(
            DynamicSample {
                ts_ms,
                util_pct: None,
                util_engine: None,
                mem_used_bytes: None,
                power_mw,
                temp_c,
                fan_pct: None,
                sm_clock_mhz: act_freq_mhz(&f.card, driver),
                mem_clock_mhz: None,
                encoder_pct: None,
                decoder_pct: None,
                throttle: decode_throttle(&f.card, driver),
            },
        )
    }

    /// The processes that use a device, by rising id.
    pub fn refresh_processes(&mut self, dev: &DeviceId, ts_ms: u64, ps: &Vec<PidFiles>) -> (r:
        Result<Vec<ProcessSample>, BackendError>)
        requires
            old(self).wf(),
        ensures
            final(self).wf(),
            final(self).devs() == old(self).devs(),
            final(self).hint() == old(self).hint(),
            forall|d: Seq<char>| #[trigger] final(self).energy(d) == old(self).energy(d),
            forall|d: Seq<char>, pid: u32|
                d != dev@ ==> #[trigger] final(self).mark(d, pid) == old(self).mark(d, pid),
            match r {
                Ok(v) => {
                    &&& old(self).device_at(dev@) is Some
                    &&& lists_processes(
                        proc_views(v@),
                        old(self).device_at(dev@)->0,
                        pid_views(ps@),
                        ts_ms,
                        |pid: u32| old(self).mark(dev@, pid),
                    )
                    &&& forall|pid: u32| #[trigger]
                        final(self).mark(dev@, pid) == scanned_mark(
                            old(self).device_at(dev@)->0,
                            pid_views(ps@),
                            ts_ms,
                            pid,
                            old(self).mark(dev@, pid),
                        )
                },
                Err(e) => {
                    &&& old(self).device_at(dev@) is None
                    &&& is_not_found(e, dev@)
                    &&& forall|pid: u32| #[trigger]
                        final(self).mark(dev@, pid) == old(self).mark(dev@, pid)
                },
            },
    {
        let r = self.drm.refresh_processes(dev, ts_ms, ps);
        proof {
            assert((|pid: u32| old(self).drm.mark(dev@, pid)) =~= (|pid: u32|
                old(self).mark(dev@, pid)));
        }
        r
    }
}

/// Power is measured between two samples that follow one another, whatever was read before them: the
/// energy in between over the time in between, in whole milliwatts below. The first sample of a
/// device, and a device without sensors, show none.
pub proof fn law_power_is_measured_between_two_samples(
    d: DrmDeviceView,
    first: IntelFiles,
    first_ms: u64,
    second: IntelFiles,
    second_ms: u64,
    before: Option<Mark>,
    s: DynamicSample,
)
    requires
        samples(s, d, second_ms, second, energy_after(d, first, first_ms, before)),
    ensures
        d.hwmon is None ==> s.power_mw is None,
        d.hwmon is Some && file_u64(first.sensors.at("energy1_input"@)) is Some && file_u64(
            second.sensors.at("energy1_input"@),
        ) is Some ==> ({
            let uj = file_u64(second.sensors.at("energy1_input"@))->0 - file_u64(
                first.sensors.at("energy1_input"@),
            )->0;
            let ms = second_ms - first_ms;
            &&& s.power_mw is Some <==> ms > 0 && uj >= 0
            &&& s.power_mw matches Some(mw) ==> (uj < 0x1_0000_0000 * ms ==> mw * ms <= uj < (mw
                + 1) * ms)
        }),
        before is None && file_u64(first.sensors.at("energy1_input"@)) is None ==> s.power_mw
            is None,
{
    if let (Some(prev), Some(now)) = (
        energy_reading(d, first, first_ms),
        energy_reading(d, second, second_ms),
    ) {
        law_power_is_energy_over_time(prev, now);
    }
}

/// A device is described by its own files: its own memory where the driver is the one that tells of
/// it, its power limit in whole milliwatts where it has sensors, and the hardware's highest clock.
/// What no file tells is missing.
pub proof fn law_a_description_tells_its_files(
    info: StaticInfo,
    d: DrmDeviceView,
    f: IntelFiles,
    hint: Option<Seq<char>>,
)
    requires
        describes(info, d, f, hint),
    ensures
        info.vendor is Intel && info.id@ == d.id && info.backend@ == "intel"@,
        info.name@ == device_name(f.card.at("device/device"@)),
        d.driver is Xe ==> info.mem_total_bytes is None,
        d.driver is I915 ==> match file_number(f.card.at("lmem_total_bytes"@), u64::MAX as nat) {
            Some(b) => info.mem_total_bytes is Some && info.mem_total_bytes->0 == b,
            None => info.mem_total_bytes is None,
        },
        d.hwmon is None ==> info.power_limit_mw is None,
        d.hwmon is Some ==> match file_number(f.sensors.at("power1_max"@), u64::MAX as nat) {
            Some(uw) => info.power_limit_mw is Some && (uw <= 0x3e7_ffff_ffff
                ==> info.power_limit_mw->0 * 1000 <= uw < info.power_limit_mw->0 * 1000 + 1000),
            None => info.power_limit_mw is None,
        },
        ({
            let top = f.card.at(
                if d.driver is Xe {
                    "device/tile0/gt0/freq0/rp0_freq"@
                } else {
                    "gt_RP0_freq_mhz"@
                },
            );
            match file_number(top, u32::MAX as nat) {
                Some(mhz) => info.max_sm_clock_mhz is Some && info.max_sm_clock_mhz->0 == mhz,
                None => info.max_sm_clock_mhz is None,
            }
        }),
        info.temp_slowdown_c is None && info.driver_version is None && info.source_caveat is None,
        info.process_hint is Some <==> hint is Some,
{
    lemma_number_fits(f.card.at("lmem_total_bytes"@), u64::MAX as nat);
    lemma_number_fits(f.card.at(Clock::Maximum.path_text(d.driver)), u32::MAX as nat);
}

/// A sample of a device shows what its files tell, the temperature of the whole package among it, and
/// nothing else: neither utilization nor memory in use, nor a fan's speed, nor what its engines do.
pub proof fn law_what_no_file_tells_is_missing(
    s: DynamicSample,
    d: DrmDeviceView,
    ts_ms: u64,
    f: IntelFiles,
    before: Option<Mark>,
)
    requires
        samples(s, d, ts_ms, f, before),
    ensures
        s.ts_ms == ts_ms,
        s.util_pct is None && s.util_engine is None && s.mem_used_bytes is None && s.fan_pct is None,
        s.mem_clock_mhz is None && s.encoder_pct is None && s.decoder_pct is None,
        before is None ==> s.power_mw is None,
        d.hwmon is None ==> s.temp_c is None,
        d.hwmon is Some ==> match file_int(
            f.sensors.at(
                if d.driver is Xe {
                    "temp2_input"@
                } else {
                    "temp1_input"@
                },
            ),
        ) {
            Some(t) => s.temp_c is Some && (i64::MIN <= t <= i64::MAX ==> s.temp_c->0 == t),
            None => s.temp_c is None,
        },
{
}

proof fn lemma_number_fits(file: Option<Seq<char>>, max: nat)
    ensures
        file_number(file, max) matches Some(n) ==> n <= max,
{
}

} // verus!
