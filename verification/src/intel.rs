//! Devices of the two Intel drivers.
//!
//! i915 and xe are two dialects: their counters, the paths of their files and the channels of
//! their sensors differ. What is read is chosen by the driver of the device, and a file of the
//! other dialect is never read in its stead. An integrated GPU has no sensors at all: most of what
//! is read here is missing there, and that is its normal state.

use vstd::prelude::*;
use crate::drm::Mark;
use crate::drm::{file_number, hex_id};
use crate::drm::{read_hex_id, read_u32};
use crate::drm_devices::Driver;
use crate::files::Files;
use crate::model::ThrottleReasons;
use crate::model::{no_throttle, text_view};
use crate::text::{chars_of, is_text};

pub mod backend;

verus! {

/// The name of a device that is known by its PCI id. (No list of names ships with the drivers, and
/// a name is never guessed.)
pub open spec fn known_name(device: Seq<char>) -> Option<Seq<char>> {
    if device == "56a0"@ {
        Some("Intel Arc A770"@)
    } else if device == "56a1"@ {
        Some("Intel Arc A750"@)
    } else if device == "56a5"@ {
        Some("Intel Arc A380"@)
    } else if device == "e20b"@ {
        Some("Intel Arc B580"@)
    } else if device == "e20c"@ {
        Some("Intel Arc B570"@)
    } else {
        None
    }
}

pub fn known_gpu_name(device: &str) -> (r: Option<&'static str>)
    ensures
        match r {
            Some(n) => known_name(device@) == Some(n@),
            None => known_name(device@) is None,
        },
{
    let chars: Vec<char> = chars_of(device);
    let id = chars.as_slice();
    if is_text(id, "56a0") {
        Some("Intel Arc A770")
    } else if is_text(id, "56a1") {
        Some("Intel Arc A750")
    } else if is_text(id, "56a5") {
        Some("Intel Arc A380")
    } else if is_text(id, "e20b") {
        Some("Intel Arc B580")
    } else if is_text(id, "e20c") {
        Some("Intel Arc B570")
    } else {
        None
    }
}

/// The name of a device: the one it is known by, else its PCI id.
pub open spec fn device_name(device: Option<Seq<char>>) -> Seq<char> {
    match hex_id(device) {
        Some(id) => match known_name(id) {
            Some(name) => name,
            None => "Intel GPU [8086:"@ + id + "]"@,
        },
        None => "Intel GPU"@,
    }
}

pub fn gpu_name(device: &Option<String>) -> (r: String)
    ensures
        r@ == device_name(text_view(*device)),
{
    let mut out: String = String::new();
    match read_hex_id(device) {
        Some(id) => match known_gpu_name(id.as_str()) {
            Some(name) => {
                out.append(name);
                assert(out@ =~= name@);
            },
            None => {
                out.append("Intel GPU [8086:");
                out.append(id.as_str());
                out.append("]");
                assert(out@ =~= "Intel GPU [8086:"@ + id@ + "]"@);
            },
        },
        None => {
            out.append("Intel GPU");
            assert(out@ =~= "Intel GPU"@);
        },
    }
    out
}

/// Power between two readings of an energy counter: microjoules per millisecond are milliwatts (of
/// more than fit, the low 32 bits). `None` where either did not advance as it must.
pub open spec fn energy_rate(prev: Mark, now: Mark) -> Option<u32> {
    if now.base <= prev.base || now.count < prev.count {
        None
    } else {
        Some(((now.count - prev.count) / (now.base - prev.base)) as u32)
    }
}

pub fn energy_delta_mw(prev_uj: u64, prev_ts_ms: u64, cur_uj: u64, cur_ts_ms: u64) -> (r: Option<
    u32,
>)
    ensures
        r == energy_rate(
            Mark { count: prev_uj, base: prev_ts_ms },
            Mark { count: cur_uj, base: cur_ts_ms },
        ),
{
    if cur_ts_ms <= prev_ts_ms || cur_uj < prev_uj {
        return None;
    }
    Some(((cur_uj - prev_uj) / (cur_ts_ms - prev_ts_ms)) as u32)
}

/// A clock of a device. Its file is below the device's entry in the directory of cards.
#[derive(Clone, Copy, Debug, PartialEq, Eq, Structural)]
pub enum Clock {
    /// The measured clock.
    Actual,
    /// The requested clock.
    Requested,
    /// The hardware's maximum (never the maximum that a user may set).
    Maximum,
}

impl Clock {
    pub open spec fn path_text(self, driver: Driver) -> Seq<char> {
        match driver {
            Driver::Xe => match self {
                Clock::Actual => "device/tile0/gt0/freq0/act_freq"@,
                Clock::Requested => "device/tile0/gt0/freq0/cur_freq"@,
                Clock::Maximum => "device/tile0/gt0/freq0/rp0_freq"@,
            },
            _ => match self {
                Clock::Actual => "gt_act_freq_mhz"@,
                Clock::Requested => "gt_cur_freq_mhz"@,
                Clock::Maximum => "gt_RP0_freq_mhz"@,
            },
        }
    }

    /// Where the clock is read.
    pub fn path(self, driver: Driver) -> (r: &'static str)
        ensures
            r@ == self.path_text(driver),
    {
        match driver {
            Driver::Xe => match self {
                Clock::Actual => "device/tile0/gt0/freq0/act_freq",
                Clock::Requested => "device/tile0/gt0/freq0/cur_freq",
                Clock::Maximum => "device/tile0/gt0/freq0/rp0_freq",
            },
            _ => match self {
                Clock::Actual => "gt_act_freq_mhz",
                Clock::Requested => "gt_cur_freq_mhz",
                Clock::Maximum => "gt_RP0_freq_mhz",
            },
        }
    }
}

/// The number in a file, where it is one of 32 bits.
pub open spec fn file_u32(file: Option<Seq<char>>) -> Option<u32> {
    match file_number(file, u32::MAX as nat) {
        Some(n) => Some(n as u32),
        None => None,
    }
}

/// The clock in a file.
fn read_clock(card: &Files, clock: Clock, driver: Driver) -> (r: Option<u32>)
    ensures
        r == file_u32(card.at(clock.path_text(driver))),
{
    read_u32(&card.read(clock.path(driver)))
}

/// The clock now. A measured zero means that the engine sleeps: it has no clock, and the requested
/// one is no clock of it either. The requested clock stands in only where none is measured.
pub open spec fn act_freq(card: Files, driver: Driver) -> Option<u32> {
    match file_u32(card.at(Clock::Actual.path_text(driver))) {
        Some(mhz) => if mhz == 0 {
            None
        } else {
            Some(mhz)
        },
        None => file_u32(card.at(Clock::Requested.path_text(driver))),
    }
}

pub fn act_freq_mhz(card: &Files, driver: Driver) -> (r: Option<u32>)
    ensures
        r == act_freq(*card, driver),
{
    match read_clock(card, Clock::Actual, driver) {
        Some(mhz) => if mhz == 0 {
            None
        } else {
            Some(mhz)
        },
        None => read_clock(card, Clock::Requested, driver),
    }
}

pub fn max_freq_mhz(card: &Files, driver: Driver) -> (r: Option<u32>)
    ensures
        r == file_u32(card.at(Clock::Maximum.path_text(driver))),
{
    read_clock(card, Clock::Maximum, driver)
}

/// The sensor of the package temperature. The other channels measure other things.
pub open spec fn temp_channel(driver: Driver) -> Seq<char> {
    match driver {
        Driver::Xe => "temp2_input"@,
        _ => "temp1_input"@,
    }
}

pub fn temp_input(driver: Driver) -> (r: &'static str)
    ensures
        r@ == temp_channel(driver),
{
    match driver {
        Driver::Xe => "temp2_input",
        _ => "temp1_input",
    }
}

/// A file of the drivers' throttle interface.
#[derive(Clone, Copy, Debug, PartialEq, Eq, Structural)]
pub enum Flag {
    Status,
    Pl1,
    Pl2,
    Pl4,
    Thermal,
    Prochot,
    Ratl,
    VrThermalert,
    VrTdc,
}

impl Flag {
    pub open spec fn path_text(self, driver: Driver) -> Seq<char> {
        match driver {
            Driver::Xe => match self {
                Flag::Status => "device/tile0/gt0/freq0/throttle/status"@,
                Flag::Pl1 => "device/tile0/gt0/freq0/throttle/reason_pl1"@,
                Flag::Pl2 => "device/tile0/gt0/freq0/throttle/reason_pl2"@,
                Flag::Pl4 => "device/tile0/gt0/freq0/throttle/reason_pl4"@,
                Flag::Thermal => "device/tile0/gt0/freq0/throttle/reason_thermal"@,
                Flag::Prochot => "device/tile0/gt0/freq0/throttle/reason_prochot"@,
                Flag::Ratl => "device/tile0/gt0/freq0/throttle/reason_ratl"@,
                Flag::VrThermalert => "device/tile0/gt0/freq0/throttle/reason_vr_thermalert"@,
                Flag::VrTdc => "device/tile0/gt0/freq0/throttle/reason_vr_tdc"@,
            },
            _ => match self {
                Flag::Status => "gt/gt0/throttle_reason_status"@,
                Flag::Pl1 => "gt/gt0/throttle_reason_pl1"@,
                Flag::Pl2 => "gt/gt0/throttle_reason_pl2"@,
                Flag::Pl4 => "gt/gt0/throttle_reason_pl4"@,
                Flag::Thermal => "gt/gt0/throttle_reason_thermal"@,
                Flag::Prochot => "gt/gt0/throttle_reason_prochot"@,
                Flag::Ratl => "gt/gt0/throttle_reason_ratl"@,
                Flag::VrThermalert => "gt/gt0/throttle_reason_vr_thermalert"@,
                Flag::VrTdc => "gt/gt0/throttle_reason_vr_tdc"@,
            },
        }
    }

    /// Where the flag is read.
    pub fn path(self, driver: Driver) -> (r: &'static str)
        ensures
            r@ == self.path_text(driver),
    {
        match driver {
            Driver::Xe => match self {
                Flag::Status => "device/tile0/gt0/freq0/throttle/status",
                Flag::Pl1 => "device/tile0/gt0/freq0/throttle/reason_pl1",
                Flag::Pl2 => "device/tile0/gt0/freq0/throttle/reason_pl2",
                Flag::Pl4 => "device/tile0/gt0/freq0/throttle/reason_pl4",
                Flag::Thermal => "device/tile0/gt0/freq0/throttle/reason_thermal",
                Flag::Prochot => "device/tile0/gt0/freq0/throttle/reason_prochot",
                Flag::Ratl => "device/tile0/gt0/freq0/throttle/reason_ratl",
                Flag::VrThermalert => "device/tile0/gt0/freq0/throttle/reason_vr_thermalert",
                Flag::VrTdc => "device/tile0/gt0/freq0/throttle/reason_vr_tdc",
            },
            _ => match self {
                Flag::Status => "gt/gt0/throttle_reason_status",
                Flag::Pl1 => "gt/gt0/throttle_reason_pl1",
                Flag::Pl2 => "gt/gt0/throttle_reason_pl2",
                Flag::Pl4 => "gt/gt0/throttle_reason_pl4",
                Flag::Thermal => "gt/gt0/throttle_reason_thermal",
                Flag::Prochot => "gt/gt0/throttle_reason_prochot",
                Flag::Ratl => "gt/gt0/throttle_reason_ratl",
                Flag::VrThermalert => "gt/gt0/throttle_reason_vr_thermalert",
                Flag::VrTdc => "gt/gt0/throttle_reason_vr_tdc",
            },
        }
    }

    /// The flag's file reads one.
    pub open spec fn is_set(self, card: Files, driver: Driver) -> bool {
        file_u32(card.at(self.path_text(driver))) == Some(1u32)
    }

    fn read(self, card: &Files, driver: Driver) -> (r: bool)
        ensures
            r == self.is_set(*card, driver),
    {
        match read_u32(&card.read(self.path(driver))) {
            Some(n) => n == 1,
            None => false,
        }
    }
}

/// The reasons whose files are set. Those that no reason of the model is closer to are others.
pub open spec fn set_reasons(card: Files, driver: Driver) -> ThrottleReasons {
    ThrottleReasons {
        thermal: Flag::Thermal.is_set(card, driver),
        power_cap: Flag::Pl1.is_set(card, driver) || Flag::Pl2.is_set(card, driver)
            || Flag::Pl4.is_set(card, driver),
        hw_slowdown: Flag::Prochot.is_set(card, driver),
        sync_boost: false,
        other: Flag::Ratl.is_set(card, driver) || Flag::VrThermalert.is_set(card, driver)
            || Flag::VrTdc.is_set(card, driver),
    }
}

/// Throttling of a device. Its status decides: where that cannot be read, throttling cannot be
/// observed; where it is zero, the device is observed not to throttle, whatever the reasons' files
/// still hold; where it is one, the device throttles, for the reasons that are set, and where none
/// is, for an unknown one.
pub open spec fn throttle_of(card: Files, driver: Driver) -> Option<ThrottleReasons> {
    match file_u32(card.at(Flag::Status.path_text(driver))) {
        Some(status) => if status == 0 {
            Some(no_throttle())
        } else if status == 1 {
            let t = set_reasons(card, driver);
            Some(ThrottleReasons { other: t.other || !t.is_any(), ..t })
        } else {
            None
        },
        None => None,
    }
}

pub fn decode_throttle(card: &Files, driver: Driver) -> (r: Option<ThrottleReasons>)
    ensures
        r == throttle_of(*card, driver),
{
    let status: u32 = match read_u32(&card.read(Flag::Status.path(driver))) {
        Some(n) => n,
        None => {
            return None;
        },
    };
    if status == 0 {
        return Some(ThrottleReasons::default());
    }
    if status != 1 {
        return None;
    }
    let mut t = ThrottleReasons {
        thermal: Flag::Thermal.read(card, driver),
        power_cap: Flag::Pl1.read(card, driver) || Flag::Pl2.read(card, driver) || Flag::Pl4.read(
            card,
            driver,
        ),
        hw_slowdown: Flag::Prochot.read(card, driver),
        sync_boost: false,
        other: Flag::Ratl.read(card, driver) || Flag::VrThermalert.read(card, driver)
            || Flag::VrTdc.read(card, driver),
    };
    if !t.any() {
        t.other = true;
    }
    Some(t)
}

/// A device that throttles is never shown as one that does not, nor the other way round.
pub proof fn law_the_status_decides(card: Files, driver: Driver)
    ensures
        match file_u32(card.at(Flag::Status.path_text(driver))) {
            Some(status) => {
                &&& status == 0 ==> throttle_of(card, driver) == Some(no_throttle())
                &&& status == 1 ==> throttle_of(card, driver) is Some && throttle_of(
                    card,
                    driver,
                )->0.is_any()
                &&& status > 1 ==> throttle_of(card, driver) is None
            },
            None => throttle_of(card, driver) is None,
        },
{
}

/// The two drivers share no file: neither is read for the other's device.
pub proof fn law_the_dialects_are_disjoint(a: Clock, b: Clock, f: Flag, g: Flag)
    ensures
        a.path_text(Driver::I915) != b.path_text(Driver::Xe),
        f.path_text(Driver::I915) != g.path_text(Driver::Xe),
        temp_channel(Driver::I915) != temp_channel(Driver::Xe),
{
    lemma_paths(a, f);
    lemma_paths(b, g);
    reveal_strlit("temp1_input");
    reveal_strlit("temp2_input");
    assert("temp1_input"@[4] == '1' && "temp2_input"@[4] == '2');
}

/// The paths of one driver start with another letter than those of the other.
proof fn lemma_paths(a: Clock, f: Flag)
    ensures
        a.path_text(Driver::I915)[0] == 'g',
        f.path_text(Driver::I915)[0] == 'g',
        a.path_text(Driver::Xe)[0] == 'd',
        f.path_text(Driver::Xe)[0] == 'd',
{
    reveal_strlit("gt_act_freq_mhz");
    reveal_strlit("gt_cur_freq_mhz");
    reveal_strlit("gt_RP0_freq_mhz");
    reveal_strlit("device/tile0/gt0/freq0/act_freq");
    reveal_strlit("device/tile0/gt0/freq0/cur_freq");
    reveal_strlit("device/tile0/gt0/freq0/rp0_freq");
    reveal_strlit("gt/gt0/throttle_reason_status");
    reveal_strlit("gt/gt0/throttle_reason_pl1");
    reveal_strlit("gt/gt0/throttle_reason_pl2");
    reveal_strlit("gt/gt0/throttle_reason_pl4");
    reveal_strlit("gt/gt0/throttle_reason_thermal");
    reveal_strlit("gt/gt0/throttle_reason_prochot");
    reveal_strlit("gt/gt0/throttle_reason_ratl");
    reveal_strlit("gt/gt0/throttle_reason_vr_thermalert");
    reveal_strlit("gt/gt0/throttle_reason_vr_tdc");
    reveal_strlit("device/tile0/gt0/freq0/throttle/status");
    reveal_strlit("device/tile0/gt0/freq0/throttle/reason_pl1");
    reveal_strlit("device/tile0/gt0/freq0/throttle/reason_pl2");
    reveal_strlit("device/tile0/gt0/freq0/throttle/reason_pl4");
    reveal_strlit("device/tile0/gt0/freq0/throttle/reason_thermal");
    reveal_strlit("device/tile0/gt0/freq0/throttle/reason_prochot");
    reveal_strlit("device/tile0/gt0/freq0/throttle/reason_ratl");
    reveal_strlit("device/tile0/gt0/freq0/throttle/reason_vr_thermalert");
    reveal_strlit("device/tile0/gt0/freq0/throttle/reason_vr_tdc");
}

/// Power is the energy between two readings over the time between them, in whole milliwatts below:
/// a thousand microjoules in a millisecond are a watt. The same power shows over intervals of any
/// length. There is one wherever time went on and the counter did not go back.
pub proof fn law_power_is_energy_over_time(prev: Mark, now: Mark)
    ensures
        energy_rate(prev, now) is Some <==> now.base > prev.base && now.count >= prev.count,
        energy_rate(prev, now) matches Some(mw) ==> ({
            let uj = now.count - prev.count;
            let ms = now.base - prev.base;
            uj < 0x1_0000_0000 * ms ==> mw * ms <= uj < (mw + 1) * ms
        }),
{
    if now.base > prev.base && now.count >= prev.count {
        let uj = (now.count - prev.count) as int;
        let ms = (now.base - prev.base) as int;
        let q = uj / ms;
        vstd::arithmetic::div_mod::lemma_fundamental_div_mod(uj, ms);
        assert(q * ms <= uj < (q + 1) * ms) by (nonlinear_arith)
            requires
                uj == ms * q + uj % ms,
                0 <= uj % ms < ms,
        ;
        assert(uj < 0x1_0000_0000 * ms ==> 0 <= q < 0x1_0000_0000) by (nonlinear_arith)
            requires
                q * ms <= uj < (q + 1) * ms,
                uj >= 0,
                ms > 0,
        ;
    }
}

/// Where the status says that a device throttles, each file of a reason shows the reason that it is
/// named for: three power limits, heat, a signal that forces the clocks down, and the rest as
/// others. Where none of them does, the reason is another one.
pub proof fn law_each_file_shows_its_reason(card: Files)
    ensures
        ({
            let one = |path: Seq<char>| file_u32(card.at(path)) == Some(1u32);
            let t = throttle_of(card, Driver::I915);
            let power = one("gt/gt0/throttle_reason_pl1"@) || one("gt/gt0/throttle_reason_pl2"@) || one("gt/gt0/throttle_reason_pl4"@);
            let heat = one("gt/gt0/throttle_reason_thermal"@);
            let prochot = one("gt/gt0/throttle_reason_prochot"@);
            let rest = one("gt/gt0/throttle_reason_ratl"@) || one("gt/gt0/throttle_reason_vr_thermalert"@) || one("gt/gt0/throttle_reason_vr_tdc"@);
            one("gt/gt0/throttle_reason_status"@) ==> t is Some && {
                &&& t->0.thermal == heat
                &&& t->0.power_cap == power
                &&& t->0.hw_slowdown == prochot
                &&& !t->0.sync_boost
                &&& t->0.other == (rest || !(heat || power || prochot))
            }
        }),
        ({
            let one = |path: Seq<char>| file_u32(card.at(path)) == Some(1u32);
            let t = throttle_of(card, Driver::Xe);
            let power = one("device/tile0/gt0/freq0/throttle/reason_pl1"@) || one("device/tile0/gt0/freq0/throttle/reason_pl2"@) || one("device/tile0/gt0/freq0/throttle/reason_pl4"@);
            let heat = one("device/tile0/gt0/freq0/throttle/reason_thermal"@);
            let prochot = one("device/tile0/gt0/freq0/throttle/reason_prochot"@);
            let rest = one("device/tile0/gt0/freq0/throttle/reason_ratl"@) || one("device/tile0/gt0/freq0/throttle/reason_vr_thermalert"@) || one("device/tile0/gt0/freq0/throttle/reason_vr_tdc"@);
            one("device/tile0/gt0/freq0/throttle/status"@) ==> t is Some && {
                &&& t->0.thermal == heat
                &&& t->0.power_cap == power
                &&& t->0.hw_slowdown == prochot
                &&& !t->0.sync_boost
                &&& t->0.other == (rest || !(heat || power || prochot))
            }
        }),
{
}

/// The clock is the measured one where it is more than zero; a measured zero is no clock; and only
/// where none is measured the requested one stands in.
pub proof fn law_the_measured_clock_comes_first(card: Files)
    ensures
        file_u32(card.at("gt_act_freq_mhz"@)) matches Some(mhz) ==> act_freq(card, Driver::I915)
            == (if mhz > 0 {
            Some(mhz)
        } else {
            None
        }),
        file_u32(card.at("gt_act_freq_mhz"@)) is None ==> act_freq(card, Driver::I915) == file_u32(
            card.at("gt_cur_freq_mhz"@),
        ),
        file_u32(card.at("device/tile0/gt0/freq0/act_freq"@)) matches Some(mhz) ==> act_freq(
            card,
            Driver::Xe,
        ) == (if mhz > 0 {
            Some(mhz)
        } else {
            None
        }),
        file_u32(card.at("device/tile0/gt0/freq0/act_freq"@)) is None ==> act_freq(card, Driver::Xe)
            == file_u32(card.at("device/tile0/gt0/freq0/cur_freq"@)),
{
}

/// A device is known by the name of its id, and one whose id has no name shows the id, in brackets
/// and behind that of the vendor; one without an id shows the vendor alone.
pub proof fn law_a_known_id_has_its_name(device: Option<Seq<char>>)
    ensures
        hex_id(device) is None ==> device_name(device) == "Intel GPU"@,
        hex_id(device) matches Some(id) ==> {
            &&& id == "56a0"@ ==> device_name(device) == "Intel Arc A770"@
            &&& id == "56a1"@ ==> device_name(device) == "Intel Arc A750"@
            &&& id == "56a5"@ ==> device_name(device) == "Intel Arc A380"@
            &&& id == "e20b"@ ==> device_name(device) == "Intel Arc B580"@
            &&& id == "e20c"@ ==> device_name(device) == "Intel Arc B570"@
            &&& id != "56a0"@ && id != "56a1"@ && id != "56a5"@ && id != "e20b"@ && id != "e20c"@
                ==> device_name(device) == "Intel GPU [8086:"@ + id + "]"@
        },
{
    reveal_strlit("56a0");
    reveal_strlit("56a1");
    reveal_strlit("56a5");
    reveal_strlit("e20b");
    reveal_strlit("e20c");
    assert("56a0"@[3] == '0' && "56a1"@[3] == '1' && "56a5"@[3] == '5');
    assert("e20b"@[3] == 'b' && "e20c"@[3] == 'c');
}

} // verus!
