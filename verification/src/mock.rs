//! A simulated backend: two devices that need no hardware.
//!
//! One device trains: it is busy but for gaps, its memory fills up, and it gets hot enough to
//! throttle. The other one is a desktop on which a model server comes and goes. The simulation
//! depends on nothing but the number of steps, so a story that it tells can be told again.

use vstd::prelude::*;
use crate::backend::BackendError;
use crate::backend::is_not_found;
use crate::model::{DeviceId, DynamicSample, MilliC, MilliPct, ProcView, ProcessKind, ProcessSample, StaticInfo, ThrottleReasons, Vendor};
use crate::model::{no_throttle, proc_views, text_view};
use crate::pci::law_synthetic_ids_are_refused;
use crate::pci::normalized;
use crate::text::is_hex_digit;
use crate::text::{chars_of, is_text};

verus! {

pub const MIB: u64 = 0x10_0000;

pub const GIB: u64 = 0x4000_0000;

/// The next number of the generator.
pub open spec fn xorshift(x: u64) -> u64 {
    let a = x ^ (x << 13);
    let b = a ^ (a >> 7);
    b ^ (b << 17)
}

/// The number of the generator as a place in a range: its upper 53 bits, as a fraction of the
/// whole.
pub open spec fn place(x: u64, lo: int, hi: int) -> u64 {
    (lo + ((x >> 11) * (hi - lo)) / 0x20_0000_0000_0000) as u64
}

/// A generator of numbers that look random.
#[derive(Clone, Copy, Debug, PartialEq, Eq, Structural)]
pub struct Rng(pub u64);

impl Rng {
    pub fn next(&mut self) -> (r: u64)
        ensures
            r == xorshift(old(self).0),
            final(self).0 == r,
    {
        let mut x: u64 = self.0;
        x = x ^ (x << 13);
        x = x ^ (x >> 7);
        x = x ^ (x << 17);
        self.0 = x;
        x
    }

    /// A number of the range, the upper end excluded.
    pub fn range(&mut self, lo: u64, hi: u64) -> (r: u64)
        requires
            lo < hi,
        ensures
            final(self).0 == xorshift(old(self).0),
            r == place(final(self).0, lo as int, hi as int),
            lo <= r < hi,
    {
        let x: u64 = self.next();
        let top: u64 = x >> 11;
        assert(x >> 11 < 0x20_0000_0000_0000) by (bit_vector);
        let width: u64 = hi - lo;
        assert(top as u128 * width as u128 <= 0x20_0000_0000_0000 * u64::MAX) by (nonlinear_arith)
            requires
                top < 0x20_0000_0000_0000,
                width <= u64::MAX,
        ;
        let product: u128 = top as u128 * width as u128;
        assert(product < 0x20_0000_0000_0000 * width) by (nonlinear_arith)
            requires
                product == top * width,
                top < 0x20_0000_0000_0000,
                width > 0,
        ;
        let offset: u64 = (product / 0x20_0000_0000_0000) as u64;
        lo + offset
    }
}

/// Every number of the generator lies in the range that it is asked for.
pub proof fn law_numbers_stay_in_their_range(x: u64, lo: u64, hi: u64)
    requires
        lo < hi,
    ensures
        lo <= place(x, lo as int, hi as int) < hi,
{
    let top = x >> 11;
    assert(x >> 11 < 0x20_0000_0000_0000) by (bit_vector);
    assert(0 <= top * (hi - lo) < 0x20_0000_0000_0000 * (hi - lo)) by (nonlinear_arith)
        requires
            0 <= top < 0x20_0000_0000_0000,
            hi > lo,
    ;
}

/// The metrics of a simulated device at a tick.
#[verifier::ext_equal]
pub struct Metrics {
    pub util_pct: MilliPct,
    pub mem_used_bytes: u64,
    pub power_mw: u32,
    pub temp_c: MilliC,
    pub fan_pct: MilliPct,
    pub sm_clock_mhz: u32,
    pub mem_clock_mhz: Option<u32>,
    /// Encoder and decoder, both idle, where the device has them.
    pub codecs: bool,
    pub throttle: ThrottleReasons,
}

/// A sample of the metrics. A simulated device always observes throttling.
pub open spec fn samples(s: DynamicSample, ts_ms: u64, m: Metrics) -> bool {
    &&& s.ts_ms == ts_ms
    &&& s.util_pct == Some(m.util_pct)
    &&& s.util_engine is None
    &&& s.mem_used_bytes == Some(m.mem_used_bytes)
    &&& s.power_mw == Some(m.power_mw)
    &&& s.temp_c == Some(m.temp_c)
    &&& s.fan_pct == Some(m.fan_pct)
    &&& s.sm_clock_mhz == Some(m.sm_clock_mhz)
    &&& s.mem_clock_mhz == m.mem_clock_mhz
    &&& s.encoder_pct == (if m.codecs {
        Some(0 as MilliPct)
    } else {
        None
    })
    &&& s.decoder_pct == s.encoder_pct
    &&& s.throttle == Some(m.throttle)
}

/// The device that trains. Temperature and fan are in millionths.
#[derive(Clone, Copy, Debug, PartialEq, Eq, Structural)]
pub struct TrainSim {
    pub rng: Rng,
    pub tick: u64,
    pub temp_uc: u64,
    pub vram_python: u64,
    pub throttling: bool,
    pub fan_upct: u64,
    /// The step at which the gap ends; zero outside of one.
    pub idle_until: u64,
}

/// The start of the simulation.
pub open spec fn train_start() -> TrainSim {
    TrainSim {
        rng: Rng(0x9E37_79B9_7F4A_7C15),
        tick: 0,
        temp_uc: 52_000_000,
        vram_python: 20_615_843_020,
        throttling: false,
        fan_upct: 35_000_000,
        idle_until: 0,
    }
}

impl TrainSim {
    /// The ranges in which the simulation stays.
    pub open spec fn wf(self) -> bool {
        &&& 40_000_000 <= self.temp_uc <= 93_000_000
        &&& 28_000_000 <= self.fan_upct <= 100_000_000
        &&& self.vram_python <= 24_481_313_587
    }

    /// It is in a gap.
    pub open spec fn idle(self) -> bool {
        self.idle_until > self.tick
    }

    /// The step and the gap: every ninetieth step starts one of eight to twenty steps, where none
    /// is going on.
    pub open spec fn paced(self) -> TrainSim {
        let tick = (self.tick + 1) as u64;
        let starts = self.idle_until == 0 && tick % 90 == 0;
        let x = xorshift(self.rng.0);
        let until = if starts {
            (tick + 8 + x % 13) as u64
        } else {
            self.idle_until
        };
        TrainSim {
            rng: if starts {
                Rng(x)
            } else {
                self.rng
            },
            tick,
            idle_until: if until > tick {
                until
            } else {
                0
            },
            ..self
        }
    }

    /// The utilization.
    pub open spec fn worked(self) -> (TrainSim, u64) {
        let x = xorshift(self.rng.0);
        (
            TrainSim { rng: Rng(x), ..self },
            if self.idle() {
                place(x, 0, 4_000)
            } else {
                place(x, 91_000, 99_500)
            },
        )
    }

    /// The memory: it grows by three to six MiB, and starts over when the device is almost full.
    pub open spec fn filled(self) -> TrainSim {
        let x = xorshift(self.rng.0);
        let grown = (self.vram_python + place(x, 3 * MIB, 6 * MIB)) as u64;
        TrainSim {
            rng: Rng(x),
            vram_python: if grown > 24_481_313_587 {
                17_716_740_096
            } else {
                grown
            },
            ..self
        }
    }

    /// The heat: the temperature goes a part of the way to where the work takes it, the fan cools,
    /// and the fan goes a part of the way to what the temperature asks of it. At 84 degrees the
    /// device starts to throttle, and at 79 degrees it stops.
    pub open spec fn heated(self) -> TrainSim {
        let x = xorshift(self.rng.0);
        let target = if self.idle() {
            48_000_000
        } else {
            87_000_000int
        };
        let temp = (self.temp_uc * 9_400 + target * 600 + 360_000_000 - self.fan_upct * 12) / 10_000
            + place(x, 0, 600_000) - 300_000;
        let excess = if temp > 55_000_000 {
            temp - 55_000_000
        } else {
            0
        };
        let fan = (self.fan_upct * 920 + excess * 208) / 1_000;
        TrainSim {
            rng: Rng(x),
            temp_uc: temp as u64,
            fan_upct: if fan < 28_000_000 {
                28_000_000
            } else if fan > 100_000_000 {
                100_000_000
            } else {
                fan as u64
            },
            throttling: if self.throttling {
                temp > 79_000_000
            } else {
                temp >= 84_000_000
            },
            ..self
        }
    }

    /// The clock.
    pub open spec fn clocked(self) -> (TrainSim, u64) {
        let x = xorshift(self.rng.0);
        (
            TrainSim { rng: Rng(x), ..self },
            if self.throttling {
                place(x, 1_750, 1_860)
            } else if self.idle() {
                place(x, 210, 420)
            } else {
                place(x, 2_430, 2_520)
            },
        )
    }

    /// The power.
    pub open spec fn powered(self) -> (TrainSim, u64) {
        let x = xorshift(self.rng.0);
        (
            TrainSim { rng: Rng(x), ..self },
            if self.idle() {
                place(x, 28_000, 45_000)
            } else if self.throttling {
                place(x, 300_000, 330_000)
            } else {
                place(x, 390_000, 448_000)
            },
        )
    }

    /// The simulation after a step, and the metrics of the step.
    pub open spec fn stepped(self) -> (TrainSim, Metrics) {
        let (a, util) = self.paced().worked();
        let b = a.filled().heated();
        let (c, clock) = b.clocked();
        let (d, power) = c.powered();
        (
            d,
            Metrics {
                util_pct: util as MilliPct,
                mem_used_bytes: (d.vram_python + 700 * MIB) as u64,
                power_mw: power as u32,
                temp_c: (d.temp_uc / 1_000) as MilliC,
                fan_pct: (d.fan_upct / 1_000) as MilliPct,
                sm_clock_mhz: clock as u32,
                mem_clock_mhz: Some(10_500),
                codecs: true,
                throttle: ThrottleReasons { thermal: d.throttling, ..no_throttle() },
            },
        )
    }

    /// The processes: one that trains, and the display's.
    pub open spec fn process_views(self) -> Seq<ProcView> {
        seq![
            ProcView {
                pid: 4521,
                name: "python"@,
                kind: ProcessKind::Compute,
                mem_bytes: Some(self.vram_python),
                util_pct: Some(
                    if self.idle() {
                        1_000 as MilliPct
                    } else {
                        96_000
                    },
                ),
                cpu_pct: Some(
                    if self.idle() {
                        320_000 as MilliPct
                    } else {
                        180_000
                    },
                ),
                container: None,
            },
            ProcView {
                pid: 1203,
                name: "Xorg"@,
                kind: ProcessKind::Graphics,
                mem_bytes: Some((420 * MIB) as u64),
                util_pct: Some(2_000),
                cpu_pct: Some(6_000),
                container: None,
            },
        ]
    }

    fn pace(&mut self)
        requires
            old(self).tick <= u64::MAX - 100,
        ensures
            *final(self) == old(self).paced(),
    {
        self.tick = self.tick + 1;
        if self.idle_until == 0 && self.tick % 90 == 0 {
            let x: u64 = self.rng.next();
            self.idle_until = self.tick + 8 + x % 13;
        }
        if !(self.idle_until > self.tick) {
            self.idle_until = 0;
        }
    }

    fn heat(&mut self)
        requires
            old(self).wf(),
        ensures
            *final(self) == old(self).heated(),
            final(self).wf(),
    {
        let target: u64 = if self.idle_until > self.tick {
            48_000_000
        } else {
            87_000_000
        };
        let pull: u64 = (self.temp_uc * 9_400 + target * 600 + 360_000_000 - self.fan_upct * 12)
            / 10_000;
        let noise: u64 = self.rng.range(0, 600_000);
        let temp: u64 = pull + noise - 300_000;
        let excess: u64 = if temp > 55_000_000 {
            temp - 55_000_000
        } else {
            0
        };
        let fan: u64 = (self.fan_upct * 920 + excess * 208) / 1_000;
        self.temp_uc = temp;
        self.fan_upct = if fan < 28_000_000 {
            28_000_000
        } else if fan > 100_000_000 {
            100_000_000
        } else {
            fan
        };
        self.throttling = if self.throttling {
            temp > 79_000_000
        } else {
            temp >= 84_000_000
        };
    }

    /// One step.
    pub fn step(&mut self, ts_ms: u64) -> (r: DynamicSample)
        requires
            old(self).wf(),
            old(self).tick <= u64::MAX - 100,
        ensures
            final(self).wf(),
            *final(self) == old(self).stepped().0,
            samples(r, ts_ms, old(self).stepped().1),
            final(self).tick == old(self).tick + 1,
    {
        self.pace();
        let idle: bool = self.idle_until > self.tick;
        let util: u64 = if idle {
            self.rng.range(0, 4_000)
        } else {
            self.rng.range(91_000, 99_500)
        };
        let growth: u64 = self.rng.range(3 * MIB, 6 * MIB);
        let grown: u64 = self.vram_python + growth;
        self.vram_python = if grown > 24_481_313_587 {
            17_716_740_096
        } else {
            grown
        };
        self.heat();
        let clock: u64 = if self.throttling {
            self.rng.range(1_750, 1_860)
        } else if idle {
            self.rng.range(210, 420)
        } else {
            self.rng.range(2_430, 2_520)
        };
        let power: u64 = if idle {
            self.rng.range(28_000, 45_000)
        } else if self.throttling {
            self.rng.range(300_000, 330_000)
        } else {
            self.rng.range(390_000, 448_000)
        };
        DynamicSample {
            ts_ms,
            util_pct: Some(util as MilliPct),
            util_engine: None,
            mem_used_bytes: Some(self.vram_python + 700 * MIB),
            power_mw: Some(power as u32),
            temp_c: Some((self.temp_uc / 1_000) as MilliC),
            fan_pct: Some((self.fan_upct / 1_000) as MilliPct),
            sm_clock_mhz: Some(clock as u32),
            mem_clock_mhz: Some(10_500),
            encoder_pct: Some(0),
            decoder_pct: Some(0),
            throttle: Some(
                ThrottleReasons {
                    thermal: self.throttling,
                    power_cap: false,
                    hw_slowdown: false,
                    sync_boost: false,
                    other: false,
                },
            ),
        }
    }

    pub fn processes(&self) -> (v: Vec<ProcessSample>)
        ensures
            proc_views(v@) == self.process_views(),
    {
        let idle: bool = self.idle_until > self.tick;
        let mut v: Vec<ProcessSample> = Vec::new();
        v.push(
            ProcessSample {
                pid: 4521,
                name: text("python"),
                kind: ProcessKind::Compute,
                mem_bytes: Some(self.vram_python),
                util_pct: Some(
                    if idle {
                        1_000
                    } else {
                        96_000
                    },
                ),
                cpu_pct: Some(
                    if idle {
                        320_000
                    } else {
                        180_000
                    },
                ),
                container: None,
            },
        );
        v.push(
            ProcessSample {
                pid: 1203,
                name: text("Xorg"),
                kind: ProcessKind::Graphics,
                mem_bytes: Some(420 * MIB),
                util_pct: Some(2_000),
                cpu_pct: Some(6_000),
                container: None,
            },
        );
        assert(proc_views(v@) =~= self.process_views());
        v
    }
}

/// A text of one's own.
fn text(s: &'static str) -> (r: String)
    ensures
        r@ == s@,
{
    let mut out: String = String::new();
    out.append(s);
    assert(out@ =~= s@);
    out
}

/// The desktop. Utilization is in thousandths of a percent.
#[derive(Clone, Copy, Debug, PartialEq, Eq, Structural)]
pub struct DesktopSim {
    pub rng: Rng,
    pub tick: u64,
    pub ollama_present: bool,
    pub ollama_toggle_at: u64,
    pub util_level: u64,
}

/// The start of the simulation.
pub open spec fn desktop_start() -> DesktopSim {
    DesktopSim {
        rng: Rng(0xD1B5_4A32_D192_ED03),
        tick: 0,
        ollama_present: false,
        ollama_toggle_at: 45,
        util_level: 12_000,
    }
}

impl DesktopSim {
    /// The range in which the simulation stays.
    pub open spec fn wf(self) -> bool {
        self.util_level <= 100_000
    }

    /// The step, and the model server, which comes for at least seventy steps and goes for at least
    /// fifty.
    pub open spec fn paced(self) -> DesktopSim {
        let tick = (self.tick + 1) as u64;
        if tick >= self.ollama_toggle_at {
            let x = xorshift(self.rng.0);
            DesktopSim {
                rng: Rng(x),
                tick,
                ollama_present: !self.ollama_present,
                ollama_toggle_at: (tick + (if self.ollama_present {
                    50
                } else {
                    70int
                }) + x % 30) as u64,
                ..self
            }
        } else {
            DesktopSim { tick, ..self }
        }
    }

    /// The utilization: it goes a part of the way to what is asked of the device.
    pub open spec fn worked(self) -> DesktopSim {
        let x = xorshift(self.rng.0);
        let target = if self.ollama_present {
            place(x, 55_000, 92_000)
        } else {
            place(x, 3_000, 28_000)
        };
        DesktopSim {
            rng: Rng(x),
            util_level: ((self.util_level * 7 + target * 3) / 10) as u64,
            ..self
        }
    }

    /// The memory in use.
    pub open spec fn used(self) -> (DesktopSim, u64) {
        if self.ollama_present {
            let x = xorshift(self.rng.0);
            (
                DesktopSim { rng: Rng(x), ..self },
                (13_099_650_253 + place(x, 0, 429_496_729)) as u64,
            )
        } else {
            (self, 1_181_116_006)
        }
    }

    /// The simulation after a step, and the metrics of the step.
    pub open spec fn stepped(self) -> (DesktopSim, Metrics) {
        let (d, used) = self.paced().worked().used();
        let on = d.ollama_present;
        (
            d,
            Metrics {
                util_pct: d.util_level as MilliPct,
                mem_used_bytes: used,
                power_mw: if on {
                    248_000
                } else {
                    41_000
                },
                temp_c: if on {
                    71_000
                } else {
                    44_000
                },
                fan_pct: if on {
                    58_000
                } else {
                    0
                },
                sm_clock_mhz: if on {
                    2_390
                } else {
                    350
                },
                mem_clock_mhz: None,
                codecs: false,
                throttle: no_throttle(),
            },
        )
    }

    /// The processes: the desktop's, and the model server while it is there.
    pub open spec fn process_views(self) -> Seq<ProcView> {
        let shell = ProcView {
            pid: 980,
            name: "gnome-shell"@,
            kind: ProcessKind::Graphics,
            mem_bytes: Some((610 * MIB) as u64),
            util_pct: Some(3_000),
            cpu_pct: Some(12_000),
            container: None,
        };
        let ollama = ProcView {
            pid: 7777,
            name: "ollama"@,
            kind: ProcessKind::Compute,
            mem_bytes: Some((11 * GIB + 350 * MIB) as u64),
            util_pct: Some(74_000),
            cpu_pct: Some(140_000),
            container: Some("docker:3f2a9c1b4d5e"@),
        };
        if self.ollama_present {
            seq![shell, ollama]
        } else {
            seq![shell]
        }
    }

    /// One step.
    pub fn step(&mut self, ts_ms: u64) -> (r: DynamicSample)
        requires
            old(self).wf(),
            old(self).tick <= u64::MAX - 200,
        ensures
            final(self).wf(),
            *final(self) == old(self).stepped().0,
            samples(r, ts_ms, old(self).stepped().1),
            final(self).tick == old(self).tick + 1,
    {
        self.tick = self.tick + 1;
        if self.tick >= self.ollama_toggle_at {
            self.ollama_present = !self.ollama_present;
            let hold: u64 = if self.ollama_present {
                70
            } else {
                50
            };
            let x: u64 = self.rng.next();
            self.ollama_toggle_at = self.tick + hold + x % 30;
        }
        let on: bool = self.ollama_present;
        let target: u64 = if on {
            self.rng.range(55_000, 92_000)
        } else {
            self.rng.range(3_000, 28_000)
        };
        self.util_level = (self.util_level * 7 + target * 3) / 10;
        let used: u64 = if on {
            13_099_650_253 + self.rng.range(0, 429_496_729)
        } else {
            1_181_116_006
        };
        DynamicSample {
            ts_ms,
            util_pct: Some(self.util_level as MilliPct),
            util_engine: None,
            mem_used_bytes: Some(used),
            power_mw: Some(
                if on {
                    248_000
                } else {
                    41_000
                },
            ),
            temp_c: Some(
                if on {
                    71_000
                } else {
                    44_000
                },
            ),
            fan_pct: Some(
                if on {
                    58_000
                } else {
                    0
                },
            ),
            sm_clock_mhz: Some(
                if on {
                    2_390
                } else {
                    350
                },
            ),
            mem_clock_mhz: None,
            encoder_pct: None,
            decoder_pct: None,
            throttle: Some(ThrottleReasons::default()),
        }
    }

    pub fn processes(&self) -> (v: Vec<ProcessSample>)
        ensures
            proc_views(v@) == self.process_views(),
    {
        let mut v: Vec<ProcessSample> = Vec::new();
        v.push(
            ProcessSample {
                pid: 980,
                name: text("gnome-shell"),
                kind: ProcessKind::Graphics,
                mem_bytes: Some(610 * MIB),
                util_pct: Some(3_000),
                cpu_pct: Some(12_000),
                container: None,
            },
        );
        if self.ollama_present {
            v.push(
                ProcessSample {
                    pid: 7777,
                    name: text("ollama"),
                    kind: ProcessKind::Compute,
                    mem_bytes: Some(11 * GIB + 350 * MIB),
                    util_pct: Some(74_000),
                    cpu_pct: Some(140_000),
                    container: Some(text("docker:3f2a9c1b4d5e")),
                },
            );
        }
        assert(proc_views(v@) =~= self.process_views());
        v
    }
}

/// Throttling starts only at 84 degrees, and stops only at 79.
pub proof fn law_throttling_has_hysteresis(s: TrainSim)
    requires
        s.wf(),
    ensures
        s.heated().wf(),
        !s.throttling && s.heated().throttling ==> s.heated().temp_uc >= 84_000_000,
        s.throttling && !s.heated().throttling ==> s.heated().temp_uc <= 79_000_000,
        s.heated().throttling <==> s.heated().temp_uc >= 84_000_000 || (s.throttling
            && s.heated().temp_uc > 79_000_000),
{
    law_numbers_stay_in_their_range(xorshift(s.rng.0), 0, 600_000);
}

/// A gap lasts eight to twenty steps.
pub proof fn law_gaps_are_short(s: TrainSim)
    requires
        s.tick <= u64::MAX - 100,
        s.idle_until == 0,
    ensures
        s.paced().idle() <==> s.paced().tick % 90 == 0,
        s.paced().idle() ==> 8 <= s.paced().idle_until - s.paced().tick <= 20,
{
}

/// The metrics of the device that trains tell the state it is in: an idle one hardly works and draws
/// little, one that works is nearly full, and one that throttles is clocked down and says that it
/// is for heat.
pub proof fn law_the_metrics_tell_the_state(s: TrainSim)
    requires
        s.wf(),
        s.tick <= u64::MAX - 100,
    ensures
        ({
            let (d, m) = s.stepped();
            &&& m.throttle == (ThrottleReasons { thermal: d.throttling, ..no_throttle() })
            &&& m.temp_c * 1_000 <= d.temp_uc < m.temp_c * 1_000 + 1_000
            &&& m.mem_used_bytes == d.vram_python + 734_003_200
            &&& if d.idle() {
                0 <= m.util_pct < 4_000 && 28_000 <= m.power_mw < 45_000
            } else {
                91_000 <= m.util_pct < 99_500 && m.power_mw >= 300_000
            }
            &&& if d.throttling {
                1_750 <= m.sm_clock_mhz < 1_860
            } else if d.idle() {
                210 <= m.sm_clock_mhz < 420
            } else {
                2_430 <= m.sm_clock_mhz < 2_520
            }
            &&& !d.idle() && d.throttling ==> m.power_mw < 330_000
            &&& !d.idle() && !d.throttling ==> 390_000 <= m.power_mw < 448_000
        }),
{
    let p = s.paced();
    let (a, util) = p.worked();
    law_numbers_stay_in_their_range(xorshift(p.rng.0), 0, 4_000);
    law_numbers_stay_in_their_range(xorshift(p.rng.0), 91_000, 99_500);
    let f = a.filled();
    law_numbers_stay_in_their_range(xorshift(a.rng.0), (3 * MIB) as u64, (6 * MIB) as u64);
    law_throttling_has_hysteresis(f);
    let b = f.heated();
    law_numbers_stay_in_their_range(xorshift(b.rng.0), 1_750, 1_860);
    law_numbers_stay_in_their_range(xorshift(b.rng.0), 210, 420);
    law_numbers_stay_in_their_range(xorshift(b.rng.0), 2_430, 2_520);
    let (c, clock) = b.clocked();
    law_numbers_stay_in_their_range(xorshift(c.rng.0), 28_000, 45_000);
    law_numbers_stay_in_their_range(xorshift(c.rng.0), 300_000, 330_000);
    law_numbers_stay_in_their_range(xorshift(c.rng.0), 390_000, 448_000);
}

/// What a step gives of one device: its identity, its metrics and its processes.
#[derive(Debug, PartialEq, Eq)]
pub struct MockFrame {
    pub id: DeviceId,
    pub sample: DynamicSample,
    pub processes: Vec<ProcessSample>,
}

pub struct MockBackend {
    pub train: TrainSim,
    pub desktop: DesktopSim,
}

/// The identity of the device that trains.
pub open spec fn train_id() -> Seq<char> {
    "mock:0000:01:00.0"@
}

/// The identity of the desktop.
pub open spec fn desktop_id() -> Seq<char> {
    "mock:0000:03:00.0"@
}

fn is_train(dev: &DeviceId) -> (r: bool)
    ensures
        r == (dev@ == train_id()),
{
    let id: Vec<char> = chars_of(dev.0.as_str());
    is_text(id.as_slice(), "mock:0000:01:00.0")
}

fn is_desktop(dev: &DeviceId) -> (r: bool)
    ensures
        r == (dev@ == desktop_id()),
{
    let id: Vec<char> = chars_of(dev.0.as_str());
    is_text(id.as_slice(), "mock:0000:03:00.0")
}

proof fn lemma_ids_differ()
    ensures
        train_id() != desktop_id(),
{
    reveal_strlit("mock:0000:01:00.0");
    reveal_strlit("mock:0000:03:00.0");
    assert(train_id()[11] == '1' && desktop_id()[11] == '3');
}

/// A simulated device is described as such.
pub open spec fn describes(info: StaticInfo, id: Seq<char>, first: bool) -> bool {
    &&& info.id@ == id
    &&& info.vendor == (if first {
        Vendor::Nvidia
    } else {
        Vendor::Amd
    })
    &&& info.name@ == (if first {
        "GeForce RTX 4090 (mock)"@
    } else {
        "Radeon RX 7900 XTX (mock)"@
    })
    &&& info.backend@ == "mock"@
    &&& info.mem_total_bytes == Some((24 * GIB) as u64)
    &&& info.power_limit_mw == Some(
        if first {
            450_000u32
        } else {
            355_000
        },
    )
    &&& info.max_sm_clock_mhz == Some(
        if first {
            2_520u32
        } else {
            2_500
        },
    )
    &&& info.temp_slowdown_c == Some(
        if first {
            84_000 as MilliC
        } else {
            110_000
        },
    )
    &&& text_view(info.driver_version) == Some(
        if first {
            "mock 999.99"@
        } else {
            "mock amdgpu"@
        },
    )
    &&& info.process_hint is None
    &&& info.source_caveat is None
}

impl MockBackend {
    pub open spec fn wf(self) -> bool {
        self.train.wf() && self.desktop.wf()
    }

    /// Another step can be counted.
    pub open spec fn can_step(self) -> bool {
        self.train.tick <= u64::MAX - 100 && self.desktop.tick <= u64::MAX - 200
    }

    pub fn new() -> (r: Self)
        ensures
            r.wf(),
            r.can_step(),
            r.train == train_start(),
            r.desktop == desktop_start(),
    {
        MockBackend {
            train: TrainSim {
                rng: Rng(0x9E37_79B9_7F4A_7C15),
                tick: 0,
                temp_uc: 52_000_000,
                vram_python: 20_615_843_020,
                throttling: false,
                fan_upct: 35_000_000,
                idle_until: 0,
            },
            desktop: DesktopSim {
                rng: Rng(0xD1B5_4A32_D192_ED03),
                tick: 0,
                ollama_present: false,
                ollama_toggle_at: 45,
                util_level: 12_000,
            },
        }
    }

    pub fn name(&self) -> (r: &'static str)
        ensures
            r@ == "mock"@,
    {
        "mock"
    }

    pub fn devices(&self) -> (v: Vec<DeviceId>)
        ensures
            v@.len() == 2,
            v@[0]@ == train_id(),
            v@[1]@ == desktop_id(),
    {
        let mut v: Vec<DeviceId> = Vec::new();
        v.push(DeviceId(text("mock:0000:01:00.0")));
        v.push(DeviceId(text("mock:0000:03:00.0")));
        v
    }

    /// One step of both devices, at a time of one's choice: the same step that the devices make
    /// when they are asked one by one.
    pub fn tick_at(&mut self, ts_ms: u64) -> (v: Vec<MockFrame>)
        requires
            old(self).wf(),
            old(self).can_step(),
        ensures
            final(self).wf(),
            final(self).train == old(self).train.stepped().0,
            final(self).desktop == old(self).desktop.stepped().0,
            v@.len() == 2,
            v@[0].id@ == train_id(),
            samples(v@[0].sample, ts_ms, old(self).train.stepped().1),
            proc_views(v@[0].processes@) == final(self).train.process_views(),
            v@[1].id@ == desktop_id(),
            samples(v@[1].sample, ts_ms, old(self).desktop.stepped().1),
            proc_views(v@[1].processes@) == final(self).desktop.process_views(),
    {
        let a: DynamicSample = self.train.step(ts_ms);
        let b: DynamicSample = self.desktop.step(ts_ms);
        let mut v: Vec<MockFrame> = Vec::new();
        v.push(
            MockFrame {
                id: DeviceId(text("mock:0000:01:00.0")),
                sample: a,
                processes: self.train.processes(),
            },
        );
        v.push(
            MockFrame {
                id: DeviceId(text("mock:0000:03:00.0")),
                sample: b,
                processes: self.desktop.processes(),
            },
        );
        v
    }

    pub fn static_info(&self, dev: &DeviceId) -> (r: Result<StaticInfo, BackendError>)
        ensures
            match r {
                Ok(info) => (dev@ == train_id() || dev@ == desktop_id()) && describes(
                    info,
                    dev@,
                    dev@ == train_id(),
                ),
                Err(e) => dev@ != train_id() && dev@ != desktop_id() && is_not_found(e, dev@),
            },
    {
        proof {
            lemma_ids_differ();
        }
        if is_train(dev) {
            Ok(
                StaticInfo {
                    id: dev.clone(),
                    vendor: Vendor::Nvidia,
                    name: text("GeForce RTX 4090 (mock)"),
                    backend: text("mock"),
                    mem_total_bytes: Some(24 * GIB),
                    power_limit_mw: Some(450_000),
                    max_sm_clock_mhz: Some(2_520),
                    temp_slowdown_c: Some(84_000),
                    driver_version: Some(text("mock 999.99")),
                    process_hint: None,
                    source_caveat: None,
                },
            )
        } else if is_desktop(dev) {
            Ok(
                StaticInfo {
                    id: dev.clone(),
                    vendor: Vendor::Amd,
                    name: text("Radeon RX 7900 XTX (mock)"),
                    backend: text("mock"),
                    mem_total_bytes: Some(24 * GIB),
                    power_limit_mw: Some(355_000),
                    max_sm_clock_mhz: Some(2_500),
                    temp_slowdown_c: Some(110_000),
                    driver_version: Some(text("mock amdgpu")),
                    process_hint: None,
                    source_caveat: None,
                },
            )
        } else {
            Err(BackendError::DeviceNotFound(dev.clone()))
        }
    }

    /// One step of a device.
    pub fn refresh_dynamic(&mut self, dev: &DeviceId, ts_ms: u64) -> (r: Result<
        DynamicSample,
        BackendError,
    >)
        requires
            old(self).wf(),
            old(self).can_step(),
        ensures
            final(self).wf(),
            match r {
                Ok(s) => if dev@ == train_id() {
                    &&& samples(s, ts_ms, old(self).train.stepped().1)
                    &&& final(self).train == old(self).train.stepped().0
                    &&& final(self).desktop == old(self).desktop
                } else {
                    &&& dev@ == desktop_id()
                    &&& samples(s, ts_ms, old(self).desktop.stepped().1)
                    &&& final(self).desktop == old(self).desktop.stepped().0
                    &&& final(self).train == old(self).train
                },
                Err(e) => {
                    &&& dev@ != train_id() && dev@ != desktop_id() && is_not_found(e, dev@)
                    &&& *final(self) == *old(self)
                },
            },
    {
        proof {
            lemma_ids_differ();
        }
        if is_train(dev) {
            Ok(self.train.step(ts_ms))
        } else if is_desktop(dev) {
            Ok(self.desktop.step(ts_ms))
        } else {
            Err(BackendError::DeviceNotFound(dev.clone()))
        }
    }

    pub fn refresh_processes(&self, dev: &DeviceId) -> (r: Result<Vec<ProcessSample>, BackendError>)
        ensures
            match r {
                Ok(v) => if dev@ == train_id() {
                    proc_views(v@) == self.train.process_views()
                } else {
                    dev@ == desktop_id() && proc_views(v@) == self.desktop.process_views()
                },
                Err(e) => dev@ != train_id() && dev@ != desktop_id() && is_not_found(e, dev@),
            },
    {
        if is_train(dev) {
            Ok(self.train.processes())
        } else if is_desktop(dev) {
            Ok(self.desktop.processes())
        } else {
            Err(BackendError::DeviceNotFound(dev.clone()))
        }
    }
}

impl Default for MockBackend {
    fn default() -> (r: Self)
        ensures
            r.wf(),
            r.can_step(),
            r.train == train_start(),
            r.desktop == desktop_start(),
    {
        MockBackend::new()
    }
}

/// The simulation after a number of steps.
pub open spec fn train_after(n: nat) -> TrainSim
    decreases n,
{
    if n == 0 {
        train_start()
    } else {
        train_after((n - 1) as nat).stepped().0
    }
}

pub open spec fn desktop_after(n: nat) -> DesktopSim
    decreases n,
{
    if n == 0 {
        desktop_start()
    } else {
        desktop_after((n - 1) as nat).stepped().0
    }
}

/// The simulation depends on the number of steps alone: two that are told at the same number of
/// steps are the same.
pub proof fn law_a_story_can_be_told_again(n: nat, a: MockBackend, b: MockBackend)
    requires
        a.train == train_after(n) && a.desktop == desktop_after(n),
        b.train == train_after(n) && b.desktop == desktop_after(n),
    ensures
        a.train.stepped() == b.train.stepped(),
        a.desktop.stepped() == b.desktop.stepped(),
        a.train.stepped().0 == train_after(n + 1),
        a.desktop.stepped().0 == desktop_after(n + 1),
{
}

/// The identities of simulated devices are no addresses: none is taken for a real device.
pub proof fn law_simulated_identities_are_no_addresses()
    ensures
        normalized(train_id()) is None,
        normalized(desktop_id()) is None,
{
    reveal_strlit("mock:0000:01:00.0");
    reveal_strlit("mock:0000:03:00.0");
    let prefix = seq!['m', 'o', 'c', 'k'];
    assert(!is_hex_digit(prefix[0]));
    let a = seq!['0', '0', '0', '0', ':', '0', '1', ':', '0', '0', '.', '0'];
    let b = seq!['0', '0', '0', '0', ':', '0', '3', ':', '0', '0', '.', '0'];
    law_synthetic_ids_are_refused(prefix, a);
    law_synthetic_ids_are_refused(prefix, b);
    assert(train_id() =~= prefix + seq![':'] + a);
    assert(desktop_id() =~= prefix + seq![':'] + b);
}

/// The simulated devices have 24 GiB each; the first draws up to 450 W and slows down at 84 degrees,
/// the second up to 355 W and at 110 degrees.
pub proof fn law_what_the_simulated_devices_are(info: StaticInfo, id: Seq<char>, first: bool)
    requires
        describes(info, id, first),
    ensures
        info.id@ == id && info.backend@ == "mock"@,
        info.mem_total_bytes == Some(25_769_803_776u64),
        first ==> info.vendor is Nvidia && info.power_limit_mw == Some(450_000u32)
            && info.max_sm_clock_mhz == Some(2_520u32) && info.temp_slowdown_c is Some
            && info.temp_slowdown_c->0 == 84_000,
        !first ==> info.vendor is Amd && info.power_limit_mw == Some(355_000u32)
            && info.max_sm_clock_mhz == Some(2_500u32) && info.temp_slowdown_c is Some
            && info.temp_slowdown_c->0 == 110_000,
        info.process_hint is None && info.source_caveat is None,
{
}

/// The first device trains: the process that does has the memory of the simulation, and is at work
/// on the device but in a gap, when it is at work on the processor.
pub proof fn law_a_gap_is_spent_on_the_processor(s: TrainSim)
    ensures
        ({
            let ps = s.process_views();
            &&& ps.len() == 2
            &&& ps[0].pid == 4521 && ps[0].kind is Compute && ps[0].mem_bytes == Some(s.vram_python)
            &&& s.idle() ==> ps[0].util_pct == Some(1_000 as MilliPct) && ps[0].cpu_pct == Some(
                320_000 as MilliPct,
            )
            &&& !s.idle() ==> ps[0].util_pct == Some(96_000 as MilliPct) && ps[0].cpu_pct == Some(
                180_000 as MilliPct,
            )
            &&& ps[1].pid == 1203 && ps[1].kind is Graphics && ps[1].mem_bytes == Some(
                440_401_920u64,
            )
        }),
{
}

/// The memory of the process that trains grows by three to six MiB a step, and starts over where it
/// would leave less than some 1.2 GiB of the device.
pub proof fn law_the_memory_of_training_grows(s: TrainSim)
    requires
        s.wf(),
    ensures
        ({
            let before = s.vram_python;
            let after = s.filled().vram_python;
            ||| before + 3_145_728 <= after < before + 6_291_456 && after <= 24_481_313_587
            ||| after == 17_716_740_096 && before + 6_291_456 > 24_481_313_587
        }),
        s.filled().temp_uc == s.temp_uc && s.filled().tick == s.tick,
{
    law_numbers_stay_in_their_range(xorshift(s.rng.0), (3 * MIB) as u64, (6 * MIB) as u64);
}

/// The temperature keeps 94 parts of a hundred and goes six to where the work takes it, 48 degrees
/// in a gap and 87 out of one; the fan takes off twelve parts of ten thousand of what it turns above
/// thirty, and chance adds or takes up to 0.3 degrees. The fan keeps 92 parts of a hundred and takes
/// 208 of a thousand of what is above 55 degrees, between 28 and 100.
pub proof fn law_heat_goes_where_the_work_takes_it(s: TrainSim)
    requires
        s.wf(),
    ensures
        ({
            let h = s.heated();
            let target: int = if s.idle() {
                48_000_000
            } else {
                87_000_000
            };
            let drift = 9_400 * s.temp_uc + 600 * target - 12 * (s.fan_upct - 30_000_000);
            let excess = if h.temp_uc > 55_000_000 {
                h.temp_uc - 55_000_000
            } else {
                0
            };
            let pull = 920 * s.fan_upct + 208 * excess;
            &&& drift - 10_000 - 3_000_000_000 < 10_000 * h.temp_uc < drift + 3_000_000_000
            &&& pull <= 28_000_000_000 ==> h.fan_upct == 28_000_000
            &&& pull >= 100_000_000_000 ==> h.fan_upct == 100_000_000
            &&& 28_000_000_000 <= pull <= 100_000_000_000 ==> 1_000 * h.fan_upct <= pull < 1_000
                * h.fan_upct + 1_000
        }),
{
    law_throttling_has_hysteresis(s);
    law_numbers_stay_in_their_range(xorshift(s.rng.0), 0, 600_000);
}

/// The model server of the second device changes between there and not there at the step that was
/// set for it, and at no other; once it is there it stays seventy steps to a hundred, and once it is
/// gone fifty to eighty.
pub proof fn law_the_model_server_comes_and_goes(s: DesktopSim)
    requires
        s.tick <= u64::MAX - 200,
    ensures
        ({
            let p = s.paced();
            &&& p.tick == s.tick + 1
            &&& p.ollama_present != s.ollama_present <==> s.tick + 1 >= s.ollama_toggle_at
            &&& p.ollama_present == s.ollama_present ==> p.ollama_toggle_at == s.ollama_toggle_at
            &&& p.ollama_present && !s.ollama_present ==> 70 <= p.ollama_toggle_at - p.tick < 100
            &&& !p.ollama_present && s.ollama_present ==> 50 <= p.ollama_toggle_at - p.tick < 80
            &&& p.ollama_present <==> exists|i: int|
                0 <= i < p.process_views().len() && (#[trigger] p.process_views()[i]).pid == 7777
        }),
{
    let p = s.paced();
    assert(p.process_views()[0].pid == 980);
    if p.ollama_present {
        assert(p.process_views()[1].pid == 7777);
    }
}

/// The metrics of the second device tell whether the model server is there. The utilization goes
/// three tenths of the way to what is asked of the device.
pub proof fn law_the_metrics_tell_the_model_server(s: DesktopSim)
    requires
        s.wf(),
        s.tick <= u64::MAX - 200,
    ensures
        ({
            let (d, m) = s.stepped();
            &&& m.util_pct == d.util_level && m.mem_clock_mhz is None && !m.codecs
            &&& m.throttle == no_throttle()
            &&& if d.ollama_present {
                &&& 7 * s.util_level + 165_000 - 10 < 10 * d.util_level < 7 * s.util_level + 276_000
                &&& 13_099_650_253 <= m.mem_used_bytes < 13_529_146_982
                &&& m.power_mw == 248_000 && m.temp_c == 71_000 && m.fan_pct == 58_000
                &&& m.sm_clock_mhz == 2_390
            } else {
                &&& 7 * s.util_level + 9_000 - 10 < 10 * d.util_level < 7 * s.util_level + 84_000
                &&& m.mem_used_bytes == 1_181_116_006
                &&& m.power_mw == 41_000 && m.temp_c == 44_000 && m.fan_pct == 0
                &&& m.sm_clock_mhz == 350
            }
        }),
{
    let p = s.paced();
    law_numbers_stay_in_their_range(xorshift(p.rng.0), 55_000, 92_000);
    law_numbers_stay_in_their_range(xorshift(p.rng.0), 3_000, 28_000);
    let w = p.worked();
    law_numbers_stay_in_their_range(xorshift(w.rng.0), 0, 429_496_729);
}

/// A sample holds each metric in its own place; a device with codecs shows them at rest, and one
/// without shows none.
pub proof fn law_a_sample_holds_the_metrics(s: DynamicSample, ts_ms: u64, m: Metrics)
    requires
        samples(s, ts_ms, m),
    ensures
        s.ts_ms == ts_ms && s.util_pct == Some(m.util_pct) && s.mem_used_bytes == Some(
            m.mem_used_bytes,
        ),
        s.power_mw == Some(m.power_mw) && s.temp_c == Some(m.temp_c) && s.fan_pct == Some(
            m.fan_pct,
        ),
        s.sm_clock_mhz == Some(m.sm_clock_mhz) && s.mem_clock_mhz == m.mem_clock_mhz,
        s.encoder_pct is Some <==> m.codecs,
        s.decoder_pct is Some <==> m.codecs,
        s.encoder_pct matches Some(e) ==> e == 0,
        s.throttle == Some(m.throttle),
{
}

/// A story starts cool and unthrottled, outside of a gap, and without the model server.
pub proof fn law_how_a_story_starts(n: nat)
    ensures
        ({
            let t = train_after(0);
            let d = desktop_after(0);
            &&& t.wf() && d.wf()
            &&& t.tick == 0 && !t.idle() && !t.throttling
            &&& t.temp_uc == 52_000_000 && t.fan_upct == 35_000_000
            &&& 19 * GIB < t.vram_python < 20 * GIB
            &&& d.tick == 0 && !d.ollama_present
        }),
        train_after(n + 1) == train_after(n).stepped().0,
        desktop_after(n + 1) == desktop_after(n).stepped().0,
{
}

} // verus!
