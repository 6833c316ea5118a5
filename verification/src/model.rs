//! Core data model. Every metric is an `Option`: a missing metric is a normal outcome of a
//! reading, never an error.
//!
//! Percentages and temperatures are whole thousandths of their unit: 50% is 50_000, 71.5 °C is
//! 71_500.

use vstd::prelude::*;
use crate::text::{push_fixed0, push_fixed1};
use crate::text::{fixed0, fixed1, round_half_even};

verus! {

/// Thousandths of a percent.
pub type MilliPct = i64;

/// Thousandths of a degree Celsius.
pub type MilliC = i64;

/// Stable device identity. For PCI devices this is the PCI address (`0000:01:00.0`), so that one
/// physical GPU has one identity whichever backend reports it; other devices have a key of their
/// platform.
#[derive(Debug, PartialEq, Eq, Hash)]
pub struct DeviceId(pub String);

impl View for DeviceId {
    type V = Seq<char>;

    open spec fn view(&self) -> Seq<char> {
        self.0@
    }
}

impl Clone for DeviceId {
    fn clone(&self) -> (r: Self)
        ensures
            r == *self,
    {
        DeviceId(self.0.clone())
    }
}

impl DeviceId {
    /// The identity as text.
    pub fn text(&self) -> (r: String)
        ensures
            r@ == self@,
    {
        self.0.clone()
    }
}

#[derive(Clone, Copy, Debug, PartialEq, Eq, Structural)]
pub enum Vendor {
    Nvidia,
    Amd,
    Intel,
    Apple,
    Unknown,
}

impl Vendor {
    /// The vendor's name as shown to a reader.
    pub open spec fn label_text(self) -> Seq<char> {
        match self {
            Vendor::Nvidia => "NVIDIA"@,
            Vendor::Amd => "AMD"@,
            Vendor::Intel => "Intel"@,
            Vendor::Apple => "Apple"@,
            Vendor::Unknown => "GPU"@,
        }
    }

    pub fn label(self) -> (r: &'static str)
        ensures
            r@ == self.label_text(),
    {
        match self {
            Vendor::Nvidia => "NVIDIA",
            Vendor::Amd => "AMD",
            Vendor::Intel => "Intel",
            Vendor::Apple => "Apple",
            Vendor::Unknown => "GPU",
        }
    }
}

/// What is asked of a device once, at startup.
#[derive(Debug)]
pub struct StaticInfo {
    pub id: DeviceId,
    pub vendor: Vendor,
    pub name: String,
    pub backend: String,
    pub mem_total_bytes: Option<u64>,
    pub power_limit_mw: Option<u32>,
    pub max_sm_clock_mhz: Option<u32>,
    /// Temperature at which the driver starts thermal slowdown, where it is exposed.
    pub temp_slowdown_c: Option<MilliC>,
    pub driver_version: Option<String>,
    /// Why the process list may be incomplete or absent; `None` when there is nothing to explain.
    pub process_hint: Option<String>,
    /// What a reader must know to read this source's numbers correctly; `None` when nothing.
    pub source_caveat: Option<String>,
}

/// Decoded throttle reasons. Unknown bits of a source land in `other`.
#[derive(Clone, Copy, Debug, PartialEq, Eq, Structural)]
pub struct ThrottleReasons {
    pub thermal: bool,
    pub power_cap: bool,
    pub hw_slowdown: bool,
    pub sync_boost: bool,
    pub other: bool,
}

/// No reason is active.
pub open spec fn no_throttle() -> ThrottleReasons {
    ThrottleReasons {
        thermal: false,
        power_cap: false,
        hw_slowdown: false,
        sync_boost: false,
        other: false,
    }
}

impl Default for ThrottleReasons {
    fn default() -> (r: Self)
        ensures
            r == no_throttle(),
    {
        ThrottleReasons {
            thermal: false,
            power_cap: false,
            hw_slowdown: false,
            sync_boost: false,
            other: false,
        }
    }
}

/// The one-element list of `s` where `on`, else the empty list.
pub open spec fn label_if(on: bool, s: Seq<char>) -> Seq<Seq<char>> {
    if on {
        seq![s]
    } else {
        Seq::empty()
    }
}

/// The texts of a list of string slices.
pub open spec fn str_views(v: Seq<&'static str>) -> Seq<Seq<char>> {
    Seq::new(v.len(), |i: int| v[i]@)
}

impl ThrottleReasons {
    /// Some performance-limiting reason is active.
    pub open spec fn is_any(self) -> bool {
        self != no_throttle()
    }

    /// The active reasons' labels, in the order of the fields.
    pub open spec fn label_texts(self) -> Seq<Seq<char>> {
        label_if(self.thermal, "thermal"@) + label_if(self.power_cap, "power cap"@) + label_if(
            self.hw_slowdown,
            "hw slowdown"@,
        ) + label_if(self.sync_boost, "sync boost"@) + label_if(self.other, "other"@)
    }

    /// Is any performance-limiting reason active? (Idle is not throttling.)
    pub fn any(&self) -> (r: bool)
        ensures
            r == self.is_any(),
    {
        self.thermal || self.power_cap || self.hw_slowdown || self.sync_boost || self.other
    }

    pub fn labels(&self) -> (v: Vec<&'static str>)
        ensures
            str_views(v@) == self.label_texts(),
    {
        let mut v: Vec<&'static str> = Vec::new();
        if self.thermal {
            v.push("thermal");
        }
        assert(str_views(v@) =~= label_if(self.thermal, "thermal"@));
        if self.power_cap {
            v.push("power cap");
        }
        assert(str_views(v@) =~= label_if(self.thermal, "thermal"@) + label_if(
            self.power_cap,
            "power cap"@,
        ));
        if self.hw_slowdown {
            v.push("hw slowdown");
        }
        assert(str_views(v@) =~= label_if(self.thermal, "thermal"@) + label_if(
            self.power_cap,
            "power cap"@,
        ) + label_if(self.hw_slowdown, "hw slowdown"@));
        if self.sync_boost {
            v.push("sync boost");
        }
        assert(str_views(v@) =~= label_if(self.thermal, "thermal"@) + label_if(
            self.power_cap,
            "power cap"@,
        ) + label_if(self.hw_slowdown, "hw slowdown"@) + label_if(self.sync_boost, "sync boost"@));
        if self.other {
            v.push("other");
        }
        assert(str_views(v@) =~= self.label_texts());
        v
    }
}

/// One sample of a device, taken at one tick.
#[derive(Debug, PartialEq, Eq)]
pub struct DynamicSample {
    /// Unix milliseconds; one timestamp for all readings of the tick.
    pub ts_ms: u64,
    pub util_pct: Option<MilliPct>,
    /// The engine whose busy share `util_pct` is, where utilization is that of one engine;
    /// `None` where it is device-wide.
    pub util_engine: Option<String>,
    pub mem_used_bytes: Option<u64>,
    pub power_mw: Option<u32>,
    pub temp_c: Option<MilliC>,
    pub fan_pct: Option<MilliPct>,
    pub sm_clock_mhz: Option<u32>,
    pub mem_clock_mhz: Option<u32>,
    pub encoder_pct: Option<MilliPct>,
    pub decoder_pct: Option<MilliPct>,
    /// `Some` only where the source can observe throttling: `None` is "unobservable", never
    /// "not throttling".
    pub throttle: Option<ThrottleReasons>,
}

#[derive(Clone, Copy, Debug, PartialEq, Eq, Structural)]
pub enum ProcessKind {
    Compute,
    Graphics,
    Both,
    Unknown,
}

impl ProcessKind {
    /// Short code for a process table.
    pub open spec fn label_text(self) -> Seq<char> {
        match self {
            ProcessKind::Compute => "C"@,
            ProcessKind::Graphics => "G"@,
            ProcessKind::Both => "C+G"@,
            ProcessKind::Unknown => "?"@,
        }
    }

    /// Prose form for evidence lines.
    pub open spec fn prose_text(self) -> Seq<char> {
        match self {
            ProcessKind::Compute => "compute"@,
            ProcessKind::Graphics => "graphics"@,
            ProcessKind::Both => "compute+graphics"@,
            ProcessKind::Unknown => "unknown-type"@,
        }
    }

    pub fn label(self) -> (r: &'static str)
        ensures
            r@ == self.label_text(),
    {
        match self {
            ProcessKind::Compute => "C",
            ProcessKind::Graphics => "G",
            ProcessKind::Both => "C+G",
            ProcessKind::Unknown => "?",
        }
    }

    pub fn prose(self) -> (r: &'static str)
        ensures
            r@ == self.prose_text(),
    {
        match self {
            ProcessKind::Compute => "compute",
            ProcessKind::Graphics => "graphics",
            ProcessKind::Both => "compute+graphics",
            ProcessKind::Unknown => "unknown-type",
        }
    }
}

/// What one process does on a device.
#[derive(Debug, PartialEq, Eq)]
pub struct ProcessSample {
    pub pid: u32,
    pub name: String,
    pub kind: ProcessKind,
    pub mem_bytes: Option<u64>,
    pub util_pct: Option<MilliPct>,
    /// CPU use as a share of one core: 100_000 is one full core.
    pub cpu_pct: Option<MilliPct>,
    /// The container the process runs in (such as `docker:1a2b3c4d5e6f`); `None` for a process of
    /// the host, and where it is not known.
    pub container: Option<String>,
}

/// A process sample by its contents.
#[verifier::ext_equal]
pub struct ProcView {
    pub pid: u32,
    pub name: Seq<char>,
    pub kind: ProcessKind,
    pub mem_bytes: Option<u64>,
    pub util_pct: Option<MilliPct>,
    pub cpu_pct: Option<MilliPct>,
    pub container: Option<Seq<char>>,
}

/// The text of an optional string.
pub open spec fn text_view(s: Option<String>) -> Option<Seq<char>> {
    match s {
        Some(t) => Some(t@),
        None => None,
    }
}

impl View for ProcessSample {
    type V = ProcView;

    open spec fn view(&self) -> ProcView {
        ProcView {
            pid: self.pid,
            name: self.name@,
            kind: self.kind,
            mem_bytes: self.mem_bytes,
            util_pct: self.util_pct,
            cpu_pct: self.cpu_pct,
            container: text_view(self.container),
        }
    }
}

/// The contents of a process list.
pub open spec fn proc_views(ps: Seq<ProcessSample>) -> Seq<ProcView> {
    Seq::new(ps.len(), |i: int| ps[i]@)
}

/// The ids of a process list.
pub open spec fn pids_of(out: Seq<ProcView>) -> Seq<u32> {
    Seq::new(out.len(), |i: int| out[i].pid)
}

/// The step between neighbouring double-precision numbers around `n`, for whole `n`.
pub open spec fn double_step(n: nat) -> nat
    decreases n,
{
    if n < 0x20_0000_0000_0000 {
        1
    } else {
        2 * double_step(n / 2)
    }
}

/// The double-precision number nearest to `n` (a tie goes to the even one).
pub open spec fn nearest_double(n: nat) -> nat {
    round_half_even(n, double_step(n)) * double_step(n)
}

/// `b` bytes in GiB with one decimal, or, under one GiB, in whole MiB. The size is read at double
/// precision: beyond 2^53 bytes only its first 53 binary digits count.
pub open spec fn bytes_text(b: nat) -> Seq<char> {
    let d = nearest_double(b);
    if d >= 0x4000_0000 {
        fixed1(d, 0x4000_0000) + " GiB"@
    } else {
        fixed0(d, 0x10_0000) + " MiB"@
    }
}

fn round_to_double(n: u64) -> (r: u128)
    ensures
        r == nearest_double(n as nat),
        r <= 0x1_0000_0000_0000_0000,
{
    let mut m: u64 = n;
    let mut step: u128 = 1;
    assert(1 * double_step(n as nat) == double_step(n as nat));
    while m >= 0x20_0000_0000_0000
        invariant
            step * double_step(m as nat) == double_step(n as nat),
            step >= 1,
            step * m <= n,
            m >= 0x10_0000_0000_0000 || step == 1,
        decreases m,
    {
        let ghost half = (m / 2) as nat;
        let ghost before = step as nat;
        assert(double_step(m as nat) == 2 * double_step(half));
        assert(before * (2 * double_step(half)) == (before * 2) * double_step(half))
            by (nonlinear_arith);
        assert((step * 2) * (m / 2) <= step * m) by (nonlinear_arith)
            requires
                step >= 1,
        ;
        assert(step * 2 <= n) by (nonlinear_arith)
            requires
                step * m <= n,
                m >= 2,
                step >= 1,
        ;
        m = m / 2;
        step = step * 2;
    }
    let ghost last = double_step(m as nat);
    assert(step * last == step) by (nonlinear_arith)
        requires
            last == 1,
    ;
    assert(step <= 0x1000) by (nonlinear_arith)
        requires
            step * m <= n,
            m >= 0x10_0000_0000_0000 || step == 1,
            n <= 0xffff_ffff_ffff_ffff,
    ;
    let q: u128 = crate::text::div_round_half_even(n as u128, step);
    proof {
        lemma_nearest_fits(n as nat, step as nat);
    }
    q * step
}

/// Rounding a 64-bit size to a multiple of a step that divides 2^64 stays within 2^64.
proof fn lemma_nearest_fits(n: nat, step: nat)
    requires
        n <= 0xffff_ffff_ffff_ffff,
        step == double_step(n),
        1 <= step <= 0x1000,
    ensures
        round_half_even(n, step) * step <= 0x1_0000_0000_0000_0000,
{
    lemma_step_divides(n);
    let big: int = 0x1_0000_0000_0000_0000;
    let k = big / step as int;
    assert(k * step == big) by {
        vstd::arithmetic::div_mod::lemma_fundamental_div_mod(big, step as int);
        assert(k * step == step * k) by (nonlinear_arith);
    }
    let q = n / step;
    assert(q < k) by (nonlinear_arith)
        requires
            q == n / step,
            k * step == big,
            n < big,
            step >= 1,
    ;
    assert((q + 1) * step <= k * step) by (nonlinear_arith)
        requires
            q + 1 <= k,
            step >= 1,
    ;
    assert(q * step <= (q + 1) * step) by (nonlinear_arith)
        requires
            step >= 1,
    ;
}

/// The step of a 64-bit size is one of the powers of two up to 2^11.
proof fn lemma_step_divides(n: nat)
    requires
        n <= 0xffff_ffff_ffff_ffff,
    ensures
        0x1_0000_0000_0000_0000int % (double_step(n) as int) == 0,
{
    reveal_with_fuel(double_step, 13);
    let s = double_step(n);
    assert(s == 1 || s == 2 || s == 4 || s == 8 || s == 16 || s == 32 || s == 64 || s == 128 || s
        == 256 || s == 512 || s == 1024 || s == 2048);
}

/// Human form of a size.
pub fn fmt_bytes(b: u64) -> (r: String)
    ensures
        r@ == bytes_text(b as nat),
{
    let mut out: String = String::new();
    push_bytes(&mut out, b);
    assert(out@ =~= bytes_text(b as nat));
    out
}

/// Appends the human form of a size.
pub fn push_bytes(out: &mut String, b: u64)
    ensures
        final(out)@ == old(out)@ + bytes_text(b as nat),
{
    let d: u128 = round_to_double(b);
    if d >= 0x4000_0000 {
        push_fixed1(out, d, 0x4000_0000);
        out.append(" GiB");
    } else {
        push_fixed0(out, d, 0x10_0000);
        out.append(" MiB");
    }
    assert(final(out)@ =~= old(out)@ + bytes_text(b as nat));
}

/// Milliseconds since the Unix epoch by the system clock, through `SystemTime::elapsed` of the
/// epoch; `None` where the clock stands before it. Nothing is claimed of the value.
#[verifier::external_body]
fn system_millis() -> Option<u128> {
    std::time::UNIX_EPOCH.elapsed().ok().map(|d| d.as_millis())
}

/// The 64-bit timestamp of a clock reading; zero where there is none.
pub fn timestamp_of(millis: Option<u128>) -> (r: u64)
    ensures
        r == (match millis {
            Some(m) => m % 0x1_0000_0000_0000_0000,
            None => 0,
        }),
{
    match millis {
        Some(m) => (m % 0x1_0000_0000_0000_0000) as u64,
        None => 0,
    }
}

/// The time now, in Unix milliseconds.
pub fn now_ms() -> u64 {
    timestamp_of(system_millis())
}

/// The labels of vendors and of kinds of processes.
pub proof fn law_labels(v: Vendor, k: ProcessKind)
    ensures
        v.label_text() == (match v {
            Vendor::Nvidia => "NVIDIA"@,
            Vendor::Amd => "AMD"@,
            Vendor::Intel => "Intel"@,
            Vendor::Apple => "Apple"@,
            Vendor::Unknown => "GPU"@,
        }),
        k is Compute ==> k.label_text() == "C"@,
        k is Graphics ==> k.label_text() == "G"@,
        k is Both ==> k.label_text() == "C+G"@,
        k is Unknown ==> k.label_text() == "?"@,
        k is Compute ==> k.prose_text() == "compute"@,
        k is Graphics ==> k.prose_text() == "graphics"@,
        k is Both ==> k.prose_text() == "compute"@ + seq!['+'] + "graphics"@,
        k is Unknown ==> k.prose_text() == "unknown-type"@,
{
    reveal_strlit("compute");
    reveal_strlit("graphics");
    reveal_strlit("compute+graphics");
    assert("compute+graphics"@ =~= "compute"@ + seq!['+'] + "graphics"@);
}

} // verus!
