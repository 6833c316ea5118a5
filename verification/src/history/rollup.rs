//! Rollups: what is kept of the frames of a bucket.

use vstd::prelude::*;
use crate::lists::filter_map;
use crate::model::{DeviceId, DynamicSample, MilliC, MilliPct, ProcessKind, ThrottleReasons};
use crate::model::text_view;

verus! {

/// The tier of a rollup.
#[derive(Clone, Copy, Debug, PartialEq, Eq, Structural)]
pub enum Tier {
    /// 10-second buckets: detail of the recent past.
    TenSec,
    /// 1-minute buckets: the long tail.
    OneMin,
}

impl Tier {
    /// Bucket width in milliseconds.
    pub open spec fn width(self) -> u64 {
        match self {
            Tier::TenSec => 10_000,
            Tier::OneMin => 60_000,
        }
    }

    /// The bucket that a time falls into, by its start.
    pub open spec fn bucket(self, ts_ms: u64) -> u64 {
        (ts_ms - ts_ms % self.width()) as u64
    }

    pub fn width_ms(self) -> (r: u64)
        ensures
            r == self.width(),
    {
        match self {
            Tier::TenSec => 10_000,
            Tier::OneMin => 60_000,
        }
    }

    /// The start of the bucket that a time falls into.
    pub fn bucket_of(self, ts_ms: u64) -> (r: u64)
        ensures
            r == self.bucket(ts_ms),
    {
        let w: u64 = self.width_ms();
        ts_ms - ts_ms % w
    }

    /// The table of the tier's samples.
    pub fn samples_table(self) -> (r: &'static str)
        ensures
            r@ == (match self {
                Tier::TenSec => "samples_10s"@,
                Tier::OneMin => "samples_1m"@,
            }),
    {
        match self {
            Tier::TenSec => "samples_10s",
            Tier::OneMin => "samples_1m",
        }
    }
}

/// The samples of one device in one bucket. A metric that no frame had is `None`, never zero.
#[derive(Debug, PartialEq, Eq)]
pub struct SampleRollup {
    pub device_id: DeviceId,
    /// Bucket start in Unix milliseconds.
    pub bucket_ms: u64,
    /// Frames in the bucket.
    pub n: u32,
    pub util_min: Option<MilliPct>,
    pub util_avg: Option<MilliPct>,
    pub util_max: Option<MilliPct>,
    pub mem_avg: Option<u64>,
    pub mem_max: Option<u64>,
    pub power_avg_mw: Option<u32>,
    pub power_max_mw: Option<u32>,
    pub temp_avg_c: Option<MilliC>,
    pub temp_max_c: Option<MilliC>,
    pub fan_max_pct: Option<MilliPct>,
    pub sm_clock_min: Option<u32>,
    pub sm_clock_avg: Option<u32>,
    pub sm_clock_max: Option<u32>,
    /// Frames with any throttle reason active.
    pub throttle_n: u32,
    pub throttle_thermal_n: u32,
    pub throttle_power_n: u32,
    pub throttle_hw_n: u32,
}

/// A sample rollup by its contents.
#[verifier::ext_equal]
pub struct SampleRollupView {
    pub device_id: Seq<char>,
    pub bucket_ms: u64,
    pub n: u32,
    pub util_min: Option<MilliPct>,
    pub util_avg: Option<MilliPct>,
    pub util_max: Option<MilliPct>,
    pub mem_avg: Option<u64>,
    pub mem_max: Option<u64>,
    pub power_avg_mw: Option<u32>,
    pub power_max_mw: Option<u32>,
    pub temp_avg_c: Option<MilliC>,
    pub temp_max_c: Option<MilliC>,
    pub fan_max_pct: Option<MilliPct>,
    pub sm_clock_min: Option<u32>,
    pub sm_clock_avg: Option<u32>,
    pub sm_clock_max: Option<u32>,
    pub throttle_n: u32,
    pub throttle_thermal_n: u32,
    pub throttle_power_n: u32,
    pub throttle_hw_n: u32,
}

impl View for SampleRollup {
    type V = SampleRollupView;

    open spec fn view(&self) -> SampleRollupView {
        SampleRollupView {
            device_id: self.device_id@,
            bucket_ms: self.bucket_ms,
            n: self.n,
            util_min: self.util_min,
            util_avg: self.util_avg,
            util_max: self.util_max,
            mem_avg: self.mem_avg,
            mem_max: self.mem_max,
            power_avg_mw: self.power_avg_mw,
            power_max_mw: self.power_max_mw,
            temp_avg_c: self.temp_avg_c,
            temp_max_c: self.temp_max_c,
            fan_max_pct: self.fan_max_pct,
            sm_clock_min: self.sm_clock_min,
            sm_clock_avg: self.sm_clock_avg,
            sm_clock_max: self.sm_clock_max,
            throttle_n: self.throttle_n,
            throttle_thermal_n: self.throttle_thermal_n,
            throttle_power_n: self.throttle_power_n,
            throttle_hw_n: self.throttle_hw_n,
        }
    }
}

/// One process in one 10-second bucket of one device.
#[derive(Debug, PartialEq, Eq)]
pub struct ProcessRollup {
    pub device_id: DeviceId,
    pub bucket_ms: u64,
    pub pid: u32,
    pub name: String,
    pub kind: ProcessKind,
    pub mem_max: Option<u64>,
    pub util_avg: Option<MilliPct>,
    pub cpu_avg: Option<MilliPct>,
    pub container: Option<String>,
}

/// A process rollup by its contents.
#[verifier::ext_equal]
pub struct ProcessRollupView {
    pub device_id: Seq<char>,
    pub bucket_ms: u64,
    pub pid: u32,
    pub name: Seq<char>,
    pub kind: ProcessKind,
    pub mem_max: Option<u64>,
    pub util_avg: Option<MilliPct>,
    pub cpu_avg: Option<MilliPct>,
    pub container: Option<Seq<char>>,
}

impl View for ProcessRollup {
    type V = ProcessRollupView;

    open spec fn view(&self) -> ProcessRollupView {
        ProcessRollupView {
            device_id: self.device_id@,
            bucket_ms: self.bucket_ms,
            pid: self.pid,
            name: self.name@,
            kind: self.kind,
            mem_max: self.mem_max,
            util_avg: self.util_avg,
            cpu_avg: self.cpu_avg,
            container: text_view(self.container),
        }
    }
}

/// The smallest value.
pub open spec fn min_of(s: Seq<int>) -> Option<int>
    decreases s.len(),
{
    if s.len() == 0 {
        None
    } else {
        match min_of(s.drop_last()) {
            Some(m) => Some(if s.last() < m {
                s.last()
            } else {
                m
            }),
            None => Some(s.last()),
        }
    }
}

/// The largest value.
pub open spec fn max_of(s: Seq<int>) -> Option<int>
    decreases s.len(),
{
    if s.len() == 0 {
        None
    } else {
        match max_of(s.drop_last()) {
            Some(m) => Some(if s.last() > m {
                s.last()
            } else {
                m
            }),
            None => Some(s.last()),
        }
    }
}

/// The sum of the values.
pub open spec fn sum_of(s: Seq<int>) -> int
    decreases s.len(),
{
    if s.len() == 0 {
        0
    } else {
        sum_of(s.drop_last()) + s.last()
    }
}

/// `a / n` without its fraction.
pub open spec fn whole_part(a: int, n: int) -> int {
    if a >= 0 {
        a / n
    } else {
        -((-a) / n)
    }
}

/// The mean of the values, without its fraction; `None` where there is no value.
pub open spec fn mean_of(s: Seq<int>) -> Option<int> {
    if s.len() == 0 {
        None
    } else {
        Some(whole_part(sum_of(s), s.len() as int))
    }
}

/// All the values lie between `lo` and `hi`.
pub open spec fn all_between(s: Seq<int>, lo: int, hi: int) -> bool {
    forall|i: int| 0 <= i < s.len() ==> lo <= #[trigger] s[i] <= hi
}

/// The smallest, the mean and the largest of some values are in this order, and lie where the
/// values do.
pub proof fn law_min_mean_max(s: Seq<int>, lo: int, hi: int)
    requires
        s.len() > 0,
        all_between(s, lo, hi),
    ensures
        min_of(s) matches Some(a) && mean_of(s) matches Some(m) && max_of(s) matches Some(b) && lo
            <= a <= m <= b <= hi && s.contains(a) && s.contains(b) && all_between(s, a, b),
{
    lemma_extremes(s);
    let a = min_of(s)->0;
    let b = max_of(s)->0;
    let n = s.len() as int;
    let sum = sum_of(s);
    let i = choose|i: int| 0 <= i < s.len() && s[i] == a;
    let j = choose|j: int| 0 <= j < s.len() && s[j] == b;
    assert(lo <= a && b <= hi);
    lemma_sum_between(s, a, b);
    lemma_whole_part(sum, n, a, b);
}

proof fn lemma_whole_part(sum: int, n: int, a: int, b: int)
    requires
        n > 0,
        n * a <= sum <= n * b,
    ensures
        a <= whole_part(sum, n) <= b,
{
    if sum >= 0 {
        let q = sum / n;
        assert(n * q <= sum < n * q + n) by (nonlinear_arith)
            requires
                q == sum / n,
                n > 0,
        ;
        assert(a <= q) by (nonlinear_arith)
            requires
                n * a < n * q + n,
                n > 0,
        ;
        assert(q <= b) by (nonlinear_arith)
            requires
                n * q <= n * b,
                n > 0,
        ;
    } else {
        let q = (-sum) / n;
        assert(n * q <= -sum < n * q + n) by (nonlinear_arith)
            requires
                q == (-sum) / n,
                n > 0,
        ;
        assert(a <= -q) by (nonlinear_arith)
            requires
                n * a <= -(n * q),
                n > 0,
        ;
        assert(-q <= b) by (nonlinear_arith)
            requires
                -(n * q) - n < n * b,
                n > 0,
        ;
    }
}

proof fn lemma_extremes(s: Seq<int>)
    requires
        s.len() > 0,
    ensures
        min_of(s) is Some,
        max_of(s) is Some,
        s.contains(min_of(s)->0),
        s.contains(max_of(s)->0),
        all_between(s, min_of(s)->0, max_of(s)->0),
    decreases s.len(),
{
    let t = s.drop_last();
    assert(s[s.len() - 1] == s.last());
    if t.len() > 0 {
        lemma_extremes(t);
        let i = choose|i: int| 0 <= i < t.len() && t[i] == min_of(t)->0;
        let j = choose|j: int| 0 <= j < t.len() && t[j] == max_of(t)->0;
        assert(s[i] == t[i] && s[j] == t[j]);
        assert forall|k: int| 0 <= k < s.len() implies min_of(s)->0 <= #[trigger] s[k] <= max_of(
            s,
        )->0 by {
            if k < t.len() {
                assert(t[k] == s[k]);
            }
        }
    }
}

proof fn lemma_sum_between(s: Seq<int>, lo: int, hi: int)
    requires
        all_between(s, lo, hi),
    ensures
        s.len() * lo <= sum_of(s) <= s.len() * hi,
    decreases s.len(),
{
    if s.len() > 0 {
        let t = s.drop_last();
        assert forall|k: int| 0 <= k < t.len() implies lo <= #[trigger] t[k] <= hi by {
            assert(s[k] == t[k]);
        }
        lemma_sum_between(t, lo, hi);
        assert(s[s.len() - 1] == s.last());
        let n = s.len() as int;
        assert(n * lo == (n - 1) * lo + lo && n * hi == (n - 1) * hi + hi) by (nonlinear_arith);
    } else {
        let n = s.len() as int;
        assert(n * lo == 0 && n * hi == 0) by (nonlinear_arith)
            requires
                n == 0,
        ;
    }
}

/// Every value that is ever aggregated is at least this,
pub open spec fn lowest() -> int {
    -0x8000_0000_0000_0000
}

/// and at most this.
pub open spec fn highest() -> int {
    0xffff_ffff_ffff_ffff
}

/// The running aggregate of one metric over the values that were present.
pub struct Agg {
    min: Option<i128>,
    max: Option<i128>,
    sum: i128,
    n: u64,
    values: Ghost<Seq<int>>,
}

impl Agg {
    /// The values so far.
    pub closed spec fn values(self) -> Seq<int> {
        self.values@
    }

    /// The aggregate is that of its values.
    pub closed spec fn wf(self) -> bool {
        &&& self.n == self.values@.len()
        &&& self.sum == sum_of(self.values@)
        &&& (match self.min {
            Some(m) => min_of(self.values@) == Some(m as int),
            None => min_of(self.values@) is None,
        })
        &&& (match self.max {
            Some(m) => max_of(self.values@) == Some(m as int),
            None => max_of(self.values@) is None,
        })
        &&& all_between(self.values@, lowest(), highest())
    }

    pub fn new() -> (r: Self)
        ensures
            r.wf(),
            r.values() == Seq::<int>::empty(),
    {
        Agg { min: None, max: None, sum: 0, n: 0, values: Ghost(Seq::empty()) }
    }

    /// Takes one more value, where there is one.
    pub fn push(&mut self, v: Option<i128>)
        requires
            old(self).wf(),
            v matches Some(x) ==> lowest() <= x <= highest(),
            old(self).values().len() < i64::MAX,
        ensures
            final(self).wf(),
            final(self).values() == (match v {
                Some(x) => old(self).values().push(x as int),
                None => old(self).values(),
            }),
    {
        if let Some(x) = v {
            let ghost before = self.values@;
            let ghost after = before.push(x as int);
            proof {
                assert(after.drop_last() =~= before);
                lemma_sum_between(before, lowest(), highest());
                lemma_bound(before.len() as int);
            }
            self.min = match self.min {
                Some(m) => if x < m {
                    Some(x)
                } else {
                    Some(m)
                },
                None => Some(x),
            };
            self.max = match self.max {
                Some(m) => if x > m {
                    Some(x)
                } else {
                    Some(m)
                },
                None => Some(x),
            };
            self.sum = self.sum + x;
            self.n = self.n + 1;
            self.values = Ghost(after);
        }
    }

    pub fn min(&self) -> (r: Option<i128>)
        requires
            self.wf(),
        ensures
            r matches Some(m) ==> min_of(self.values()) == Some(m as int),
            r is None <==> min_of(self.values()) is None,
    {
        self.min
    }

    pub fn max(&self) -> (r: Option<i128>)
        requires
            self.wf(),
        ensures
            r matches Some(m) ==> max_of(self.values()) == Some(m as int),
            r is None <==> max_of(self.values()) is None,
    {
        self.max
    }

    /// The mean of the values, without its fraction.
    pub fn avg(&self) -> (r: Option<i128>)
        requires
            self.wf(),
        ensures
            r matches Some(m) ==> mean_of(self.values()) == Some(m as int),
            r is None <==> mean_of(self.values()) is None,
    {
        if self.n == 0 {
            return None;
        }
        proof {
            law_min_mean_max(self.values@, lowest(), highest());
            lemma_sum_between(self.values@, lowest(), highest());
            lemma_bound(self.values@.len() as int);
        }
        if self.sum >= 0 {
            let q: u128 = self.sum as u128 / self.n as u128;
            Some(q as i128)
        } else {
            let q: u128 = (-self.sum) as u128 / self.n as u128;
            assert(q == (-self.sum) / (self.n as int));
            Some(-(q as i128))
        }
    }
}

/// The sum of that many values fits in 128 bits.
proof fn lemma_bound(n: int)
    requires
        0 <= n <= 0xffff_ffff_ffff_ffff,
    ensures
        n * lowest() >= -0x8000_0000_0000_0000 * 0xffff_ffff_ffff_ffff,
        n <= 0x7fff_ffff_ffff_fffe ==> n * highest() + highest()
            <= 0x7fff_ffff_ffff_ffff_ffff_ffff_ffff_ffff,
{
    assert(n * -0x8000_0000_0000_0000 >= -0x8000_0000_0000_0000 * 0xffff_ffff_ffff_ffff) by (nonlinear_arith)
        requires
            0 <= n <= 0xffff_ffff_ffff_ffff,
    ;
    if n <= 0x7fff_ffff_ffff_fffe {
        assert(n * 0xffff_ffff_ffff_ffff <= 0x7fff_ffff_ffff_fffe * 0xffff_ffff_ffff_ffff)
            by (nonlinear_arith)
            requires
                0 <= n <= 0x7fff_ffff_ffff_fffe,
        ;
    }
}

/// The present values of a metric, frame by frame.
pub open spec fn present(
    fs: Seq<DynamicSample>,
    metric: spec_fn(DynamicSample) -> Option<int>,
) -> Seq<int> {
    filter_map(fs, metric)
}

pub open spec fn util_of() -> spec_fn(DynamicSample) -> Option<int> {
    |s: DynamicSample|
        match s.util_pct {
            Some(v) => Some(v as int),
            None => None,
        }
}

pub open spec fn mem_of() -> spec_fn(DynamicSample) -> Option<int> {
    |s: DynamicSample|
        match s.mem_used_bytes {
            Some(v) => Some(v as int),
            None => None,
        }
}

pub open spec fn power_of() -> spec_fn(DynamicSample) -> Option<int> {
    |s: DynamicSample|
        match s.power_mw {
            Some(v) => Some(v as int),
            None => None,
        }
}

pub open spec fn temp_of() -> spec_fn(DynamicSample) -> Option<int> {
    |s: DynamicSample|
        match s.temp_c {
            Some(v) => Some(v as int),
            None => None,
        }
}

pub open spec fn fan_of() -> spec_fn(DynamicSample) -> Option<int> {
    |s: DynamicSample|
        match s.fan_pct {
            Some(v) => Some(v as int),
            None => None,
        }
}

pub open spec fn sm_clock_of() -> spec_fn(DynamicSample) -> Option<int> {
    |s: DynamicSample|
        match s.sm_clock_mhz {
            Some(v) => Some(v as int),
            None => None,
        }
}

/// The number of frames for which `p` holds.
pub open spec fn count(fs: Seq<DynamicSample>, p: spec_fn(DynamicSample) -> bool) -> nat
    decreases fs.len(),
{
    if fs.len() == 0 {
        0
    } else {
        count(fs.drop_last(), p) + if p(fs.last()) {
            1nat
        } else {
            0
        }
    }
}

/// The throttle flags that are counted: any reason, thermal, power cap, hardware slowdown. Where
/// throttling cannot be observed none counts.
pub open spec fn flags_of(t: Option<ThrottleReasons>) -> (bool, bool, bool, bool) {
    match t {
        Some(r) => (r.is_any(), r.thermal, r.power_cap, r.hw_slowdown),
        None => (false, false, false, false),
    }
}

pub fn throttle_flags(t: &Option<ThrottleReasons>) -> (r: (bool, bool, bool, bool))
    ensures
        r == flags_of(*t),
{
    match t {
        Some(r) => (r.any(), r.thermal, r.power_cap, r.hw_slowdown),
        None => (false, false, false, false),
    }
}

pub open spec fn throttled() -> spec_fn(DynamicSample) -> bool {
    |s: DynamicSample| flags_of(s.throttle).0
}

pub open spec fn throttled_thermal() -> spec_fn(DynamicSample) -> bool {
    |s: DynamicSample| flags_of(s.throttle).1
}

pub open spec fn throttled_power() -> spec_fn(DynamicSample) -> bool {
    |s: DynamicSample| flags_of(s.throttle).2
}

pub open spec fn throttled_hw() -> spec_fn(DynamicSample) -> bool {
    |s: DynamicSample| flags_of(s.throttle).3
}

pub open spec fn as_u32(v: Option<int>) -> Option<u32> {
    match v {
        Some(x) => Some(x as u32),
        None => None,
    }
}

pub open spec fn as_u64(v: Option<int>) -> Option<u64> {
    match v {
        Some(x) => Some(x as u64),
        None => None,
    }
}

pub open spec fn as_i64(v: Option<int>) -> Option<i64> {
    match v {
        Some(x) => Some(x as i64),
        None => None,
    }
}

/// The rollup of the frames `fs` of a bucket.
pub open spec fn sample_rollup(
    device: Seq<char>,
    bucket_ms: u64,
    fs: Seq<DynamicSample>,
) -> SampleRollupView {
    SampleRollupView {
        device_id: device,
        bucket_ms,
        n: fs.len() as u32,
        util_min: as_i64(min_of(present(fs, util_of()))),
        util_avg: as_i64(mean_of(present(fs, util_of()))),
        util_max: as_i64(max_of(present(fs, util_of()))),
        mem_avg: as_u64(mean_of(present(fs, mem_of()))),
        mem_max: as_u64(max_of(present(fs, mem_of()))),
        power_avg_mw: as_u32(mean_of(present(fs, power_of()))),
        power_max_mw: as_u32(max_of(present(fs, power_of()))),
        temp_avg_c: as_i64(mean_of(present(fs, temp_of()))),
        temp_max_c: as_i64(max_of(present(fs, temp_of()))),
        fan_max_pct: as_i64(max_of(present(fs, fan_of()))),
        sm_clock_min: as_u32(min_of(present(fs, sm_clock_of()))),
        sm_clock_avg: as_u32(mean_of(present(fs, sm_clock_of()))),
        sm_clock_max: as_u32(max_of(present(fs, sm_clock_of()))),
        throttle_n: count(fs, throttled()) as u32,
        throttle_thermal_n: count(fs, throttled_thermal()) as u32,
        throttle_power_n: count(fs, throttled_power()) as u32,
        throttle_hw_n: count(fs, throttled_hw()) as u32,
    }
}

/// The frames of one device in the open bucket of one tier, folded as they come.
pub struct SampleAccum {
    bucket_ms: Option<u64>,
    n: u32,
    util: Agg,
    mem: Agg,
    power: Agg,
    temp: Agg,
    fan: Agg,
    sm_clock: Agg,
    throttle_n: u32,
    throttle_thermal_n: u32,
    throttle_power_n: u32,
    throttle_hw_n: u32,
    frames: Ghost<Seq<DynamicSample>>,
}

fn wide(v: Option<u32>) -> (r: Option<i128>)
    ensures
        r == (match v {
            Some(x) => Some(x as i128),
            None => None,
        }),
{
    match v {
        Some(x) => Some(x as i128),
        None => None,
    }
}

fn narrow(v: Option<i128>) -> (r: Option<u32>)
    requires
        v matches Some(x) ==> 0 <= x <= u32::MAX,
    ensures
        r == (match v {
            Some(x) => Some(x as u32),
            None => None,
        }),
{
    match v {
        Some(x) => Some(x as u32),
        None => None,
    }
}

fn wide_signed(v: Option<i64>) -> (r: Option<i128>)
    ensures
        r == (match v {
            Some(x) => Some(x as i128),
            None => None,
        }),
{
    match v {
        Some(x) => Some(x as i128),
        None => None,
    }
}

fn narrow_signed(v: Option<i128>) -> (r: Option<i64>)
    requires
        v matches Some(x) ==> i64::MIN <= x <= i64::MAX,
    ensures
        r == (match v {
            Some(x) => Some(x as i64),
            None => None,
        }),
{
    match v {
        Some(x) => Some(x as i64),
        None => None,
    }
}

impl SampleAccum {
    /// The open bucket.
    pub closed spec fn bucket(self) -> Option<u64> {
        self.bucket_ms
    }

    /// The frames in it.
    pub closed spec fn frames(self) -> Seq<DynamicSample> {
        self.frames@
    }

    /// Every aggregate is that of the frames.
    pub closed spec fn wf(self) -> bool {
        let fs = self.frames@;
        &&& self.n == fs.len()
        &&& self.util.wf() && self.util.values() == present(fs, util_of())
        &&& self.mem.wf() && self.mem.values() == present(fs, mem_of())
        &&& self.power.wf() && self.power.values() == present(fs, power_of())
        &&& self.temp.wf() && self.temp.values() == present(fs, temp_of())
        &&& self.fan.wf() && self.fan.values() == present(fs, fan_of())
        &&& self.sm_clock.wf() && self.sm_clock.values() == present(fs, sm_clock_of())
        &&& self.throttle_n == count(fs, throttled())
        &&& self.throttle_thermal_n == count(fs, throttled_thermal())
        &&& self.throttle_power_n == count(fs, throttled_power())
        &&& self.throttle_hw_n == count(fs, throttled_hw())
        &&& self.bucket_ms is None ==> fs.len() == 0
    }

    pub proof fn lemma_frames(self)
        requires
            self.wf(),
        ensures
            self.frames().len() <= u32::MAX,
            self.bucket() is None ==> self.frames().len() == 0,
    {
    }

    pub fn new() -> (r: Self)
        ensures
            r.wf(),
            r.bucket() is None,
            r.frames() == Seq::<DynamicSample>::empty(),
    {
        SampleAccum {
            bucket_ms: None,
            n: 0,
            util: Agg::new(),
            mem: Agg::new(),
            power: Agg::new(),
            temp: Agg::new(),
            fan: Agg::new(),
            sm_clock: Agg::new(),
            throttle_n: 0,
            throttle_thermal_n: 0,
            throttle_power_n: 0,
            throttle_hw_n: 0,
            frames: Ghost(Seq::empty()),
        }
    }

    /// Starts bucket `bucket_ms` with no frame in it.
    pub fn reset(&mut self, bucket_ms: u64)
        ensures
            final(self).wf(),
            final(self).bucket() == Some(bucket_ms),
            final(self).frames() == Seq::<DynamicSample>::empty(),
    {
        let mut next = SampleAccum::new();
        next.bucket_ms = Some(bucket_ms);
        *self = next;
    }

    pub fn bucket_ms(&self) -> (r: Option<u64>)
        ensures
            r == self.bucket(),
    {
        self.bucket_ms
    }

    /// The number of frames in the bucket.
    pub fn frame_count(&self) -> (r: u32)
        requires
            self.wf(),
        ensures
            r == self.frames().len(),
    {
        self.n
    }

    /// Takes one more frame into the bucket.
    pub fn fold(&mut self, s: &DynamicSample)
        requires
            old(self).wf(),
            old(self).bucket() is Some,
            old(self).frames().len() < u32::MAX,
        ensures
            final(self).wf(),
            final(self).bucket() == old(self).bucket(),
            final(self).frames() == old(self).frames().push(*s),
    {
        let ghost before = self.frames@;
        let ghost after = before.push(*s);
        proof {
            assert(after.drop_last() =~= before);
            crate::lists::lemma_filter_map_source(before, util_of());
            crate::lists::lemma_filter_map_source(before, mem_of());
            crate::lists::lemma_filter_map_source(before, power_of());
            crate::lists::lemma_filter_map_source(before, temp_of());
            crate::lists::lemma_filter_map_source(before, fan_of());
            crate::lists::lemma_filter_map_source(before, sm_clock_of());
            lemma_count(before, throttled());
            lemma_count(before, throttled_thermal());
            lemma_count(before, throttled_power());
            lemma_count(before, throttled_hw());
        }
        self.n = self.n + 1;
        self.util.push(wide_signed(s.util_pct));
        self.mem.push(
            match s.mem_used_bytes {
                Some(v) => Some(v as i128),
                None => None,
            },
        );
        self.power.push(wide(s.power_mw));
        self.temp.push(wide_signed(s.temp_c));
        self.fan.push(wide_signed(s.fan_pct));
        self.sm_clock.push(wide(s.sm_clock_mhz));
        let flags = throttle_flags(&s.throttle);
        if flags.0 {
            self.throttle_n = self.throttle_n + 1;
        }
        if flags.1 {
            self.throttle_thermal_n = self.throttle_thermal_n + 1;
        }
        if flags.2 {
            self.throttle_power_n = self.throttle_power_n + 1;
        }
        if flags.3 {
            self.throttle_hw_n = self.throttle_hw_n + 1;
        }
        self.frames = Ghost(after);
    }

    /// The rollup of the bucket; `None` where none is open.
    pub fn to_rollup(&self, device_id: &DeviceId) -> (r: Option<SampleRollup>)
        requires
            self.wf(),
        ensures
            match r {
                Some(row) => self.bucket() is Some && row@ == sample_rollup(
                    device_id@,
                    self.bucket()->0,
                    self.frames(),
                ),
                None => self.bucket() is None,
            },
    {
        let bucket_ms: u64 = match self.bucket_ms {
            Some(b) => b,
            None => {
                return None;
            },
        };
        proof {
            let fs = self.frames@;
            lemma_present_between(fs, util_of(), i64::MIN as int, i64::MAX as int);
            lemma_present_between(fs, mem_of(), 0, u64::MAX as int);
            lemma_present_between(fs, power_of(), 0, u32::MAX as int);
            lemma_present_between(fs, temp_of(), i64::MIN as int, i64::MAX as int);
            lemma_present_between(fs, fan_of(), i64::MIN as int, i64::MAX as int);
            lemma_present_between(fs, sm_clock_of(), 0, u32::MAX as int);
        }
        Some(
            SampleRollup {
                device_id: device_id.clone(),
                bucket_ms,
                n: self.n,
                util_min: narrow_signed(self.util.min()),
                util_avg: narrow_signed(self.util.avg()),
                util_max: narrow_signed(self.util.max()),
                mem_avg: match self.mem.avg() {
                    Some(v) => Some(v as u64),
                    None => None,
                },
                mem_max: match self.mem.max() {
                    Some(v) => Some(v as u64),
                    None => None,
                },
                power_avg_mw: narrow(self.power.avg()),
                power_max_mw: narrow(self.power.max()),
                temp_avg_c: narrow_signed(self.temp.avg()),
                temp_max_c: narrow_signed(self.temp.max()),
                fan_max_pct: narrow_signed(self.fan.max()),
                sm_clock_min: narrow(self.sm_clock.min()),
                sm_clock_avg: narrow(self.sm_clock.avg()),
                sm_clock_max: narrow(self.sm_clock.max()),
                throttle_n: self.throttle_n,
                throttle_thermal_n: self.throttle_thermal_n,
                throttle_power_n: self.throttle_power_n,
                throttle_hw_n: self.throttle_hw_n,
            },
        )
    }
}

proof fn lemma_count(fs: Seq<DynamicSample>, p: spec_fn(DynamicSample) -> bool)
    ensures
        count(fs, p) <= fs.len(),
    decreases fs.len(),
{
    if fs.len() > 0 {
        lemma_count(fs.drop_last(), p);
    }
}

/// The smallest, the mean and the largest present value lie where the metric's values do.
proof fn lemma_present_between(
    fs: Seq<DynamicSample>,
    metric: spec_fn(DynamicSample) -> Option<int>,
    lo: int,
    hi: int,
)
    requires
        forall|s: DynamicSample| #[trigger] metric(s) matches Some(v) ==> lo <= v <= hi,
    ensures
        min_of(present(fs, metric)) matches Some(v) ==> lo <= v <= hi,
        mean_of(present(fs, metric)) matches Some(v) ==> lo <= v <= hi,
        max_of(present(fs, metric)) matches Some(v) ==> lo <= v <= hi,
{
    let vs = present(fs, metric);
    crate::lists::lemma_filter_map_source(fs, metric);
    assert forall|i: int| 0 <= i < vs.len() implies lo <= #[trigger] vs[i] <= hi by {
        let j = choose|j: int| 0 <= j < fs.len() && metric(#[trigger] fs[j]) == Some(vs[i]);
        assert(metric(fs[j]) is Some);
    }
    if vs.len() > 0 {
        law_min_mean_max(vs, lo, hi);
    }
}

} // verus!
