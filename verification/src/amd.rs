//! AMD devices on Linux: what the files of the amdgpu driver mean.
//!
//! A missing file or an unreadable value is a missing metric, never a failure: a device without
//! hwmon or clock tables is a normal one.

use vstd::prelude::*;
use vstd::slice::slice_subrange;
use crate::drm::{file_int, file_mw, hex_id, reads};
use crate::drm::{read_hex_id, read_i64, read_mw, reads_as};
use crate::model::{MilliC, MilliPct, ThrottleReasons};
use crate::model::{no_throttle, text_view};
use crate::scan::{before_suffix, has_prefix, line_texts, same_but_case, slices, split_on, start_trimmed, trimmed_text, uint_value};
use crate::scan::{contains_char, eq_ignore_ascii_case, lines, parse_u32, split, starts_with, strip_suffix, trim, trim_start};
use crate::scan::{is_space, law_decimals_read_back, lemma_decimal_digits, lemma_split_two};
use crate::text::{dec, split_at_char};
use crate::text::{chars_of, split_once, text_of};

pub mod backend;

verus! {

/// The number of decimal digits that `s` starts with.
pub open spec fn leading_digits(s: Seq<char>) -> nat
    decreases s.len(),
{
    if s.len() > 0 && '0' <= s[0] <= '9' {
        1 + leading_digits(s.skip(1))
    } else {
        0
    }
}

/// The frequency of a level of a clock table (`1: 1138Mhz *`): the digits after the first colon.
/// The spelling of the unit varies and is not looked at.
pub open spec fn level_mhz(line: Seq<char>) -> Option<nat> {
    let parts = split_on(line, ':');
    if parts.len() < 2 {
        None
    } else {
        let after = start_trimmed(parts[1]);
        uint_value(after.take(leading_digits(after) as int), 10, u32::MAX as nat)
    }
}

fn dpm_line_mhz(line: &[char]) -> (r: Option<u32>)
    ensures
        match r {
            Some(v) => level_mhz(line@) == Some(v as nat),
            None => level_mhz(line@) is None,
        },
{
    let parts = split(line, ':');
    if parts.len() < 2 {
        return None;
    }
    assert(slices(parts@)[1] == parts@[1]@);
    let after = trim_start(parts[1]);
    let mut n: usize = 0;
    assert(after@.skip(0) =~= after@);
    while n < after.len() && '0' <= after[n] && after[n] <= '9'
        invariant
            n <= after.len(),
            n + leading_digits(after@.skip(n as int)) == leading_digits(after@),
        decreases after.len() - n,
    {
        assert(after@.skip(n as int).skip(1) =~= after@.skip(n + 1));
        n = n + 1;
    }
    let digits = slice_subrange(after, 0, n);
    assert(digits@ =~= after@.take(n as int));
    parse_u32(digits)
}

/// The first of the lines from `i` on that is marked with an asterisk.
pub open spec fn marked_from(ls: Seq<Seq<char>>, i: int) -> Option<Seq<char>>
    decreases ls.len() - i,
{
    if i < 0 || i >= ls.len() {
        None
    } else if ls[i].contains('*') {
        Some(ls[i])
    } else {
        marked_from(ls, i + 1)
    }
}

/// The last of the first `n` lines that is not blank.
pub open spec fn last_filled(ls: Seq<Seq<char>>, n: int) -> Option<Seq<char>>
    decreases n,
{
    if n <= 0 {
        None
    } else if trimmed_text(ls[n - 1]).len() > 0 {
        Some(ls[n - 1])
    } else {
        last_filled(ls, n - 1)
    }
}

/// The frequency of the selected level of a clock table.
pub open spec fn current_mhz(table: Seq<char>) -> Option<nat> {
    match marked_from(line_texts(table), 0) {
        Some(l) => level_mhz(l),
        None => None,
    }
}

/// The frequency of the highest level of a clock table: the last.
pub open spec fn max_mhz(table: Seq<char>) -> Option<nat> {
    match last_filled(line_texts(table), line_texts(table).len() as int) {
        Some(l) => level_mhz(l),
        None => None,
    }
}

pub fn dpm_current_mhz(table: &str) -> (r: Option<u32>)
    ensures
        match r {
            Some(v) => current_mhz(table@) == Some(v as nat),
            None => current_mhz(table@) is None,
        },
{
    let chars: Vec<char> = chars_of(table);
    let ls = lines(chars.as_slice());
    let ghost views = slices(ls@);
    let mut i: usize = 0;
    while i < ls.len()
        invariant
            i <= ls.len(),
            views == slices(ls@),
            views == line_texts(table@),
            marked_from(views, i as int) == marked_from(views, 0),
        decreases ls.len() - i,
    {
        if contains_char(ls[i], '*') {
            return dpm_line_mhz(ls[i]);
        }
        i = i + 1;
    }
    None
}

pub fn dpm_max_mhz(table: &str) -> (r: Option<u32>)
    ensures
        match r {
            Some(v) => max_mhz(table@) == Some(v as nat),
            None => max_mhz(table@) is None,
        },
{
    let chars: Vec<char> = chars_of(table);
    let ls = lines(chars.as_slice());
    let ghost views = slices(ls@);
    let mut n: usize = ls.len();
    while n > 0
        invariant
            n <= ls.len(),
            views == slices(ls@),
            views == line_texts(table@),
            last_filled(views, n as int) == last_filled(views, views.len() as int),
        decreases n,
    {
        assert(views[n - 1] == ls@[n - 1]@);
        if trim(ls[n - 1]).len() > 0 {
            return dpm_line_mhz(ls[n - 1]);
        }
        n = n - 1;
    }
    None
}

/// The clock of an optional table.
pub open spec fn table_mhz(table: Option<Seq<char>>, max: bool) -> Option<u32> {
    match table {
        Some(t) => match if max {
            max_mhz(t)
        } else {
            current_mhz(t)
        } {
            Some(v) => Some(v as u32),
            None => None,
        },
        None => None,
    }
}

pub fn read_table(table: &Option<String>, max: bool) -> (r: Option<u32>)
    ensures
        r == table_mhz(text_view(*table), max),
{
    match table {
        Some(t) => if max {
            dpm_max_mhz(t.as_str())
        } else {
            dpm_current_mhz(t.as_str())
        },
        None => None,
    }
}

/// A sensor's label file in a hwmon directory, and what was read of it and of its input file.
pub struct TempLabel {
    /// The name of the label file (`temp2_label`).
    pub name: String,
    pub label: Option<String>,
    pub input: Option<String>,
}

#[verifier::ext_equal]
pub struct TempLabelView {
    pub name: Seq<char>,
    pub label: Option<Seq<char>>,
    pub input: Option<Seq<char>>,
}

impl View for TempLabel {
    type V = TempLabelView;

    open spec fn view(&self) -> TempLabelView {
        TempLabelView {
            name: self.name@,
            label: text_view(self.label),
            input: text_view(self.input),
        }
    }
}

/// The name of the input file that belongs to a temperature's label file.
pub open spec fn input_of_label(name: Seq<char>) -> Option<Seq<char>> {
    match before_suffix(name, "_label"@) {
        Some(stem) => if has_prefix(stem, "temp"@) {
            Some(stem + "_input"@)
        } else {
            None
        },
        None => None,
    }
}

pub fn temp_input_name(name: &str) -> (r: Option<String>)
    ensures
        text_view(r) == input_of_label(name@),
{
    let chars: Vec<char> = chars_of(name);
    match strip_suffix(chars.as_slice(), "_label") {
        Some(stem) => if starts_with(stem, "temp") {
            let mut out: String = text_of(stem);
            out.append("_input");
            Some(out)
        } else {
            None
        },
        None => None,
    }
}

/// The reading of the first of the sensors from `i` on that is labelled `edge` and reads.
pub open spec fn edge_from(ls: Seq<TempLabelView>, i: int) -> Option<int>
    decreases ls.len() - i,
{
    if i < 0 || i >= ls.len() {
        None
    } else if input_of_label(ls[i].name) is Some && reads(ls[i].label, "edge"@) && file_int(
        ls[i].input,
    ) is Some {
        file_int(ls[i].input)
    } else {
        edge_from(ls, i + 1)
    }
}

/// The temperature at the edge of the die, else that of the first sensor.
pub open spec fn edge_temp(ls: Seq<TempLabelView>, temp1: Option<Seq<char>>) -> Option<MilliC> {
    match edge_from(ls, 0) {
        Some(t) => Some(t as MilliC),
        None => match file_int(temp1) {
            Some(t) => Some(t as MilliC),
            None => None,
        },
    }
}

pub open spec fn label_views(v: Seq<TempLabel>) -> Seq<TempLabelView> {
    Seq::new(v.len(), |i: int| v[i]@)
}

pub fn edge_temp_millic(labels: &Vec<TempLabel>, temp1_input: &Option<String>) -> (r: Option<
    MilliC,
>)
    ensures
        r == edge_temp(label_views(labels@), text_view(*temp1_input)),
{
    let ghost views = label_views(labels@);
    let mut i: usize = 0;
    while i < labels.len()
        invariant
            i <= labels.len(),
            views == label_views(labels@),
            edge_from(views, i as int) == edge_from(views, 0),
        decreases labels.len() - i,
    {
        let l = &labels[i];
        assert(views[i as int] == l@);
        if temp_input_name(l.name.as_str()).is_some() && reads_as(&l.label, "edge") {
            if let Some(t) = read_i64(&l.input) {
                return Some(t);
            }
        }
        i = i + 1;
    }
    read_i64(temp1_input)
}

/// The power drawn: the average, else (on kernels without it) the instantaneous reading.
pub fn power_mw(power1_average: &Option<String>, power1_input: &Option<String>) -> (r: Option<u32>)
    ensures
        r == (match file_mw(text_view(*power1_average)) {
            Some(mw) => Some(mw),
            None => file_mw(text_view(*power1_input)),
        }),
{
    match read_mw(power1_average) {
        Some(mw) => Some(mw),
        None => read_mw(power1_input),
    }
}

/// The power limit.
pub fn power_cap_mw(power1_cap: &Option<String>) -> (r: Option<u32>)
    ensures
        r == file_mw(text_view(*power1_cap)),
{
    read_mw(power1_cap)
}

/// The speed of a fan as a share of its maximum, both in thousandths of a revolution per minute;
/// `None` stands for a reading that is no finite number. What cannot be a fan's speed gives no
/// share.
pub open spec fn fan_share(rpm: Option<i64>, max: Option<i64>) -> Option<MilliPct> {
    match (rpm, max) {
        (Some(r), Some(m)) => if r < 0 || m <= 0 {
            None
        } else {
            let pct = r * 100_000 / (m as int);
            Some(if pct > 100_000 {
                100_000
            } else {
                pct as MilliPct
            })
        },
        _ => None,
    }
}

pub fn fan_pct_of_max(rpm: Option<i64>, max: Option<i64>) -> (r: Option<MilliPct>)
    ensures
        r == fan_share(rpm, max),
{
    match (rpm, max) {
        (Some(r), Some(m)) => {
            if r < 0 || m <= 0 {
                return None;
            }
            let pct: u128 = r as u128 * 100_000 / m as u128;
            if pct > 100_000 {
                Some(100_000)
            } else {
                Some(pct as MilliPct)
            }
        },
        _ => None,
    }
}

/// The name on a line of the list of device names (`device id, revision id, name`), where the line
/// is that of the device and revision.
pub open spec fn named_on(line: Seq<char>, device: Seq<char>, revision: Seq<char>) -> Option<
    Seq<char>,
> {
    let t = trimmed_text(line);
    if t.len() == 0 || t[0] == '#' {
        None
    } else {
        match split_at_char(t, ',') {
            Some((dev, rest)) => match split_at_char(rest, ',') {
                Some((rev, name)) => if same_but_case(trimmed_text(dev), device) && same_but_case(
                    trimmed_text(rev),
                    revision,
                ) && trimmed_text(name).len() > 0 {
                    Some(trimmed_text(name))
                } else {
                    None
                },
                None => None,
            },
            None => None,
        }
    }
}

/// The name on the first of the lines from `i` on that has it.
pub open spec fn name_from(
    ls: Seq<Seq<char>>,
    device: Seq<char>,
    revision: Seq<char>,
    i: int,
) -> Option<Seq<char>>
    decreases ls.len() - i,
{
    if i < 0 || i >= ls.len() {
        None
    } else {
        match named_on(ls[i], device, revision) {
            Some(n) => Some(n),
            None => name_from(ls, device, revision, i + 1),
        }
    }
}

fn name_on(line: &[char], device: &[char], revision: &[char]) -> (r: Option<String>)
    ensures
        text_view(r) == named_on(line@, device@, revision@),
{
    let t = trim(line);
    if t.len() == 0 || t[0] == '#' {
        return None;
    }
    if let Some((dev, rest)) = split_once(t, ',') {
        if let Some((rev, name)) = split_once(rest, ',') {
            if eq_ignore_ascii_case(trim(dev), device) && eq_ignore_ascii_case(
                trim(rev),
                revision,
            ) {
                let name = trim(name);
                if name.len() > 0 {
                    return Some(text_of(name));
                }
            }
        }
    }
    None
}

pub fn amdgpu_ids_name(ids: &str, device: &str, revision: &str) -> (r: Option<String>)
    ensures
        text_view(r) == name_from(line_texts(ids@), device@, revision@, 0),
{
    let chars: Vec<char> = chars_of(ids);
    let dev: Vec<char> = chars_of(device);
    let rev: Vec<char> = chars_of(revision);
    let ls = lines(chars.as_slice());
    let ghost views = slices(ls@);
    let mut i: usize = 0;
    while i < ls.len()
        invariant
            i <= ls.len(),
            views == slices(ls@),
            views == line_texts(ids@),
            dev@ == device@,
            rev@ == revision@,
            name_from(views, device@, revision@, i as int) == name_from(
                views,
                device@,
                revision@,
                0,
            ),
        decreases ls.len() - i,
    {
        if let Some(name) = name_on(ls[i], dev.as_slice(), rev.as_slice()) {
            return Some(name);
        }
        i = i + 1;
    }
    None
}

/// The name of a device: from the list of names where it is there, else its PCI id.
pub open spec fn device_name(
    device: Option<Seq<char>>,
    revision: Option<Seq<char>>,
    ids: Option<Seq<char>>,
) -> Seq<char> {
    match hex_id(device) {
        Some(dev) => {
            let listed = match (hex_id(revision), ids) {
                (Some(rev), Some(list)) => name_from(line_texts(list), dev, rev, 0),
                _ => None,
            };
            match listed {
                Some(name) => name,
                None => "AMD GPU [1002:"@ + dev + "]"@,
            }
        },
        None => "AMD GPU"@,
    }
}

pub fn gpu_name(
    device: &Option<String>,
    revision: &Option<String>,
    ids: &Option<String>,
) -> (r: String)
    ensures
        r@ == device_name(text_view(*device), text_view(*revision), text_view(*ids)),
{
    let mut out: String = String::new();
    match read_hex_id(device) {
        Some(dev) => {
            if let Some(rev) = read_hex_id(revision) {
                if let Some(list) = ids {
                    if let Some(name) = amdgpu_ids_name(
                        list.as_str(),
                        dev.as_str(),
                        rev.as_str(),
                    ) {
                        return name;
                    }
                }
            }
            out.append("AMD GPU [1002:");
            out.append(dev.as_str());
            out.append("]");
            assert(out@ =~= "AMD GPU [1002:"@ + dev@ + "]"@);
        },
        None => {
            out.append("AMD GPU");
            assert(out@ =~= "AMD GPU"@);
        },
    }
    out
}

/// Where a revision of the driver's metrics table keeps its throttle words.
#[derive(Clone, Copy, PartialEq, Eq, Structural)]
pub struct MetricsLayout {
    /// The size of the table, by which a revision is told from a grown one.
    pub size: usize,
    /// The word whose bits differ from chip to chip.
    pub legacy: usize,
    /// The word whose bits mean the same on every chip, where the revision has it.
    pub common: Option<usize>,
}

/// The layouts of the revisions that say whether the device is throttling. (Revision 3.0 only
/// has running totals, of which one table shows no state.)
pub open spec fn metrics_layout(format: u8, content: u8) -> Option<MetricsLayout> {
    if format == 1 && content == 1 {
        Some(MetricsLayout { size: 96, legacy: 68, common: None })
    } else if format == 1 && content == 2 {
        Some(MetricsLayout { size: 104, legacy: 68, common: None })
    } else if format == 1 && content == 3 {
        Some(MetricsLayout { size: 120, legacy: 68, common: Some(112) })
    } else if format == 2 && content == 0 {
        Some(MetricsLayout { size: 120, legacy: 112, common: None })
    } else if format == 2 && content == 1 {
        Some(MetricsLayout { size: 120, legacy: 108, common: None })
    } else if format == 2 && content == 2 {
        Some(MetricsLayout { size: 128, legacy: 108, common: Some(120) })
    } else if format == 2 && content == 3 {
        Some(MetricsLayout { size: 152, legacy: 108, common: Some(120) })
    } else if format == 2 && content == 4 {
        Some(MetricsLayout { size: 168, legacy: 108, common: Some(120) })
    } else {
        None
    }
}

fn layout_of(format: u8, content: u8) -> (r: Option<MetricsLayout>)
    ensures
        r == metrics_layout(format, content),
{
    if format == 1 && content == 1 {
        Some(MetricsLayout { size: 96, legacy: 68, common: None })
    } else if format == 1 && content == 2 {
        Some(MetricsLayout { size: 104, legacy: 68, common: None })
    } else if format == 1 && content == 3 {
        Some(MetricsLayout { size: 120, legacy: 68, common: Some(112) })
    } else if format == 2 && content == 0 {
        Some(MetricsLayout { size: 120, legacy: 112, common: None })
    } else if format == 2 && content == 1 {
        Some(MetricsLayout { size: 120, legacy: 108, common: None })
    } else if format == 2 && content == 2 {
        Some(MetricsLayout { size: 128, legacy: 108, common: Some(120) })
    } else if format == 2 && content == 3 {
        Some(MetricsLayout { size: 152, legacy: 108, common: Some(120) })
    } else if format == 2 && content == 4 {
        Some(MetricsLayout { size: 168, legacy: 108, common: Some(120) })
    } else {
        None
    }
}

/// The number that bytes stand for, the lowest first.
pub open spec fn le_value(b: Seq<u8>) -> nat
    decreases b.len(),
{
    if b.len() == 0 {
        0
    } else {
        b[0] as nat + 256 * le_value(b.skip(1))
    }
}

/// The number in `n` bytes of `b` from `at` on.
fn le_at(b: &[u8], at: usize, n: usize) -> (r: u64)
    requires
        at + n <= b@.len() <= usize::MAX,
        n <= 8,
    ensures
        r == le_value(b@.subrange(at as int, at + n)),
{
    let end: usize = at + n;
    let mut k: usize = n;
    let mut value: u128 = 0;
    assert(b@.subrange(at + n, at + n) =~= Seq::<u8>::empty());
    while k > 0
        invariant
            k <= n <= 8,
            end == at + n,
            end <= b@.len(),
            value == le_value(b@.subrange(at + k, at + n)),
            value < pow256((n - k) as nat),
        decreases k,
    {
        k = k - 1;
        let ghost s = b@.subrange(at + k, at + n);
        proof {
            assert(s.skip(1) =~= b@.subrange(at + k + 1, at + n));
            assert(s[0] == b@[at + k]);
            lemma_pow256((n - k - 1) as nat);
            reveal_with_fuel(pow256, 9);
        }
        value = b[at + k] as u128 + 256 * value;
    }
    proof {
        reveal_with_fuel(pow256, 9);
        lemma_pow256(n as nat);
    }
    value as u64
}

spec fn pow256(n: nat) -> nat
    decreases n,
{
    if n == 0 {
        1
    } else {
        256 * pow256((n - 1) as nat)
    }
}

proof fn lemma_pow256(n: nat)
    requires
        n <= 8,
    ensures
        pow256(n) <= 0x1_0000_0000_0000_0000,
{
    reveal_with_fuel(pow256, 9);
}

/// Power limits: bits 0 to 7.
pub const THROTTLER_POWER: u64 = 0xff;

/// Temperatures: bits 32 to 45.
pub const THROTTLER_THERMAL: u64 = 0x3fff_0000_0000;

/// Signals that force the clocks down: bits 46 and 47.
pub const THROTTLER_PROCHOT: u64 = 0xc000_0000_0000;

/// All the rest, currents among them.
pub const THROTTLER_OTHER: u64 = 0xffff_0000_ffff_ff00;

/// The reasons that the common throttle word gives.
pub open spec fn common_reasons(bits: u64) -> ThrottleReasons {
    ThrottleReasons {
        thermal: bits & THROTTLER_THERMAL != 0,
        power_cap: bits & THROTTLER_POWER != 0,
        hw_slowdown: bits & THROTTLER_PROCHOT != 0,
        sync_boost: false,
        other: bits & THROTTLER_OTHER != 0,
    }
}

/// The throttle reasons of a metrics table. `None` where the table does not say: of an unknown
/// revision or size, or with words that the firmware never wrote (all ones). The common word
/// counts before the legacy one, whose bits only show that there is some reason.
pub open spec fn metrics_throttle(b: Seq<u8>) -> Option<ThrottleReasons> {
    if b.len() < 4 {
        None
    } else {
        match metrics_layout(b[2], b[3]) {
            Some(l) => if b.len() != l.size || le_value(b.subrange(0, 2)) != l.size {
                None
            } else {
                let legacy = le_value(b.subrange(l.legacy as int, l.legacy + 4));
                let by_legacy = if legacy == 0xffff_ffff {
                    None
                } else {
                    Some(ThrottleReasons { other: legacy != 0, ..no_throttle() })
                };
                match l.common {
                    Some(at) => {
                        let common = le_value(b.subrange(at as int, at + 8));
                        if common == 0xffff_ffff_ffff_ffff {
                            by_legacy
                        } else {
                            Some(common_reasons(common as u64))
                        }
                    },
                    None => by_legacy,
                }
            },
            None => None,
        }
    }
}

pub fn decode_gpu_metrics_throttle(blob: &[u8]) -> (r: Option<ThrottleReasons>)
    ensures
        r == metrics_throttle(blob@),
{
    if blob.len() < 4 {
        return None;
    }
    let l = match layout_of(blob[2], blob[3]) {
        Some(l) => l,
        None => {
            return None;
        },
    };
    if blob.len() != l.size || le_at(blob, 0, 2) != l.size as u64 {
        return None;
    }
    if let Some(at) = l.common {
        let common: u64 = le_at(blob, at, 8);
        if common != 0xffff_ffff_ffff_ffff {
            return Some(
                ThrottleReasons {
                    thermal: common & THROTTLER_THERMAL != 0,
                    power_cap: common & THROTTLER_POWER != 0,
                    hw_slowdown: common & THROTTLER_PROCHOT != 0,
                    sync_boost: false,
                    other: common & THROTTLER_OTHER != 0,
                },
            );
        }
    }
    let legacy: u64 = le_at(blob, l.legacy, 4);
    if legacy == 0xffff_ffff {
        None
    } else {
        Some(
            ThrottleReasons {
                thermal: false,
                power_cap: false,
                hw_slowdown: false,
                sync_boost: false,
                other: legacy != 0,
            },
        )
    }
}

/// Every bit of the common word counts as exactly one reason: none is dropped.
pub proof fn law_every_throttler_counts_once(bits: u64)
    ensures
        common_reasons(bits).is_any() <==> bits != 0,
        THROTTLER_POWER & THROTTLER_THERMAL == 0,
        THROTTLER_POWER & THROTTLER_PROCHOT == 0,
        THROTTLER_POWER & THROTTLER_OTHER == 0,
        THROTTLER_THERMAL & THROTTLER_PROCHOT == 0,
        THROTTLER_THERMAL & THROTTLER_OTHER == 0,
        THROTTLER_PROCHOT & THROTTLER_OTHER == 0,
{
    assert((bits & 0xff != 0 || bits & 0x3fff_0000_0000 != 0 || bits & 0xc000_0000_0000 != 0 || bits
        & 0xffff_0000_ffff_ff00 != 0) == (bits != 0)) by (bit_vector);
    assert(0xffu64 & 0x3fff_0000_0000 == 0 && 0xffu64 & 0xc000_0000_0000 == 0 && 0xffu64
        & 0xffff_0000_ffff_ff00 == 0 && 0x3fff_0000_0000u64 & 0xc000_0000_0000 == 0
        && 0x3fff_0000_0000u64 & 0xffff_0000_ffff_ff00 == 0 && 0xc000_0000_0000u64
        & 0xffff_0000_ffff_ff00 == 0) by (bit_vector);
}

/// A fan's share is its speed over its maximum, to the thousandth of a percent below, and all of it
/// from the maximum on. There is one wherever the speed is not negative and the maximum is more
/// than nothing.
pub proof fn law_a_fans_share_is_its_speed_over_its_maximum(rpm: i64, max: i64)
    ensures
        fan_share(Some(rpm), Some(max)) is Some <==> rpm >= 0 && max > 0,
        fan_share(Some(rpm), Some(max)) matches Some(p) ==> {
            &&& rpm >= max ==> p == 100_000
            &&& rpm <= max ==> p * max <= rpm * 100_000 < (p + 1) * max
            &&& rpm * 2 == max ==> p == 50_000
        },
        fan_share(None, Some(max)) is None && fan_share(Some(rpm), None) is None && fan_share(
            None,
            None,
        ) is None,
{
    if rpm >= 0 && max > 0 {
        let r = rpm as int;
        let m = max as int;
        let q = r * 100_000 / m;
        vstd::arithmetic::div_mod::lemma_fundamental_div_mod(r * 100_000, m);
        assert(q * m <= r * 100_000 < (q + 1) * m) by (nonlinear_arith)
            requires
                r * 100_000 == m * q + (r * 100_000) % m,
                0 <= (r * 100_000) % m < m,
        ;
        assert(r >= m ==> q >= 100_000) by (nonlinear_arith)
            requires
                r * 100_000 < (q + 1) * m,
                m > 0,
        ;
        assert(r <= m ==> 0 <= q <= 100_000) by (nonlinear_arith)
            requires
                q * m <= r * 100_000 < (q + 1) * m,
                m > 0,
                r >= 0,
        ;
        assert(r * 2 == m ==> q == 50_000) by (nonlinear_arith)
            requires
                q * m <= r * 100_000 < (q + 1) * m,
                m > 0,
        ;
    }
}

/// The bit `i` alone of the common throttle word shows one reason: bits 0 to 7 a power limit, 32 to
/// 45 heat, 46 and 47 a slowdown that is forced from outside, and every other bit another one.
pub proof fn law_each_throttler_has_its_reason(i: u64)
    requires
        i < 64,
    ensures
        ({
            let t = common_reasons(1u64 << i);
            &&& t.power_cap <==> i <= 7
            &&& t.thermal <==> 32 <= i <= 45
            &&& t.hw_slowdown <==> 46 <= i <= 47
            &&& t.other <==> 8 <= i <= 31 || i >= 48
            &&& !t.sync_boost
        }),
{
    assert(((1u64 << i) & 0xff != 0 <==> i <= 7) && ((1u64 << i) & 0x3fff_0000_0000 != 0 <==> 32
        <= i && i <= 45) && ((1u64 << i) & 0xc000_0000_0000 != 0 <==> 46 <= i && i <= 47) && ((1u64
        << i) & 0xffff_0000_ffff_ff00 != 0 <==> (8 <= i && i <= 31) || i >= 48)) by (bit_vector)
        requires
            i < 64,
    ;
}

/// The reasons of two words together are those of each.
pub proof fn law_throttlers_add_up(a: u64, b: u64)
    ensures
        ({
            let x = common_reasons(a);
            let y = common_reasons(b);
            common_reasons(a | b) == ThrottleReasons {
                thermal: x.thermal || y.thermal,
                power_cap: x.power_cap || y.power_cap,
                hw_slowdown: x.hw_slowdown || y.hw_slowdown,
                sync_boost: false,
                other: x.other || y.other,
            }
        }),
{
    assert(forall|m: u64| #[trigger] ((a | b) & m) != 0 <==> a & m != 0 || b & m != 0) by (bit_vector);
}

/// The clock now is that of the first level that is marked, and the highest that of the last level
/// of the table; where none is marked, or there is no level, there is no clock.
pub proof fn law_the_marked_level_is_the_clock_now(table: Seq<char>, i: int)
    requires
        0 <= i < line_texts(table).len(),
    ensures
        line_texts(table)[i].contains('*') && (forall|j: int|
            0 <= j < i ==> !(#[trigger] line_texts(table)[j]).contains('*')) ==> current_mhz(table)
            == level_mhz(line_texts(table)[i]),
        (forall|j: int|
            0 <= j < line_texts(table).len() ==> !(#[trigger] line_texts(table)[j]).contains('*'))
            ==> current_mhz(table) is None,
        trimmed_text(line_texts(table)[i]).len() > 0 && (forall|j: int|
            i < j < line_texts(table).len() ==> trimmed_text(#[trigger] line_texts(table)[j]).len()
                == 0) ==> max_mhz(table) == level_mhz(line_texts(table)[i]),
{
    let ls = line_texts(table);
    if forall|j: int| 0 <= j < i ==> !(#[trigger] ls[j]).contains('*') {
        lemma_marked(ls, 0, i);
    }
    if forall|j: int| 0 <= j < ls.len() ==> !(#[trigger] ls[j]).contains('*') {
        lemma_marked(ls, 0, ls.len() as int);
    }
    if forall|j: int| i < j < ls.len() ==> trimmed_text(#[trigger] ls[j]).len() == 0 {
        lemma_filled(ls, ls.len() as int, i);
    }
}

proof fn lemma_marked(ls: Seq<Seq<char>>, a: int, b: int)
    requires
        0 <= a <= b <= ls.len(),
        forall|j: int| a <= j < b ==> !(#[trigger] ls[j]).contains('*'),
    ensures
        marked_from(ls, a) == marked_from(ls, b),
    decreases b - a,
{
    if a < b {
        lemma_marked(ls, a + 1, b);
    }
}

proof fn lemma_filled(ls: Seq<Seq<char>>, n: int, i: int)
    requires
        0 <= i < n <= ls.len(),
        forall|j: int| i < j < n ==> trimmed_text(#[trigger] ls[j]).len() == 0,
    ensures
        last_filled(ls, n) == last_filled(ls, i + 1),
    decreases n,
{
    if n > i + 1 {
        lemma_filled(ls, n - 1, i);
    }
}

/// A level reads as the frequency that is written behind its number, whatever follows it.
pub proof fn law_a_level_reads_back(level: nat, mhz: nat, unit: Seq<char>)
    requires
        mhz <= u32::MAX,
        unit.len() > 0,
        !('0' <= unit[0] <= '9'),
        !unit.contains(':'),
    ensures
        level_mhz(dec(level) + seq![':', ' '] + dec(mhz) + unit) == Some(mhz),
{
    let line = dec(level) + seq![':', ' '] + dec(mhz) + unit;
    let after = dec(mhz) + unit;
    lemma_decimal_digits(level);
    lemma_decimal_digits(mhz);
    law_decimals_read_back(mhz, u32::MAX as nat);
    let rest = seq![' '] + after;
    assert(line =~= dec(level) + seq![':'] + rest);
    assert(!rest.contains(':')) by {
        if rest.contains(':') {
            let k = choose|k: int| 0 <= k < rest.len() && rest[k] == ':';
            if k > dec(mhz).len() {
                assert(unit[k - 1 - dec(mhz).len()] == ':');
            } else if k > 0 {
                assert(dec(mhz)[k - 1] == ':');
            }
        }
    }
    lemma_split_two(dec(level), rest, ':');
    assert(start_trimmed(rest) == after) by {
        assert(rest.skip(1) =~= after);
        assert(after[0] == dec(mhz)[0]);
        assert(rest[0] == ' ');
        assert(!is_space(after[0]));
        assert(start_trimmed(after) == after);
        assert(start_trimmed(rest) == start_trimmed(rest.skip(1)));
    }
    lemma_leading(dec(mhz), unit);
    assert(after.take(dec(mhz).len() as int) =~= dec(mhz));
}

proof fn lemma_leading(d: Seq<char>, unit: Seq<char>)
    requires
        forall|i: int| 0 <= i < d.len() ==> '0' <= #[trigger] d[i] <= '9',
        unit.len() > 0,
        !('0' <= unit[0] <= '9'),
    ensures
        leading_digits(d + unit) == d.len(),
    decreases d.len(),
{
    let s = d + unit;
    if d.len() > 0 {
        assert(s[0] == d[0]);
        assert(s.skip(1) =~= d.skip(1) + unit);
        lemma_leading(d.skip(1), unit);
    } else {
        assert(s =~= unit);
    }
}

/// The temperature is that of the first sensor that is labelled `edge` and reads; where there is
/// none, that of the first sensor.
pub proof fn law_the_edge_sensor_counts(
    ls: Seq<TempLabelView>,
    temp1: Option<Seq<char>>,
    i: int,
)
    ensures
        0 <= i < ls.len() && reads_edge(ls[i]) && (forall|j: int|
            0 <= j < i ==> !reads_edge(#[trigger] ls[j])) ==> edge_temp(ls, temp1) is Some && Some(
            edge_temp(ls, temp1)->0 as int,
        ) == file_int(ls[i].input),
        (forall|j: int| 0 <= j < ls.len() ==> !reads_edge(#[trigger] ls[j])) ==> match file_int(
            temp1,
        ) {
            Some(t) => edge_temp(ls, temp1) is Some && edge_temp(ls, temp1)->0 == t,
            None => edge_temp(ls, temp1) is None,
        },
{
    if 0 <= i < ls.len() && reads_edge(ls[i]) && (forall|j: int|
        0 <= j < i ==> !reads_edge(#[trigger] ls[j])) {
        lemma_edge_from(ls, 0, i);
        lemma_int_fits(ls[i].input);
    }
    if forall|j: int| 0 <= j < ls.len() ==> !reads_edge(#[trigger] ls[j]) {
        lemma_edge_from(ls, 0, ls.len() as int);
    }
    lemma_int_fits(temp1);
}

/// The sensor is labelled `edge`, and its input reads.
pub open spec fn reads_edge(l: TempLabelView) -> bool {
    input_of_label(l.name) is Some && reads(l.label, "edge"@) && file_int(l.input) is Some
}

proof fn lemma_int_fits(file: Option<Seq<char>>)
    ensures
        file_int(file) matches Some(t) ==> i64::MIN <= t <= i64::MAX,
{
}

proof fn lemma_edge_from(ls: Seq<TempLabelView>, a: int, b: int)
    requires
        0 <= a <= b <= ls.len(),
        forall|j: int| a <= j < b ==> !reads_edge(#[trigger] ls[j]),
    ensures
        edge_from(ls, a) == edge_from(ls, b),
    decreases b - a,
{
    if a < b {
        lemma_edge_from(ls, a + 1, b);
    }
}

/// A device has the name of the first line of the list that is of its device and its revision.
pub proof fn law_the_first_listed_name_counts(
    ls: Seq<Seq<char>>,
    device: Seq<char>,
    revision: Seq<char>,
    i: int,
)
    requires
        0 <= i < ls.len(),
        named_on(ls[i], device, revision) is Some,
        forall|j: int| 0 <= j < i ==> named_on(#[trigger] ls[j], device, revision) is None,
    ensures
        name_from(ls, device, revision, 0) == named_on(ls[i], device, revision),
{
    lemma_name_from(ls, device, revision, 0, i);
}

proof fn lemma_name_from(
    ls: Seq<Seq<char>>,
    device: Seq<char>,
    revision: Seq<char>,
    a: int,
    i: int,
)
    requires
        0 <= a <= i < ls.len(),
        forall|j: int| a <= j < i ==> named_on(#[trigger] ls[j], device, revision) is None,
    ensures
        name_from(ls, device, revision, a) == name_from(ls, device, revision, i),
    decreases i - a,
{
    if a < i {
        lemma_name_from(ls, device, revision, a + 1, i);
    }
}

/// The bytes of a word are read with the lowest first.
pub proof fn law_words_are_read_lowest_byte_first(b: Seq<u8>)
    ensures
        b.len() == 2 ==> le_value(b) == b[0] + 0x100 * b[1],
        b.len() == 4 ==> le_value(b) == b[0] + 0x100 * b[1] + 0x1_0000 * b[2] + 0x100_0000 * b[3],
        b.len() == 8 ==> le_value(b) == b[0] + 0x100 * b[1] + 0x1_0000 * b[2] + 0x100_0000 * b[3]
            + 0x1_0000_0000 * b[4] + 0x100_0000_0000 * b[5] + 0x1_0000_0000_0000 * b[6]
            + 0x100_0000_0000_0000 * b[7],
{
    reveal_with_fuel(le_value, 9);
    if b.len() == 2 || b.len() == 4 || b.len() == 8 {
        assert(b.skip(1).skip(1) =~= b.skip(2));
    }
    if b.len() == 4 || b.len() == 8 {
        assert(b.skip(2).skip(1) =~= b.skip(3));
        assert(b.skip(3).skip(1) =~= b.skip(4));
    }
    if b.len() == 8 {
        assert(b.skip(4).skip(1) =~= b.skip(5));
        assert(b.skip(5).skip(1) =~= b.skip(6));
        assert(b.skip(6).skip(1) =~= b.skip(7));
        assert(b.skip(7).skip(1) =~= b.skip(8));
    }
}

/// A table of a revision that has the common throttle word shows the reasons of that word, where
/// the firmware wrote it; without it, or where it was not written, the legacy word shows whether
/// there is any reason; and where that was not written either, the table shows nothing. The words
/// are where the revision of the table has them.
pub proof fn law_the_common_word_comes_first(b: Seq<u8>, size: int, legacy: int, common: Option<int>)
    requires
        b.len() == size,
        size >= 4 && b[0] == size && b[1] == 0,
        ({
            ||| b[2] == 1 && b[3] == 1 && size == 96 && legacy == 68 && common is None
            ||| b[2] == 1 && b[3] == 2 && size == 104 && legacy == 68 && common is None
            ||| b[2] == 1 && b[3] == 3 && size == 120 && legacy == 68 && common == Some(112int)
            ||| b[2] == 2 && b[3] == 0 && size == 120 && legacy == 112 && common is None
            ||| b[2] == 2 && b[3] == 1 && size == 120 && legacy == 108 && common is None
            ||| b[2] == 2 && b[3] == 2 && size == 128 && legacy == 108 && common == Some(120int)
            ||| b[2] == 2 && b[3] == 3 && size == 152 && legacy == 108 && common == Some(120int)
            ||| b[2] == 2 && b[3] == 4 && size == 168 && legacy == 108 && common == Some(120int)
        }),
    ensures
        ({
            let t = metrics_throttle(b);
            let old_word = le_value(b.subrange(legacy, legacy + 4));
            let new_word = le_value(b.subrange(common->0, common->0 + 8));
            &&& common is Some && new_word < 0xffff_ffff_ffff_ffff ==> t == Some(
                common_reasons(new_word as u64),
            )
            &&& common is None || new_word == 0xffff_ffff_ffff_ffff ==> {
                &&& t is None <==> old_word == 0xffff_ffff
                &&& t matches Some(r) ==> !r.thermal && !r.power_cap && !r.hw_slowdown
                    && !r.sync_boost && (r.other <==> old_word != 0)
            }
        }),
{
    let head = b.subrange(0, 2);
    law_words_are_read_lowest_byte_first(head);
    assert(head[0] == b[0] && head[1] == b[1]);
    let old_bytes = b.subrange(legacy, legacy + 4);
    law_words_are_read_lowest_byte_first(old_bytes);
    if let Some(at) = common {
        law_words_are_read_lowest_byte_first(b.subrange(at, at + 8));
    }
}

/// A device that can be told by its id but is not in the list shows the id, in brackets and behind
/// that of the vendor; one without an id shows the vendor alone.
pub proof fn law_an_unlisted_device_shows_its_id(
    device: Option<Seq<char>>,
    revision: Option<Seq<char>>,
    list: Seq<char>,
)
    ensures
        device_name(None, revision, Some(list)) == "AMD GPU"@,
        hex_id(device) matches Some(id) ==> {
            let unlisted = "AMD GPU [1002:"@ + id + "]"@;
            &&& device_name(device, revision, None) == unlisted
            &&& device_name(device, None, Some(list)) == unlisted
            &&& hex_id(revision) matches Some(rev) ==> device_name(device, revision, Some(list)) == (
            match name_from(line_texts(list), id, rev, 0) {
                Some(name) => name,
                None => unlisted,
            })
        },
{
}

} // verus!
