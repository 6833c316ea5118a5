//! The persistent tier: how rollups and events become rows and rows become them again, and which
//! rows are still kept. The database itself is the caller's.

use vstd::prelude::*;
use crate::events::{Event, EventView};
use crate::history::rollup::{ProcessRollup, ProcessRollupView, SampleRollup, SampleRollupView, Tier};
use crate::lists::filter_map;
use crate::lists::lemma_filter_map_step;
use crate::history::tokens::{confidence_from_str, confidence_to_str, kind_from_proc_str, kind_from_str};
use crate::history::tokens::{kind_str, kind_to_str, severity_from_str, severity_to_str};
use crate::history::tokens::{vendor_from_str, vendor_str};
use crate::history::tokens::{confidence_token, kind_token, process_kind_token, severity_token, vendor_token};
use crate::history::tokens::{lemma_confidence_tokens, lemma_kind_tokens, lemma_process_kind_tokens};
use crate::history::tokens::{lemma_severity_tokens, lemma_vendor_tokens};
use crate::history::tokens::{read_confidence, read_kind, read_process_kind, read_severity, read_vendor};
use crate::model::{DeviceId, MilliC, MilliPct, Vendor};
use crate::model::text_view;

verus! {

/// The version of the tables' shape.
pub const SCHEMA_VERSION: u32 = 1;

/// 48 hours.
pub const RETAIN_10S_MS: u64 = 172_800_000;

/// 30 days.
pub const RETAIN_1M_MS: u64 = 2_592_000_000;

/// As long as the 1-minute rows.
pub const RETAIN_EVENTS_MS: u64 = RETAIN_1M_MS;

/// Process rows up to this much older than the bucket asked for still stand in for it.
pub const PROCESS_FALLBACK_MS: u64 = 60_000;

/// A device as it is persisted.
#[derive(Debug, PartialEq, Eq)]
pub struct DeviceRow {
    pub device_id: DeviceId,
    pub name: String,
    pub vendor: Vendor,
    pub mem_total_bytes: Option<u64>,
}
/// A row of the table of devices.
#[derive(Debug, PartialEq, Eq)]
pub struct StoredDevice {
    pub device_id: String,
    pub name: String,
    pub vendor: String,
    pub mem_total_bytes: Option<i64>,
}

/// A row of a table of samples. Counts and sizes are the database's 64-bit integers.
#[derive(Debug, PartialEq, Eq)]
pub struct SampleRow {
    pub device_id: String,
    pub bucket_ms: i64,
    pub n: i64,
    pub util_min: Option<MilliPct>,
    pub util_avg: Option<MilliPct>,
    pub util_max: Option<MilliPct>,
    pub mem_avg: Option<i64>,
    pub mem_max: Option<i64>,
    pub power_avg_mw: Option<i64>,
    pub power_max_mw: Option<i64>,
    pub temp_avg_c: Option<MilliC>,
    pub temp_max_c: Option<MilliC>,
    pub fan_max_pct: Option<MilliPct>,
    pub sm_clock_min: Option<i64>,
    pub sm_clock_avg: Option<i64>,
    pub sm_clock_max: Option<i64>,
    pub throttle_n: i64,
    pub throttle_thermal_n: i64,
    pub throttle_power_n: i64,
    pub throttle_hw_n: i64,
}

/// A row of the table of processes.
#[derive(Debug, PartialEq, Eq)]
pub struct ProcessRow {
    pub device_id: String,
    pub bucket_ms: i64,
    pub pid: i64,
    pub name: String,
    pub kind: String,
    pub mem_max: Option<i64>,
    pub util_avg: Option<MilliPct>,
    pub cpu_avg: Option<MilliPct>,
    pub container: Option<String>,
}

/// A row of the table of events.
#[derive(Debug, PartialEq, Eq)]
pub struct EventRow {
    pub ts_ms: i64,
    pub device_id: String,
    pub kind: String,
    pub severity: String,
    pub confidence: String,
    pub title: String,
    pub evidence: String,
}

/// A size as the database keeps it: the same 64 bits, read as signed.
pub open spec fn opt_to_i64(v: Option<u64>) -> Option<i64> {
    match v {
        Some(x) => Some(x as i64),
        None => None,
    }
}

pub open spec fn opt_to_u64(v: Option<i64>) -> Option<u64> {
    match v {
        Some(x) => Some(x as u64),
        None => None,
    }
}

pub open spec fn opt32_to_i64(v: Option<u32>) -> Option<i64> {
    match v {
        Some(x) => Some(x as i64),
        None => None,
    }
}

pub open spec fn opt_to_u32(v: Option<i64>) -> Option<u32> {
    match v {
        Some(x) => Some(x as u32),
        None => None,
    }
}

fn sql_u64(v: Option<u64>) -> (r: Option<i64>)
    ensures
        r == opt_to_i64(v),
{
    match v {
        Some(x) => Some(x as i64),
        None => None,
    }
}

fn sql_u32(v: Option<u32>) -> (r: Option<i64>)
    ensures
        r == opt32_to_i64(v),
{
    match v {
        Some(x) => Some(x as i64),
        None => None,
    }
}

fn u64_sql(v: Option<i64>) -> (r: Option<u64>)
    ensures
        r == opt_to_u64(v),
{
    match v {
        Some(x) => Some(x as u64),
        None => None,
    }
}

fn u32_sql(v: Option<i64>) -> (r: Option<u32>)
    ensures
        r == opt_to_u32(v),
{
    match v {
        Some(x) => Some(x as u32),
        None => None,
    }
}

/// A device by its contents.
#[verifier::ext_equal]
pub struct DeviceRowView {
    pub device_id: Seq<char>,
    pub name: Seq<char>,
    pub vendor: Vendor,
    pub mem_total_bytes: Option<u64>,
}

impl View for DeviceRow {
    type V = DeviceRowView;

    open spec fn view(&self) -> DeviceRowView {
        DeviceRowView {
            device_id: self.device_id@,
            name: self.name@,
            vendor: self.vendor,
            mem_total_bytes: self.mem_total_bytes,
        }
    }
}

/// `row` is how `d` is stored.
pub open spec fn stores_device(row: StoredDevice, d: DeviceRowView) -> bool {
    &&& row.device_id@ == d.device_id
    &&& row.name@ == d.name
    &&& row.vendor@ == vendor_token(d.vendor)
    &&& row.mem_total_bytes == opt_to_i64(d.mem_total_bytes)
}

/// The device that a row reads as.
pub open spec fn device_of_row(row: StoredDevice) -> DeviceRowView {
    DeviceRowView {
        device_id: row.device_id@,
        name: row.name@,
        vendor: read_vendor(row.vendor@),
        mem_total_bytes: opt_to_u64(row.mem_total_bytes),
    }
}

/// The row of a device.
pub fn device_row(
    device_id: &DeviceId,
    name: &str,
    vendor: Vendor,
    mem_total_bytes: Option<u64>,
) -> (row: StoredDevice)
    ensures
        stores_device(
            row,
            (DeviceRowView { device_id: device_id@, name: name@, vendor, mem_total_bytes }),
        ),
{
    StoredDevice {
        device_id: device_id.text(),
        name: name.to_string(),
        vendor: vendor_str(vendor),
        mem_total_bytes: sql_u64(mem_total_bytes),
    }
}

/// The device of a row.
pub fn device_from_row(row: StoredDevice) -> (d: DeviceRow)
    ensures
        d@ == device_of_row(row),
{
    let vendor = vendor_from_str(row.vendor.as_str());
    DeviceRow {
        vendor,
        mem_total_bytes: u64_sql(row.mem_total_bytes),
        name: row.name,
        device_id: DeviceId(row.device_id),
    }
}

/// `row` is how `r` is stored.
pub open spec fn stores_sample(row: SampleRow, r: SampleRollupView) -> bool {
    &&& row.device_id@ == r.device_id
    &&& row.bucket_ms == r.bucket_ms as i64
    &&& row.n == r.n as i64
    &&& row.util_min == r.util_min
    &&& row.util_avg == r.util_avg
    &&& row.util_max == r.util_max
    &&& row.mem_avg == opt_to_i64(r.mem_avg)
    &&& row.mem_max == opt_to_i64(r.mem_max)
    &&& row.power_avg_mw == opt32_to_i64(r.power_avg_mw)
    &&& row.power_max_mw == opt32_to_i64(r.power_max_mw)
    &&& row.temp_avg_c == r.temp_avg_c
    &&& row.temp_max_c == r.temp_max_c
    &&& row.fan_max_pct == r.fan_max_pct
    &&& row.sm_clock_min == opt32_to_i64(r.sm_clock_min)
    &&& row.sm_clock_avg == opt32_to_i64(r.sm_clock_avg)
    &&& row.sm_clock_max == opt32_to_i64(r.sm_clock_max)
    &&& row.throttle_n == r.throttle_n as i64
    &&& row.throttle_thermal_n == r.throttle_thermal_n as i64
    &&& row.throttle_power_n == r.throttle_power_n as i64
    &&& row.throttle_hw_n == r.throttle_hw_n as i64
}

/// The rollup that a row reads as.
pub open spec fn sample_of_row(row: SampleRow) -> SampleRollupView {
    SampleRollupView {
        device_id: row.device_id@,
        bucket_ms: row.bucket_ms as u64,
        n: row.n as u32,
        util_min: row.util_min,
        util_avg: row.util_avg,
        util_max: row.util_max,
        mem_avg: opt_to_u64(row.mem_avg),
        mem_max: opt_to_u64(row.mem_max),
        power_avg_mw: opt_to_u32(row.power_avg_mw),
        power_max_mw: opt_to_u32(row.power_max_mw),
        temp_avg_c: row.temp_avg_c,
        temp_max_c: row.temp_max_c,
        fan_max_pct: row.fan_max_pct,
        sm_clock_min: opt_to_u32(row.sm_clock_min),
        sm_clock_avg: opt_to_u32(row.sm_clock_avg),
        sm_clock_max: opt_to_u32(row.sm_clock_max),
        throttle_n: row.throttle_n as u32,
        throttle_thermal_n: row.throttle_thermal_n as u32,
        throttle_power_n: row.throttle_power_n as u32,
        throttle_hw_n: row.throttle_hw_n as u32,
    }
}

/// The row of a sample rollup.
pub fn sample_row(r: &SampleRollup) -> (row: SampleRow)
    ensures
        stores_sample(row, r@),
{
    SampleRow {
        device_id: r.device_id.text(),
        bucket_ms: r.bucket_ms as i64,
        n: r.n as i64,
        util_min: r.util_min,
        util_avg: r.util_avg,
        util_max: r.util_max,
        mem_avg: sql_u64(r.mem_avg),
        mem_max: sql_u64(r.mem_max),
        power_avg_mw: sql_u32(r.power_avg_mw),
        power_max_mw: sql_u32(r.power_max_mw),
        temp_avg_c: r.temp_avg_c,
        temp_max_c: r.temp_max_c,
        fan_max_pct: r.fan_max_pct,
        sm_clock_min: sql_u32(r.sm_clock_min),
        sm_clock_avg: sql_u32(r.sm_clock_avg),
        sm_clock_max: sql_u32(r.sm_clock_max),
        throttle_n: r.throttle_n as i64,
        throttle_thermal_n: r.throttle_thermal_n as i64,
        throttle_power_n: r.throttle_power_n as i64,
        throttle_hw_n: r.throttle_hw_n as i64,
    }
}

/// The sample rollup of a row.
pub fn sample_rollup_from_row(row: SampleRow) -> (r: SampleRollup)
    ensures
        r@ == sample_of_row(row),
{
    SampleRollup {
        bucket_ms: row.bucket_ms as u64,
        n: row.n as u32,
        util_min: row.util_min,
        util_avg: row.util_avg,
        util_max: row.util_max,
        mem_avg: u64_sql(row.mem_avg),
        mem_max: u64_sql(row.mem_max),
        power_avg_mw: u32_sql(row.power_avg_mw),
        power_max_mw: u32_sql(row.power_max_mw),
        temp_avg_c: row.temp_avg_c,
        temp_max_c: row.temp_max_c,
        fan_max_pct: row.fan_max_pct,
        sm_clock_min: u32_sql(row.sm_clock_min),
        sm_clock_avg: u32_sql(row.sm_clock_avg),
        sm_clock_max: u32_sql(row.sm_clock_max),
        throttle_n: row.throttle_n as u32,
        throttle_thermal_n: row.throttle_thermal_n as u32,
        throttle_power_n: row.throttle_power_n as u32,
        throttle_hw_n: row.throttle_hw_n as u32,
        device_id: DeviceId(row.device_id),
    }
}

/// `row` is how `r` is stored.
pub open spec fn stores_process(row: ProcessRow, r: ProcessRollupView) -> bool {
    &&& row.device_id@ == r.device_id
    &&& row.bucket_ms == r.bucket_ms as i64
    &&& row.pid == r.pid as i64
    &&& row.name@ == r.name
    &&& row.kind@ == process_kind_token(r.kind)
    &&& row.mem_max == opt_to_i64(r.mem_max)
    &&& row.util_avg == r.util_avg
    &&& row.cpu_avg == r.cpu_avg
    &&& text_view(row.container) == r.container
}

/// The rollup that a row reads as.
pub open spec fn process_of_row(row: ProcessRow) -> ProcessRollupView {
    ProcessRollupView {
        device_id: row.device_id@,
        bucket_ms: row.bucket_ms as u64,
        pid: row.pid as u32,
        name: row.name@,
        kind: read_process_kind(row.kind@),
        mem_max: opt_to_u64(row.mem_max),
        util_avg: row.util_avg,
        cpu_avg: row.cpu_avg,
        container: text_view(row.container),
    }
}

/// The row of a process rollup.
pub fn process_row(r: &ProcessRollup) -> (row: ProcessRow)
    ensures
        stores_process(row, r@),
{
    ProcessRow {
        device_id: r.device_id.text(),
        bucket_ms: r.bucket_ms as i64,
        pid: r.pid as i64,
        name: r.name.clone(),
        kind: kind_str(r.kind),
        mem_max: sql_u64(r.mem_max),
        util_avg: r.util_avg,
        cpu_avg: r.cpu_avg,
        container: match &r.container {
            Some(c) => Some(c.clone()),
            None => None,
        },
    }
}

/// The process rollup of a row.
pub fn process_rollup_from_row(row: ProcessRow) -> (r: ProcessRollup)
    ensures
        r@ == process_of_row(row),
{
    let kind = kind_from_proc_str(row.kind.as_str());
    ProcessRollup {
        bucket_ms: row.bucket_ms as u64,
        pid: row.pid as u32,
        kind,
        mem_max: u64_sql(row.mem_max),
        util_avg: row.util_avg,
        cpu_avg: row.cpu_avg,
        name: row.name,
        container: row.container,
        device_id: DeviceId(row.device_id),
    }
}

/// An event row by its contents.
#[verifier::ext_equal]
pub struct EventRowView {
    pub ts_ms: i64,
    pub device_id: Seq<char>,
    pub kind: Seq<char>,
    pub severity: Seq<char>,
    pub confidence: Seq<char>,
    pub title: Seq<char>,
    pub evidence: Seq<char>,
}

impl View for EventRow {
    type V = EventRowView;

    open spec fn view(&self) -> EventRowView {
        EventRowView {
            ts_ms: self.ts_ms,
            device_id: self.device_id@,
            kind: self.kind@,
            severity: self.severity@,
            confidence: self.confidence@,
            title: self.title@,
            evidence: self.evidence@,
        }
    }
}

/// How an event is stored.
pub open spec fn row_of_event(e: EventView) -> EventRowView {
    EventRowView {
        ts_ms: e.ts_ms as i64,
        device_id: e.device,
        kind: kind_token(e.kind),
        severity: severity_token(e.severity),
        confidence: confidence_token(e.confidence),
        title: e.title,
        evidence: e.evidence,
    }
}

/// The event that a row reads as; `None` where one of its tokens is unknown.
pub open spec fn event_of_row(row: EventRowView) -> Option<EventView> {
    match (read_kind(row.kind), read_severity(row.severity), read_confidence(row.confidence)) {
        (Some(kind), Some(severity), Some(confidence)) => Some(
            EventView {
                ts_ms: row.ts_ms as u64,
                device: row.device_id,
                kind,
                severity,
                confidence,
                title: row.title,
                evidence: row.evidence,
            },
        ),
        _ => None,
    }
}

/// The row of an event.
pub fn event_row(e: &Event) -> (row: EventRow)
    ensures
        row@ == row_of_event(e@),
{
    EventRow {
        ts_ms: e.ts_ms as i64,
        device_id: e.device.text(),
        kind: kind_to_str(e.kind),
        severity: severity_to_str(e.severity),
        confidence: confidence_to_str(e.confidence),
        title: e.title.clone(),
        evidence: e.evidence.clone(),
    }
}

/// The event of a row.
pub fn event_from_row(row: &EventRow) -> (r: Option<Event>)
    ensures
        match r {
            Some(e) => event_of_row(row@) == Some(e@),
            None => event_of_row(row@) is None,
        },
{
    let kind = match kind_from_str(row.kind.as_str()) {
        Some(k) => k,
        None => {
            return None;
        },
    };
    let severity = match severity_from_str(row.severity.as_str()) {
        Some(s) => s,
        None => {
            return None;
        },
    };
    let confidence = match confidence_from_str(row.confidence.as_str()) {
        Some(c) => c,
        None => {
            return None;
        },
    };
    Some(
        Event {
            ts_ms: row.ts_ms as u64,
            device: DeviceId(row.device_id.clone()),
            kind,
            severity,
            confidence,
            title: row.title.clone(),
            evidence: row.evidence.clone(),
        },
    )
}

pub open spec fn event_row_views(rows: Seq<EventRow>) -> Seq<EventRowView> {
    Seq::new(rows.len(), |i: int| rows[i]@)
}

pub open spec fn event_rule() -> spec_fn(EventRowView) -> Option<EventView> {
    |row: EventRowView| event_of_row(row)
}

/// The events of the rows. A row with an unknown token is left out: old recordings still replay.
pub fn events_from_rows(rows: &Vec<EventRow>) -> (v: Vec<Event>)
    ensures
        crate::events::event_views(v@) == filter_map(event_row_views(rows@), event_rule()),
{
    let ghost views = event_row_views(rows@);
    let ghost rule = event_rule();
    let mut v: Vec<Event> = Vec::new();
    let mut i: usize = 0;
    assert(crate::events::event_views(v@) =~= filter_map(views.take(0), rule));
    while i < rows.len()
        invariant
            i <= rows.len(),
            views == event_row_views(rows@),
            rule == event_rule(),
            crate::events::event_views(v@) == filter_map(views.take(i as int), rule),
        decreases rows.len() - i,
    {
        proof {
            lemma_filter_map_step(views, rule, i as int);
            assert(views[i as int] == rows@[i as int]@);
        }
        if let Some(e) = event_from_row(&rows[i]) {
            proof {
                crate::events::lemma_event_pushed(v@, e);
            }
            v.push(e);
        }
        i = i + 1;
    }
    assert(views.take(views.len() as int) =~= views);
    v
}

/// `now_ms` less the retention, as the database compares it.
pub open spec fn cutoff(now_ms: u64, retain_ms: u64) -> i64 {
    crate::events::since(now_ms, retain_ms) as i64
}

/// Rows of the tables whose time is below these are past their retention.
#[derive(Clone, Copy, Debug, PartialEq, Eq, Structural)]
pub struct Cutoffs {
    pub samples_10s: i64,
    pub processes_10s: i64,
    pub samples_1m: i64,
    pub events: i64,
}

/// What is past its retention at `now_ms`: 10-second rows after 48 hours, 1-minute rows and events
/// after 30 days.
pub fn prune_cutoffs(now_ms: u64) -> (r: Cutoffs)
    ensures
        r.samples_10s == cutoff(now_ms, RETAIN_10S_MS),
        r.processes_10s == cutoff(now_ms, RETAIN_10S_MS),
        r.samples_1m == cutoff(now_ms, RETAIN_1M_MS),
        r.events == cutoff(now_ms, RETAIN_EVENTS_MS),
{
    let cut_10s: i64 = now_ms.saturating_sub(RETAIN_10S_MS) as i64;
    let cut_1m: i64 = now_ms.saturating_sub(RETAIN_1M_MS) as i64;
    let cut_events: i64 = now_ms.saturating_sub(RETAIN_EVENTS_MS) as i64;
    Cutoffs {
        samples_10s: cut_10s,
        processes_10s: cut_10s,
        samples_1m: cut_1m,
        events: cut_events,
    }
}

/// The newest and the oldest process bucket that can show what ran at `at_ms`.
pub open spec fn process_span(at_ms: u64) -> (i64, i64) {
    let newest = Tier::TenSec.bucket(at_ms);
    (newest as i64, crate::events::since(newest, PROCESS_FALLBACK_MS) as i64)
}

/// The process buckets that can show what ran at `at_ms`, newest and oldest: the 10-second bucket
/// that covers it, and those of the minute before. The newest of them that has rows is shown.
pub fn process_window(at_ms: u64) -> (r: (i64, i64))
    ensures
        r == process_span(at_ms),
        r.0 == Tier::TenSec.bucket(at_ms) as i64,
        r.1 == crate::events::since(Tier::TenSec.bucket(at_ms), PROCESS_FALLBACK_MS) as i64,
{
    let bucket: u64 = Tier::TenSec.bucket_of(at_ms);
    (bucket as i64, bucket.saturating_sub(PROCESS_FALLBACK_MS) as i64)
}

/// The bounds of a closed span of time in a table. A table holds times up to the largest `i64`, so
/// a span that ends later ends there, and one that begins later is empty.
pub open spec fn table_span(from_ms: u64, to_ms: u64) -> (i64, i64) {
    let last = if to_ms <= i64::MAX {
        to_ms as i64
    } else {
        i64::MAX
    };
    if from_ms <= i64::MAX {
        (from_ms as i64, last)
    } else {
        (i64::MAX, 0)
    }
}

pub fn span_bounds(from_ms: u64, to_ms: u64) -> (r: (i64, i64))
    ensures
        r == table_span(from_ms, to_ms),
{
    if from_ms > i64::MAX as u64 {
        return (i64::MAX, 0);
    }
    let last: i64 = if to_ms <= i64::MAX as u64 {
        to_ms as i64
    } else {
        i64::MAX
    };
    (from_ms as i64, last)
}

/// What to do with a database file that was opened.
#[derive(Clone, Copy, Debug, PartialEq, Eq, Structural)]
pub enum OpenStep {
    /// Use it.
    Keep,
    /// Move it aside and start a fresh one.
    Quarantine,
}

/// A fresh file is used as it is, an old one where its integrity check passed; one that did not
/// open, or did not pass, is moved aside.
pub fn open_step(opened: bool, existed: bool, healthy: bool) -> (r: OpenStep)
    ensures
        r is Keep <==> opened && (existed ==> healthy),
{
    if opened && (!existed || healthy) {
        OpenStep::Keep
    } else {
        OpenStep::Quarantine
    }
}

/// What is appended to the name of a file that is moved aside.
pub fn corrupt_suffix(unix_secs: u64) -> (r: String)
    ensures
        r@ == ".corrupt-"@ + crate::text::dec(unix_secs as nat),
{
    let mut out: String = String::new();
    out.append(".corrupt-");
    crate::text::push_dec(&mut out, unix_secs as u128);
    assert(out@ =~= ".corrupt-"@ + crate::text::dec(unix_secs as nat));
    out
}

/// The file of the history. Simulated runs have one of their own: they never touch the real one.
pub fn history_file(mock: bool) -> (r: &'static str)
    ensures
        r@ == (if mock {
            "history-mock.db"@
        } else {
            "history.db"@
        }),
{
    if mock {
        "history-mock.db"
    } else {
        "history.db"
    }
}

/// Where the data directory lies.
#[derive(Clone, Copy, Debug, PartialEq, Eq, Structural)]
pub enum DataRoot {
    /// Under the user's data directory.
    DataHome,
    /// Under the user's home directory.
    Home,
}

/// The directory below the root.
pub open spec fn data_dir_text(root: DataRoot) -> Seq<char> {
    match root {
        DataRoot::DataHome => "gpuviewer"@,
        DataRoot::Home => ".local/share/gpuviewer"@,
    }
}

/// A variable of this length is set and not empty.
pub open spec fn is_set(len: Option<usize>) -> bool {
    match len {
        Some(n) => n > 0,
        None => false,
    }
}

/// The data directory, of the lengths of the two variables that may name its root: the data home
/// where it is set and not empty, else the home, else none. The text is the directory below.
pub fn default_data_dir(data_home: Option<usize>, home: Option<usize>) -> (r: Option<
    (DataRoot, &'static str),
>)
    ensures
        match r {
            Some((root, dir)) => dir@ == data_dir_text(root) && (root is DataHome <==> is_set(
                data_home,
            )) && (is_set(data_home) || is_set(home)),
            None => !is_set(data_home) && !is_set(home),
        },
{
    if let Some(n) = data_home {
        if n > 0 {
            return Some((DataRoot::DataHome, "gpuviewer"));
        }
    }
    if let Some(n) = home {
        if n > 0 {
            return Some((DataRoot::Home, ".local/share/gpuviewer"));
        }
    }
    None
}

/// What is stored of an event reads back as that event, in every field.
pub proof fn law_event_round_trip(e: EventView)
    ensures
        event_of_row(row_of_event(e)) == Some(e),
{
    lemma_kind_tokens(e.kind);
    lemma_severity_tokens(e.severity);
    lemma_confidence_tokens(e.confidence);
    let ts = e.ts_ms;
    assert((ts as i64) as u64 == ts) by (bit_vector);
}

/// The rows that events are stored as, one for each, in their order.
pub open spec fn rows_of_events(es: Seq<EventView>) -> Seq<EventRowView> {
    Seq::new(es.len(), |i: int| row_of_event(es[i]))
}

/// Events that were stored all read back: every one of them, unchanged, in the order of the rows,
/// and nothing else.
pub proof fn law_events_read_back(es: Seq<EventView>)
    ensures
        filter_map(rows_of_events(es), event_rule()) == es,
    decreases es.len(),
{
    let rows = rows_of_events(es);
    if es.len() > 0 {
        law_events_read_back(es.drop_last());
        law_event_round_trip(es.last());
        assert(rows.drop_last() =~= rows_of_events(es.drop_last()));
        assert(rows.last() == row_of_event(es.last()));
        assert(es =~= es.drop_last().push(es.last()));
    } else {
        assert(es =~= Seq::<EventView>::empty());
    }
}

/// The rows of a closed span, by their places among all `rows` in the order in which they were
/// stored: exactly the rows of the span, the oldest first, and of those of one time the first
/// stored first.
pub open spec fn lists_span(rows: Seq<EventRowView>, places: Seq<int>, span: (i64, i64)) -> bool {
    &&& forall|k: int| 0 <= k < places.len() ==> 0 <= #[trigger] places[k] < rows.len()
    &&& forall|i: int|
        0 <= i < rows.len() ==> (places.contains(i) <==> span.0 <= (#[trigger] rows[i]).ts_ms
            <= span.1)
    &&& forall|j: int, k: int|
        0 <= j < k < places.len() ==> rows[#[trigger] places[j]].ts_ms
            < rows[#[trigger] places[k]].ts_ms || (rows[places[j]].ts_ms == rows[places[k]].ts_ms
            && places[j] < places[k])
}

/// Asking for a span gives exactly the events of that span that were stored, each once and
/// unchanged, the oldest first, and those of one time in the order in which they were stored.
pub proof fn law_a_span_reads_back(
    es: Seq<EventView>,
    places: Seq<int>,
    from_ms: u64,
    to_ms: u64,
)
    requires
        forall|i: int| 0 <= i < es.len() ==> (#[trigger] es[i]).ts_ms <= i64::MAX,
        lists_span(rows_of_events(es), places, table_span(from_ms, to_ms)),
    ensures
        filter_map(
            Seq::new(places.len(), |k: int| rows_of_events(es)[places[k]]),
            event_rule(),
        ) == Seq::new(places.len(), |k: int| es[places[k]]),
        forall|i: int|
            0 <= i < es.len() ==> (places.contains(i) <==> from_ms <= (#[trigger] es[i]).ts_ms
                <= to_ms),
        forall|j: int, k: int|
            0 <= j < k < places.len() ==> es[#[trigger] places[j]].ts_ms
                < es[#[trigger] places[k]].ts_ms || (es[places[j]].ts_ms == es[places[k]].ts_ms
                && places[j] < places[k]),
{
    let rows = rows_of_events(es);
    let chosen = Seq::new(places.len(), |k: int| es[places[k]]);
    law_events_read_back(chosen);
    assert(Seq::new(places.len(), |k: int| rows[places[k]]) =~= rows_of_events(chosen));
    assert forall|i: int| 0 <= i < es.len() implies (places.contains(i) <==> from_ms <= (
    #[trigger] es[i]).ts_ms <= to_ms) by {
        assert(rows[i] == row_of_event(es[i]));
        law_a_span_is_closed(es[i].ts_ms, from_ms, to_ms);
    }
    assert forall|j: int, k: int| 0 <= j < k < places.len() implies es[#[trigger] places[j]].ts_ms
        < es[#[trigger] places[k]].ts_ms || (es[places[j]].ts_ms == es[places[k]].ts_ms
        && places[j] < places[k]) by {
        assert(rows[places[j]] == row_of_event(es[places[j]]));
        assert(rows[places[k]] == row_of_event(es[places[k]]));
    }
}

proof fn lemma_u64_kept(v: u64)
    ensures
        (v as i64) as u64 == v,
{
    assert((v as i64) as u64 == v) by (bit_vector);
}

proof fn lemma_u32_kept(v: u32)
    ensures
        (v as i64) as u32 == v,
{
    assert((v as i64) as u32 == v) by (bit_vector);
}

/// What is stored of a sample rollup reads back as that rollup, in every field: what was absent
/// stays absent.
pub proof fn law_sample_round_trip(r: SampleRollupView, row: SampleRow)
    requires
        stores_sample(row, r),
    ensures
        sample_of_row(row) == r,
{
    lemma_u64_kept(r.bucket_ms);
    lemma_u32_kept(r.n);
    lemma_u32_kept(r.throttle_n);
    lemma_u32_kept(r.throttle_thermal_n);
    lemma_u32_kept(r.throttle_power_n);
    lemma_u32_kept(r.throttle_hw_n);
    if let Some(v) = r.mem_avg {
        lemma_u64_kept(v);
    }
    if let Some(v) = r.mem_max {
        lemma_u64_kept(v);
    }
    if let Some(v) = r.power_avg_mw {
        lemma_u32_kept(v);
    }
    if let Some(v) = r.power_max_mw {
        lemma_u32_kept(v);
    }
    if let Some(v) = r.sm_clock_min {
        lemma_u32_kept(v);
    }
    if let Some(v) = r.sm_clock_avg {
        lemma_u32_kept(v);
    }
    if let Some(v) = r.sm_clock_max {
        lemma_u32_kept(v);
    }
    assert(sample_of_row(row) =~= r);
}

/// What is stored of a process rollup reads back as that rollup, in every field.
pub proof fn law_process_round_trip(r: ProcessRollupView, row: ProcessRow)
    requires
        stores_process(row, r),
    ensures
        process_of_row(row) == r,
{
    lemma_process_kind_tokens(r.kind);
    lemma_u64_kept(r.bucket_ms);
    lemma_u32_kept(r.pid);
    if let Some(v) = r.mem_max {
        lemma_u64_kept(v);
    }
    assert(process_of_row(row) =~= r);
}

/// What is stored of a device reads back as that device, in every field.
pub proof fn law_device_round_trip(d: DeviceRowView, row: StoredDevice)
    requires
        stores_device(row, d),
    ensures
        device_of_row(row) == d,
{
    lemma_vendor_tokens(d.vendor);
    if let Some(v) = d.mem_total_bytes {
        lemma_u64_kept(v);
    }
    assert(device_of_row(row) =~= d);
}

/// A time that a table holds lies between the bounds of a span exactly where it lies in the span,
/// both ends counted in.
pub proof fn law_a_span_is_closed(t: u64, from_ms: u64, to_ms: u64)
    requires
        t <= i64::MAX,
    ensures
        table_span(from_ms, to_ms).0 <= t as i64 <= table_span(from_ms, to_ms).1 <==> from_ms <= t
            <= to_ms,
{
}

/// Pruning drops exactly what is past its retention: a row of time `t` lies below the cutoff where
/// it is more than the retention older than `now_ms`.
pub proof fn law_pruning_drops_only_the_expired(t: u64, now_ms: u64, retain_ms: u64)
    requires
        t <= i64::MAX,
        now_ms <= i64::MAX,
    ensures
        (t as i64) < cutoff(now_ms, retain_ms) <==> t + retain_ms < now_ms,
{
}

/// What ran at a time is shown of the bucket of ten seconds that the time lies in, or else of one
/// that began at most a minute before it.
pub proof fn law_processes_are_shown_of_the_last_minute(at_ms: u64)
    requires
        at_ms <= i64::MAX,
    ensures
        ({
            let (newest, oldest) = process_span(at_ms);
            &&& newest % 10_000 == 0
            &&& newest <= at_ms < newest + 10_000
            &&& oldest == (if newest >= 60_000 {
                newest - 60_000
            } else {
                0
            })
        }),
{
    crate::history::laws::law_bucket_covers_its_time(Tier::TenSec, at_ms);
}

/// Rows of ten seconds are kept for two days, those of a minute and events for thirty days, and a
/// recording is pruned once in 360 buckets of ten seconds.
pub proof fn law_what_is_kept_and_for_how_long(t: u64, now_ms: u64)
    requires
        t <= i64::MAX,
        now_ms <= i64::MAX,
    ensures
        (t as i64) < cutoff(now_ms, RETAIN_10S_MS) <==> now_ms - t > 48 * 3_600_000,
        (t as i64) < cutoff(now_ms, RETAIN_1M_MS) <==> now_ms - t > 30 * 24 * 3_600_000,
        (t as i64) < cutoff(now_ms, RETAIN_EVENTS_MS) <==> now_ms - t > 30 * 24 * 3_600_000,
        crate::history::recorder::PRUNE_EVERY_FLUSHES == 360,
{
}

/// Every column of a stored sample holds the field that it is named for.
pub proof fn law_columns_hold_their_fields(row: SampleRow, r: SampleRollupView)
    requires
        stores_sample(row, r),
        r.bucket_ms <= i64::MAX,
    ensures
        row.device_id@ == r.device_id && row.bucket_ms == r.bucket_ms && row.n == r.n,
        row.util_min == r.util_min && row.util_avg == r.util_avg && row.util_max == r.util_max,
        row.temp_avg_c == r.temp_avg_c && row.temp_max_c == r.temp_max_c && row.fan_max_pct
            == r.fan_max_pct,
        r.mem_avg matches Some(v) ==> v <= i64::MAX ==> row.mem_avg is Some && row.mem_avg->0 == v,
        r.mem_max matches Some(v) ==> v <= i64::MAX ==> row.mem_max is Some && row.mem_max->0 == v,
        r.power_avg_mw matches Some(v) ==> row.power_avg_mw is Some && row.power_avg_mw->0 == v,
        r.power_max_mw matches Some(v) ==> row.power_max_mw is Some && row.power_max_mw->0 == v,
        r.sm_clock_min matches Some(v) ==> row.sm_clock_min is Some && row.sm_clock_min->0 == v,
        r.sm_clock_avg matches Some(v) ==> row.sm_clock_avg is Some && row.sm_clock_avg->0 == v,
        r.sm_clock_max matches Some(v) ==> row.sm_clock_max is Some && row.sm_clock_max->0 == v,
        row.throttle_n == r.throttle_n && row.throttle_thermal_n == r.throttle_thermal_n
            && row.throttle_power_n == r.throttle_power_n && row.throttle_hw_n == r.throttle_hw_n,
{
}

/// Every column of a stored event holds the field that it is named for, by its token where it has
/// one.
pub proof fn law_an_events_columns_hold_its_fields(e: EventView)
    requires
        e.ts_ms <= i64::MAX,
    ensures
        ({
            let row = row_of_event(e);
            &&& row.ts_ms == e.ts_ms && row.device_id == e.device
            &&& row.title == e.title && row.evidence == e.evidence
            &&& row.severity == (match e.severity {
                crate::events::Severity::Info => "info"@,
                crate::events::Severity::Warning => "warning"@,
                crate::events::Severity::Critical => "critical"@,
            })
            &&& row.confidence == (match e.confidence {
                crate::events::Confidence::Fact => "fact"@,
                crate::events::Confidence::Likely => "likely"@,
            })
            &&& row.kind == kind_token(e.kind)
        }),
{
}

/// The data directory lies below the user's data home, or where that would be below the home.
pub proof fn law_the_data_home_lies_below_the_home()
    ensures
        data_dir_text(DataRoot::DataHome) == "gpuviewer"@,
        data_dir_text(DataRoot::Home) == ".local/share/"@ + data_dir_text(DataRoot::DataHome),
{
    reveal_strlit("gpuviewer");
    reveal_strlit(".local/share/");
    reveal_strlit(".local/share/gpuviewer");
    assert(".local/share/gpuviewer"@ =~= ".local/share/"@ + "gpuviewer"@);
}

} // verus!
