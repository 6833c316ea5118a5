use gpuviewer::events::{Confidence, Event, EventKind, Severity};
use gpuviewer::history::recorder::{Flushed, Recorder};
use gpuviewer::history::rollup::{ProcessRollup, SampleAccum, SampleRollup, Tier};
use gpuviewer::history::store::{
    corrupt_suffix, default_data_dir, device_from_row, device_row, event_from_row, event_row,
    events_from_rows, history_file, open_step, process_rollup_from_row, process_row,
    process_window, prune_cutoffs, sample_rollup_from_row, sample_row, span_bounds,
    DataRoot, EventRow, OpenStep, ProcessRow, SampleRow, StoredDevice, RETAIN_10S_MS, RETAIN_1M_MS,
};
use gpuviewer::history::tokens::{
    confidence_from_str, confidence_to_str, kind_from_proc_str, kind_from_str, kind_str,
    kind_to_str, severity_from_str, severity_to_str, vendor_from_str, vendor_str,
};
use gpuviewer::history::{DeviceHistory, HistoryStore};
use gpuviewer::model::{DeviceId, DynamicSample, ProcessKind, ProcessSample, ThrottleReasons, Vendor};
use rusqlite::{Connection, Row, ToSql};

fn sample(ts: u64) -> DynamicSample {
    DynamicSample {
        ts_ms: ts,
        util_pct: Some(1_000),
        util_engine: None,
        mem_used_bytes: None,
        power_mw: None,
        temp_c: None,
        fan_pct: None,
        sm_clock_mhz: None,
        mem_clock_mhz: None,
        encoder_pct: None,
        decoder_pct: None,
        throttle: Some(ThrottleReasons::default()),
    }
}

fn dev(id: &str) -> DeviceId {
    DeviceId(id.into())
}

/// A sample with every metric; `util` is in percent.
fn full_sample(ts_ms: u64, util: i64, mem: u64, throttle: ThrottleReasons) -> DynamicSample {
    DynamicSample {
        ts_ms,
        util_pct: Some(util * 1_000),
        util_engine: None,
        mem_used_bytes: Some(mem),
        power_mw: Some(100_000),
        temp_c: Some(60_000),
        fan_pct: Some(40_000),
        sm_clock_mhz: Some(1500),
        mem_clock_mhz: Some(7000),
        encoder_pct: None,
        decoder_pct: None,
        throttle: Some(throttle),
    }
}

/// A database in memory, of the library's rows.
struct Store {
    conn: Connection,
}

const SAMPLE_COLUMNS: &str = "device_id, bucket_ms, n, util_min, util_avg, util_max, mem_avg, \
    mem_max, power_avg_mw, power_max_mw, temp_avg_c, temp_max_c, fan_max_pct, sm_clock_min, \
    sm_clock_avg, sm_clock_max, throttle_n, throttle_thermal_n, throttle_power_n, throttle_hw_n";

fn sample_row_of(row: &Row) -> rusqlite::Result<SampleRow> {
    Ok(SampleRow {
        device_id: row.get(0)?,
        bucket_ms: row.get(1)?,
        n: row.get(2)?,
        util_min: row.get(3)?,
        util_avg: row.get(4)?,
        util_max: row.get(5)?,
        mem_avg: row.get(6)?,
        mem_max: row.get(7)?,
        power_avg_mw: row.get(8)?,
        power_max_mw: row.get(9)?,
        temp_avg_c: row.get(10)?,
        temp_max_c: row.get(11)?,
        fan_max_pct: row.get(12)?,
        sm_clock_min: row.get(13)?,
        sm_clock_avg: row.get(14)?,
        sm_clock_max: row.get(15)?,
        throttle_n: row.get(16)?,
        throttle_thermal_n: row.get(17)?,
        throttle_power_n: row.get(18)?,
        throttle_hw_n: row.get(19)?,
    })
}

impl Store {
    fn new() -> Self {
        let conn = Connection::open_in_memory().unwrap();
        for tier in [Tier::TenSec, Tier::OneMin] {
            conn.execute_batch(&format!(
                "CREATE TABLE {} ({SAMPLE_COLUMNS}, PRIMARY KEY (device_id, bucket_ms))",
                tier.samples_table()
            ))
            .unwrap();
        }
        conn.execute_batch(
            "CREATE TABLE processes_10s (device_id, bucket_ms, pid, name, kind, mem_max, util_avg, \
             cpu_avg, container, PRIMARY KEY (device_id, bucket_ms, pid));
             CREATE TABLE events (ts_ms, device_id, kind, severity, confidence, title, evidence);",
        )
        .unwrap();
        Store { conn }
    }

    fn insert_sample_rollups(&mut self, tier: Tier, rows: &[SampleRollup]) {
        let sql = format!(
            "INSERT OR REPLACE INTO {} ({SAMPLE_COLUMNS}) VALUES \
             (?1,?2,?3,?4,?5,?6,?7,?8,?9,?10,?11,?12,?13,?14,?15,?16,?17,?18,?19,?20)",
            tier.samples_table()
        );
        for rollup in rows {
            let r = sample_row(rollup);
            let values: [&dyn ToSql; 20] = [
                &r.device_id, &r.bucket_ms, &r.n, &r.util_min, &r.util_avg, &r.util_max,
                &r.mem_avg, &r.mem_max, &r.power_avg_mw, &r.power_max_mw, &r.temp_avg_c,
                &r.temp_max_c, &r.fan_max_pct, &r.sm_clock_min, &r.sm_clock_avg, &r.sm_clock_max,
                &r.throttle_n, &r.throttle_thermal_n, &r.throttle_power_n, &r.throttle_hw_n,
            ];
            self.conn.execute(&sql, &values[..]).unwrap();
        }
    }

    fn insert_process_rollups(&mut self, rows: &[ProcessRollup]) {
        for rollup in rows {
            let r = process_row(rollup);
            self.conn
                .execute(
                    "INSERT OR REPLACE INTO processes_10s VALUES (?1,?2,?3,?4,?5,?6,?7,?8,?9)",
                    (
                        &r.device_id, r.bucket_ms, r.pid, &r.name, &r.kind, r.mem_max, r.util_avg,
                        r.cpu_avg, &r.container,
                    ),
                )
                .unwrap();
        }
    }

    fn insert_events(&mut self, events: &[Event]) {
        for e in events {
            let r = event_row(e);
            self.conn
                .execute(
                    "INSERT INTO events VALUES (?1,?2,?3,?4,?5,?6,?7)",
                    (r.ts_ms, &r.device_id, &r.kind, &r.severity, &r.confidence, &r.title, &r.evidence),
                )
                .unwrap();
        }
    }

    fn write(&mut self, out: Flushed) {
        self.insert_sample_rollups(Tier::TenSec, &out.samples_10s);
        self.insert_sample_rollups(Tier::OneMin, &out.samples_1m);
        self.insert_process_rollups(&out.processes_10s);
        if let Some(now) = out.prune_at {
            self.prune(now);
        }
    }

    fn prune(&mut self, now_ms: u64) {
        let cut = prune_cutoffs(now_ms);
        self.conn.execute("DELETE FROM samples_10s WHERE bucket_ms < ?1", [cut.samples_10s]).unwrap();
        self.conn.execute("DELETE FROM processes_10s WHERE bucket_ms < ?1", [cut.processes_10s]).unwrap();
        self.conn.execute("DELETE FROM samples_1m WHERE bucket_ms < ?1", [cut.samples_1m]).unwrap();
        self.conn.execute("DELETE FROM events WHERE ts_ms < ?1", [cut.events]).unwrap();
    }

    fn samples_between(&self, d: &DeviceId, from: u64, to: u64, tier: Tier) -> Vec<SampleRollup> {
        let sql = format!(
            "SELECT {SAMPLE_COLUMNS} FROM {} WHERE device_id = ?1 AND bucket_ms >= ?2 \
             AND bucket_ms <= ?3 ORDER BY bucket_ms ASC",
            tier.samples_table()
        );
        let mut stmt = self.conn.prepare(&sql).unwrap();
        let (from, to) = span_bounds(from, to);
        let rows = stmt.query_map((&d.0, from, to), sample_row_of).unwrap();
        rows.map(|r| sample_rollup_from_row(r.unwrap())).collect()
    }

    fn events_between(&self, from: u64, to: u64) -> Vec<Event> {
        let mut stmt = self
            .conn
            .prepare("SELECT * FROM events WHERE ts_ms >= ?1 AND ts_ms <= ?2 ORDER BY ts_ms, rowid")
            .unwrap();
        let (from, to) = span_bounds(from, to);
        let rows = stmt
            .query_map((from, to), |row| {
                Ok(EventRow {
                    ts_ms: row.get(0)?,
                    device_id: row.get(1)?,
                    kind: row.get(2)?,
                    severity: row.get(3)?,
                    confidence: row.get(4)?,
                    title: row.get(5)?,
                    evidence: row.get(6)?,
                })
            })
            .unwrap();
        events_from_rows(&rows.map(|r| r.unwrap()).collect())
    }

    fn processes_at(&self, d: &DeviceId, at_ms: u64) -> Vec<ProcessRollup> {
        let (newest, oldest) = process_window(at_ms);
        let chosen: Option<i64> = self
            .conn
            .query_row(
                "SELECT MAX(bucket_ms) FROM processes_10s WHERE device_id = ?1 \
                 AND bucket_ms <= ?2 AND bucket_ms >= ?3",
                (&d.0, newest, oldest),
                |r| r.get(0),
            )
            .unwrap();
        let mut stmt = self
            .conn
            .prepare("SELECT * FROM processes_10s WHERE device_id = ?1 AND bucket_ms = ?2 ORDER BY pid")
            .unwrap();
        let rows = stmt
            .query_map((&d.0, chosen), |row| {
                Ok(ProcessRow {
                    device_id: row.get(0)?,
                    bucket_ms: row.get(1)?,
                    pid: row.get(2)?,
                    name: row.get(3)?,
                    kind: row.get(4)?,
                    mem_max: row.get(5)?,
                    util_avg: row.get(6)?,
                    cpu_avg: row.get(7)?,
                    container: row.get(8)?,
                })
            })
            .unwrap();
        rows.map(|r| process_rollup_from_row(r.unwrap())).collect()
    }
}

/// A recorder that writes to a store.
struct Recording {
    rec: Recorder,
    store: Store,
}

impl Recording {
    fn new() -> Self {
        Recording { rec: Recorder::new(), store: Store::new() }
    }

    fn observe(&mut self, d: &DeviceId, s: &DynamicSample, procs: &[ProcessSample]) {
        assert!(self.rec.has_room(d, s.ts_ms, procs.len()));
        let out = self.rec.observe(d, s, procs);
        self.store.write(out);
    }

    fn flush(&mut self) {
        let out = self.rec.flush();
        self.store.write(out);
    }
}

#[test]
fn ring_caps_at_capacity() {
    let mut h = DeviceHistory::new(3);
    for i in 0..10 {
        h.push(sample(i));
    }
    assert_eq!(h.len(), 3);
    assert_eq!(h.latest().unwrap().ts_ms, 9);
    assert_eq!(h.get(0).unwrap().ts_ms, 7);
}

#[test]
fn rollup_min_avg_max_and_bucket_boundary() {
    let mut rec = Recording::new();
    let d = dev("0000:01:00.0");
    rec.observe(&d, &full_sample(1_000, 10, 1 << 30, Default::default()), &[]);
    rec.observe(&d, &full_sample(2_000, 20, 2 << 30, Default::default()), &[]);
    rec.observe(&d, &full_sample(9_000, 60, 3 << 30, Default::default()), &[]);
    rec.observe(&d, &full_sample(11_000, 5, 1 << 30, Default::default()), &[]);

    let rows = rec.store.samples_between(&d, 0, 10_000, Tier::TenSec);
    assert_eq!(rows.len(), 1, "exactly one completed 10s bucket");
    let r = &rows[0];
    assert_eq!(r.bucket_ms, 0);
    assert_eq!(r.n, 3);
    assert_eq!(r.util_min, Some(10_000));
    assert_eq!(r.util_max, Some(60_000));
    assert_eq!(r.util_avg, Some(30_000));
    assert_eq!(r.mem_max, Some(3 << 30));
    assert_eq!(r.mem_avg, Some(2 << 30));
    assert_eq!(r.power_max_mw, Some(100_000));
    assert_eq!(r.sm_clock_min, Some(1500));
}

#[test]
fn absent_metric_is_null_not_zero() {
    let mut rec = Recording::new();
    let d = dev("dev-null");
    let mut s = full_sample(1_000, 50, 1 << 30, Default::default());
    s.power_mw = None;
    s.temp_c = None;
    rec.observe(&d, &s, &[]);
    let mut s2 = full_sample(2_000, 70, 2 << 30, Default::default());
    s2.power_mw = None;
    s2.temp_c = None;
    rec.observe(&d, &s2, &[]);
    rec.observe(&d, &full_sample(11_000, 1, 1 << 30, Default::default()), &[]);

    let r = &rec.store.samples_between(&d, 0, 10_000, Tier::TenSec)[0];
    assert_eq!(r.power_avg_mw, None, "all-absent power must be NULL");
    assert_eq!(r.power_max_mw, None);
    assert_eq!(r.temp_avg_c, None);
    assert_eq!(r.util_avg, Some(60_000));
}

#[test]
fn partial_present_metric_averages_over_present_only() {
    let mut rec = Recording::new();
    let d = dev("partial");
    let mut a = full_sample(1_000, 0, 1 << 30, Default::default());
    a.temp_c = Some(80_000);
    let mut b = full_sample(2_000, 0, 1 << 30, Default::default());
    b.temp_c = None;
    rec.observe(&d, &a, &[]);
    rec.observe(&d, &b, &[]);
    rec.observe(&d, &full_sample(11_000, 0, 1 << 30, Default::default()), &[]);

    let r = &rec.store.samples_between(&d, 0, 10_000, Tier::TenSec)[0];
    assert_eq!(r.temp_avg_c, Some(80_000));
    assert_eq!(r.temp_max_c, Some(80_000));
}

#[test]
fn throttle_counters_tally_per_reason() {
    let mut rec = Recording::new();
    let d = dev("throttle");
    let thermal = ThrottleReasons { thermal: true, ..Default::default() };
    let hw = ThrottleReasons { hw_slowdown: true, ..Default::default() };
    rec.observe(&d, &full_sample(1_000, 90, 1 << 30, thermal), &[]);
    rec.observe(&d, &full_sample(2_000, 90, 1 << 30, thermal), &[]);
    rec.observe(&d, &full_sample(3_000, 90, 1 << 30, hw), &[]);
    rec.observe(&d, &full_sample(4_000, 90, 1 << 30, Default::default()), &[]);
    rec.observe(&d, &full_sample(11_000, 1, 1 << 30, Default::default()), &[]);

    let r = &rec.store.samples_between(&d, 0, 10_000, Tier::TenSec)[0];
    assert_eq!(r.throttle_n, 3, "3 frames had any throttle reason");
    assert_eq!(r.throttle_thermal_n, 2);
    assert_eq!(r.throttle_hw_n, 1);
    assert_eq!(r.throttle_power_n, 0);
}

#[test]
fn flush_persists_partial_buckets() {
    let mut rec = Recording::new();
    let d = dev("flush");
    rec.observe(&d, &full_sample(1_000, 50, 1 << 30, Default::default()), &[]);
    assert!(rec.store.samples_between(&d, 0, 10_000, Tier::TenSec).is_empty());
    rec.flush();
    let rows = rec.store.samples_between(&d, 0, 10_000, Tier::TenSec);
    assert_eq!(rows.len(), 1);
    assert_eq!(rows[0].n, 1);
    assert_eq!(rows[0].util_avg, Some(50_000));
}

#[test]
fn one_min_tier_aggregates_across_ten_sec_buckets() {
    let mut rec = Recording::new();
    let d = dev("minute");
    for (i, ts) in (5_000..60_000).step_by(10_000).enumerate() {
        rec.observe(&d, &full_sample(ts, (i as i64) * 10, 1 << 30, Default::default()), &[]);
    }
    rec.observe(&d, &full_sample(61_000, 0, 1 << 30, Default::default()), &[]);

    let rows = rec.store.samples_between(&d, 0, 60_000, Tier::OneMin);
    assert_eq!(rows.len(), 1);
    assert_eq!(rows[0].bucket_ms, 0);
    assert_eq!(rows[0].n, 6, "six frames in the minute");
    assert_eq!(rows[0].util_min, Some(0));
    assert_eq!(rows[0].util_max, Some(50_000));
    assert_eq!(rows[0].util_avg, Some(25_000));
}

#[test]
fn event_round_trip_preserves_all_fields() {
    let mut store = Store::new();
    let evs = vec![
        Event {
            ts_ms: 5_000,
            device: dev("gpu0"),
            kind: EventKind::ThrottleStart,
            severity: Severity::Critical,
            confidence: Confidence::Fact,
            title: "GPU0 began throttling (hw slowdown)".into(),
            evidence: "throttle bits: [hw slowdown]; 95°C".into(),
        },
        Event {
            ts_ms: 6_000,
            device: dev("gpu0"),
            kind: EventKind::IdleGap,
            severity: Severity::Info,
            confidence: Confidence::Likely,
            title: "GPU0 sat idle 14s — likely a dataloader stall".into(),
            evidence: "util 92% -> mean 2% over 14s".into(),
        },
    ];
    store.insert_events(&evs);

    let got = store.events_between(0, 10_000);
    assert_eq!(got.len(), 2);
    for (a, b) in evs.iter().zip(&got) {
        assert_eq!(a.ts_ms, b.ts_ms);
        assert_eq!(a.device, b.device);
        assert_eq!(a.kind, b.kind, "kind must round-trip");
        assert_eq!(a.severity, b.severity, "severity must round-trip");
        assert_eq!(a.confidence, b.confidence, "confidence must round-trip (honesty contract)");
        assert_eq!(a.title, b.title);
        assert_eq!(a.evidence, b.evidence);
    }
}

#[test]
fn recorder_record_events_passthrough() {
    let mut rec = Recording::new();
    rec.store.insert_events(&[Event {
        ts_ms: 1_000,
        device: dev("g"),
        kind: EventKind::ProcessExited,
        severity: Severity::Info,
        confidence: Confidence::Fact,
        title: "left".into(),
        evidence: "gone".into(),
    }]);
    assert_eq!(rec.store.events_between(0, 2_000).len(), 1);
}

fn bucket_row(d: &DeviceId, bucket: u64) -> SampleRollup {
    SampleRollup {
        device_id: d.clone(),
        bucket_ms: bucket,
        n: 1,
        util_min: Some(1_000),
        util_avg: Some(1_000),
        util_max: Some(1_000),
        mem_avg: None,
        mem_max: None,
        power_avg_mw: None,
        power_max_mw: None,
        temp_avg_c: None,
        temp_max_c: None,
        fan_max_pct: None,
        sm_clock_min: None,
        sm_clock_avg: None,
        sm_clock_max: None,
        throttle_n: 0,
        throttle_thermal_n: 0,
        throttle_power_n: 0,
        throttle_hw_n: 0,
    }
}

#[test]
fn prune_drops_only_expired_rows() {
    let mut store = Store::new();
    let d = dev("retain");
    let now: u64 = 100 * RETAIN_1M_MS;

    let old_10s = now - RETAIN_10S_MS - 60_000;
    let new_10s = now - 60_000;
    let old_1m = now - RETAIN_1M_MS - 60_000;
    let new_1m = now - RETAIN_10S_MS - 120_000;

    store.insert_sample_rollups(Tier::TenSec, &[bucket_row(&d, old_10s), bucket_row(&d, new_10s)]);
    store.insert_sample_rollups(Tier::OneMin, &[bucket_row(&d, old_1m), bucket_row(&d, new_1m)]);
    store.insert_process_rollups(&[ProcessRollup {
        device_id: d.clone(),
        bucket_ms: old_10s,
        pid: 1,
        name: "old".into(),
        kind: ProcessKind::Compute,
        mem_max: None,
        util_avg: None,
        cpu_avg: None,
        container: None,
    }]);
    let event = |ts_ms: u64, title: &str| Event {
        ts_ms,
        device: d.clone(),
        kind: EventKind::ThrottleEnd,
        severity: Severity::Info,
        confidence: Confidence::Fact,
        title: title.into(),
        evidence: title.into(),
    };
    store.insert_events(&[event(old_1m, "old"), event(new_1m, "new")]);

    store.prune(now);

    let tens = store.samples_between(&d, 0, now, Tier::TenSec);
    assert_eq!(tens.len(), 1, "only the within-48h 10s row remains");
    assert_eq!(tens[0].bucket_ms, new_10s);

    let mins = store.samples_between(&d, 0, now, Tier::OneMin);
    assert_eq!(mins.len(), 1, "only the within-30d 1m row remains");
    assert_eq!(mins[0].bucket_ms, new_1m);

    assert!(store.processes_at(&d, old_10s).is_empty());

    let evs = store.events_between(0, now);
    assert_eq!(evs.len(), 1, "only the within-30d event remains");
    assert_eq!(evs[0].title, "new");
}

#[test]
fn processes_at_picks_right_bucket_with_fallback() {
    let mut store = Store::new();
    let d = dev("procs");
    let mk = |bucket: u64, pid: u32, name: &str, mem: u64| ProcessRollup {
        device_id: d.clone(),
        bucket_ms: bucket,
        pid,
        name: name.into(),
        kind: ProcessKind::Compute,
        mem_max: Some(mem),
        util_avg: Some(10_000),
        cpu_avg: None,
        container: None,
    };
    store.insert_process_rollups(&[mk(100_000, 1, "a", 1 << 30), mk(110_000, 2, "b", 2 << 30)]);

    let at = store.processes_at(&d, 115_000);
    assert_eq!(at.len(), 1);
    assert_eq!(at[0].pid, 2);
    assert_eq!(at[0].bucket_ms, 110_000);

    let fb = store.processes_at(&d, 125_000);
    assert_eq!(fb.len(), 1);
    assert_eq!(fb[0].pid, 2, "falls back to nearest earlier bucket");
    assert_eq!(fb[0].bucket_ms, 110_000);

    let none = store.processes_at(&d, 300_000);
    assert!(none.is_empty(), "no bucket within 60s -> empty, not stale data");
}

#[test]
fn recorder_process_rollup_aggregates() {
    let mut rec = Recording::new();
    let d = dev("procagg");
    let proc = |mem: u64, util: i64, cpu: i64| ProcessSample {
        pid: 42,
        name: "python".into(),
        kind: ProcessKind::Compute,
        mem_bytes: Some(mem),
        util_pct: Some(util * 1_000),
        cpu_pct: Some(cpu * 1_000),
        container: None,
    };
    rec.observe(&d, &full_sample(1_000, 50, 1 << 30, Default::default()), &[proc(1 << 30, 10, 100)]);
    rec.observe(&d, &full_sample(2_000, 50, 1 << 30, Default::default()), &[proc(3 << 30, 30, 200)]);
    rec.observe(&d, &full_sample(11_000, 1, 1 << 30, Default::default()), &[]);

    let rows = rec.store.processes_at(&d, 5_000);
    assert_eq!(rows.len(), 1);
    let r = &rows[0];
    assert_eq!(r.pid, 42);
    assert_eq!(r.mem_max, Some(3 << 30), "peak memory across the bucket");
    assert_eq!(r.util_avg, Some(20_000));
    assert_eq!(r.cpu_avg, Some(150_000));
}

#[test]
fn mock_default_path_is_separate_from_real() {
    let mock_name = history_file(true);
    let real_name = history_file(false);
    assert!(
        mock_name.contains("-mock"),
        "mock db filename must contain -mock, got {mock_name}"
    );
    assert!(
        !real_name.contains("-mock"),
        "real db filename must not contain -mock, got {real_name}"
    );
    assert_ne!(mock_name, real_name, "mock and real must be different files");
    // A data home wins over the home; an empty one is none.
    assert_eq!(default_data_dir(Some(9), Some(5)), Some((DataRoot::DataHome, "gpuviewer")));
    assert_eq!(default_data_dir(Some(0), Some(5)), Some((DataRoot::Home, ".local/share/gpuviewer")));
    assert_eq!(default_data_dir(None, Some(0)), None);
    assert_eq!(default_data_dir(None, None), None);
}

#[test]
fn a_ring_without_capacity_stays_empty() {
    let mut h = DeviceHistory::new(0);
    assert!(h.is_empty());
    for i in 0..5 {
        h.push(sample(i));
    }
    assert_eq!(h.len(), 0);
    assert!(h.latest().is_none());
    assert!(h.get(0).is_none());
}

#[test]
fn a_ring_holds_the_last_samples_in_order() {
    for n in 0..7u64 {
        let mut h = DeviceHistory::new(4);
        for i in 0..n {
            h.push(sample(i));
        }
        let held: Vec<u64> = (0..h.len()).map(|i| h.get(i).unwrap().ts_ms).collect();
        let want: Vec<u64> = (n.saturating_sub(4)..n).collect();
        assert_eq!(held, want);
    }
}

#[test]
fn the_log_keeps_the_newest_events() {
    let mut store = HistoryStore::new(2, 3);
    let d = dev("d");
    for i in 0..4 {
        store.push_sample(&d, sample(i));
    }
    assert_eq!(store.device(&d).unwrap().len(), 2);
    assert!(store.device(&dev("e")).is_none());
    let event = |ts_ms: u64| Event {
        ts_ms,
        device: d.clone(),
        kind: EventKind::IdleGap,
        severity: Severity::Info,
        confidence: Confidence::Likely,
        title: String::new(),
        evidence: String::new(),
    };
    store.push_events((0..2).map(event).collect());
    store.push_events((2..5).map(event).collect());
    let kept: Vec<u64> = store.events().iter().map(|e| e.ts_ms).collect();
    assert_eq!(kept, vec![2, 3, 4]);
}

#[test]
fn every_frame_is_in_one_bucket_of_each_tier() {
    let mut rec = Recording::new();
    let d = dev("conserved");
    for ts in (0..200_000).step_by(1_000) {
        rec.observe(&d, &sample(ts), &[]);
    }
    rec.flush();
    let tens = rec.store.samples_between(&d, 0, 1_000_000, Tier::TenSec);
    let mins = rec.store.samples_between(&d, 0, 1_000_000, Tier::OneMin);
    assert_eq!(tens.iter().map(|r| r.n).sum::<u32>(), 200);
    assert_eq!(mins.iter().map(|r| r.n).sum::<u32>(), 200);
    assert_eq!(tens.len(), 20);
    assert_eq!(mins.len(), 4);
}

#[test]
fn a_frame_of_the_past_goes_into_the_open_bucket() {
    let mut rec = Recording::new();
    let d = dev("past");
    rec.observe(&d, &sample(25_000), &[]);
    rec.observe(&d, &sample(3_000), &[]);
    rec.flush();
    let rows = rec.store.samples_between(&d, 0, 100_000, Tier::TenSec);
    assert_eq!(rows.len(), 1);
    assert_eq!((rows[0].bucket_ms, rows[0].n), (20_000, 2));
}

#[test]
fn pruning_is_due_once_in_360_buckets() {
    let mut rec = Recorder::new();
    let d = dev("prune");
    let mut due = Vec::new();
    for i in 0..800u64 {
        if let Some(now) = rec.observe(&d, &sample(i * 10_000), &[]).prune_at {
            due.push(now);
        }
    }
    assert_eq!(due, vec![3_600_000, 7_200_000]);
}

#[test]
fn unobservable_throttling_is_not_counted() {
    let mut rec = Recording::new();
    let d = dev("blind");
    let mut s = sample(1_000);
    s.throttle = None;
    rec.observe(&d, &s, &[]);
    rec.flush();
    assert_eq!(rec.store.samples_between(&d, 0, 10_000, Tier::TenSec)[0].throttle_n, 0);
}

#[test]
fn stored_spellings_read_back() {
    let kinds = [
        (EventKind::ThrottleStart, "throttle_start"),
        (EventKind::ThrottleEnd, "throttle_end"),
        (EventKind::ProcessAttached, "process_attached"),
        (EventKind::ProcessExited, "process_exited"),
        (EventKind::VramPressure, "vram_pressure"),
        (EventKind::IdleGap, "idle_gap"),
        (EventKind::CollectorStall, "collector_stall"),
        (EventKind::HistoryReset, "history_reset"),
        (EventKind::HangSuspected, "hang_suspected"),
        (EventKind::DeviceLost, "device_lost"),
        (EventKind::DeviceReturned, "device_returned"),
        (EventKind::CpuSpillover, "cpu_spillover"),
        (EventKind::RecordingStarted, "recording_started"),
        (EventKind::RecordingStopped, "recording_stopped"),
    ];
    for (k, token) in kinds {
        assert_eq!(kind_to_str(k), token);
        assert_eq!(kind_from_str(token), Some(k));
    }
    for (s, token) in [
        (Severity::Info, "info"),
        (Severity::Warning, "warning"),
        (Severity::Critical, "critical"),
    ] {
        assert_eq!(severity_to_str(s), token);
        assert_eq!(severity_from_str(token), Some(s));
    }
    for (c, token) in [(Confidence::Fact, "fact"), (Confidence::Likely, "likely")] {
        assert_eq!(confidence_to_str(c), token);
        assert_eq!(confidence_from_str(token), Some(c));
    }
    for v in [Vendor::Nvidia, Vendor::Amd, Vendor::Intel, Vendor::Apple, Vendor::Unknown] {
        assert_eq!(vendor_from_str(&vendor_str(v)), v);
    }
    for k in [ProcessKind::Compute, ProcessKind::Graphics, ProcessKind::Both, ProcessKind::Unknown] {
        assert_eq!(kind_from_proc_str(&kind_str(k)), k);
    }
    // An escape is read as JSON reads it; a text that is no token is none.
    assert_eq!(confidence_from_str("\\u0066act"), Some(Confidence::Fact));
    assert_eq!(confidence_from_str("fact\""), None);
    assert_eq!(confidence_from_str("FACT"), None);
    assert_eq!(vendor_from_str("voodoo"), Vendor::Unknown);
    assert_eq!(kind_from_proc_str("\\"), ProcessKind::Unknown);
}

#[test]
fn a_row_with_an_unknown_spelling_is_left_out() {
    let mut store = Store::new();
    store.insert_events(&[Event {
        ts_ms: 1,
        device: dev("d"),
        kind: EventKind::DeviceLost,
        severity: Severity::Critical,
        confidence: Confidence::Fact,
        title: "lost".into(),
        evidence: "gone".into(),
    }]);
    store
        .conn
        .execute("INSERT INTO events VALUES (2, 'd', 'of_the_future', 'info', 'fact', '', '')", [])
        .unwrap();
    let got = store.events_between(0, 10);
    assert_eq!(got.len(), 1);
    assert_eq!(got[0].title, "lost");
    let unknown = EventRow {
        ts_ms: 1,
        device_id: "d".into(),
        kind: "device_lost".into(),
        severity: "info".into(),
        confidence: "certain".into(),
        title: String::new(),
        evidence: String::new(),
    };
    assert!(event_from_row(&unknown).is_none());
}

#[test]
fn sizes_beyond_the_signed_range_survive_the_database() {
    let mut store = Store::new();
    let d = dev("huge");
    let mut row = bucket_row(&d, 0);
    row.mem_max = Some(u64::MAX - 1);
    store.insert_sample_rollups(Tier::TenSec, &[row]);
    assert_eq!(store.samples_between(&d, 0, 0, Tier::TenSec)[0].mem_max, Some(u64::MAX - 1));
    let stored = device_row(&d, "GPU", Vendor::Amd, Some(u64::MAX));
    assert_eq!(
        stored,
        StoredDevice {
            device_id: "huge".into(),
            name: "GPU".into(),
            vendor: "amd".into(),
            mem_total_bytes: Some(-1),
        }
    );
    let back = device_from_row(stored);
    assert_eq!((back.vendor, back.mem_total_bytes), (Vendor::Amd, Some(u64::MAX)));
}

#[test]
fn a_file_that_is_broken_is_moved_aside() {
    assert_eq!(open_step(true, false, false), OpenStep::Keep);
    assert_eq!(open_step(true, true, true), OpenStep::Keep);
    assert_eq!(open_step(true, true, false), OpenStep::Quarantine);
    assert_eq!(open_step(false, true, false), OpenStep::Quarantine);
    assert_eq!(corrupt_suffix(1_700_000_000), ".corrupt-1700000000");
}

#[test]
fn a_span_that_ends_past_all_times_finds_everything() {
    assert_eq!(span_bounds(5, 9), (5, 9));
    assert_eq!(span_bounds(0, u64::MAX), (0, i64::MAX));
    assert_eq!(span_bounds(i64::MAX as u64, u64::MAX), (i64::MAX, i64::MAX));
    let (from, to) = span_bounds(i64::MAX as u64 + 1, u64::MAX);
    assert!(from > to);
}

#[test]
fn a_row_holds_the_frames_of_its_bucket() {
    let mut rec = Recording::new();
    let d = dev("d");
    let times = [0u64, 9_999, 10_000, 19_999, 19_999, 40_000, 59_999, 60_000, 75_000];
    for t in times {
        rec.observe(&d, &full_sample(t, 10, 1 << 30, Default::default()), &[]);
    }
    let counts = |tier: Tier| -> Vec<(u64, u32)> {
        rec.store.samples_between(&d, 0, u64::MAX, tier).iter().map(|r| (r.bucket_ms, r.n)).collect()
    };
    assert_eq!(
        counts(Tier::TenSec),
        vec![(0, 2), (10_000, 3), (40_000, 1), (50_000, 1), (60_000, 1)]
    );
    assert_eq!(counts(Tier::OneMin), vec![(0, 7)]);
}

#[test]
fn a_span_of_events_reads_back() {
    let event = |ts_ms: u64, title: &str| Event {
        ts_ms,
        device: dev("gpu0"),
        kind: EventKind::ProcessAttached,
        severity: Severity::Info,
        confidence: Confidence::Fact,
        title: title.into(),
        evidence: "pid 1".into(),
    };
    let stored = vec![
        event(30, "c"),
        event(10, "a"),
        event(20, "b first"),
        event(20, "b second"),
        event(i64::MAX as u64, "end"),
    ];
    // Every row reads back as its event, in the order of the rows.
    let rows: Vec<EventRow> = stored.iter().map(event_row).collect();
    assert_eq!(format!("{:?}", events_from_rows(&rows)), format!("{stored:?}"));

    let mut store = Store::new();
    store.insert_events(&stored);
    let titles = |from: u64, to: u64| {
        store.events_between(from, to).into_iter().map(|e| e.title).collect::<Vec<_>>()
    };
    assert_eq!(titles(0, u64::MAX), ["a", "b first", "b second", "c", "end"]);
    assert_eq!(titles(10, 20), ["a", "b first", "b second"]);
    assert_eq!(titles(11, 29), ["b first", "b second"]);
    assert!(titles(31, 40).is_empty());
    assert!(titles(u64::MAX, u64::MAX).is_empty());
    assert!(titles(20, 10).is_empty());
}

#[test]
fn rollups_keep_a_share_below_zero() {
    let mut acc = SampleAccum::new();
    acc.reset(0);
    for (ts, util) in [(0, -5_000), (1_000, -2_000), (2_000, 3_000)] {
        acc.fold(&DynamicSample { util_pct: Some(util), ..sample(ts) });
    }
    let r = acc.to_rollup(&dev("gpu0")).unwrap();
    assert_eq!((r.util_min, r.util_avg, r.util_max), (Some(-5_000), Some(-1_333), Some(3_000)));
}
