use gpuviewer::events::{fmt_dur_ms, Confidence, Event, EventEngine, EventKind, Severity};
use gpuviewer::mock::MockBackend;
use gpuviewer::model::{
    DeviceId, DynamicSample, ProcessKind, ProcessSample, StaticInfo, ThrottleReasons,
};

/// Percent in thousandths.
fn pct(p: f32) -> i64 {
    (p * 1000.0) as i64
}

#[test]
fn mock_backend_produces_samples_and_processes() {
    let mut b = MockBackend::new();
    let devs = b.devices();
    assert_eq!(devs.len(), 2);
    let ts = 1_000;
    for d in &devs {
        let info = b.static_info(d).unwrap();
        assert!(info.mem_total_bytes.is_some());
        let s = b.refresh_dynamic(d, ts).unwrap();
        assert!(s.util_pct.is_some());
        let procs = b.refresh_processes(d).unwrap();
        assert!(!procs.is_empty());
    }
}

#[test]
fn event_engine_emits_throttle_and_process_events() {
    let mut b = MockBackend::new();
    let devs = b.devices();
    let mut engine = EventEngine::new();
    for (i, d) in devs.iter().enumerate() {
        engine.register_device(d.clone(), format!("GPU{i}"));
    }
    let infos: Vec<StaticInfo> = devs.iter().map(|d| b.static_info(d).unwrap()).collect();

    let mut kinds = std::collections::HashSet::new();
    for i in 0..400u64 {
        let ts = i * 1_000;
        for (d, info) in devs.iter().zip(&infos) {
            let s = b.refresh_dynamic(d, ts).unwrap();
            let p = b.refresh_processes(d).unwrap();
            for e in engine.observe(d, &s, &p, info.mem_total_bytes, info.temp_slowdown_c) {
                kinds.insert(e.kind);
            }
        }
    }
    assert!(
        kinds.contains(&EventKind::ThrottleStart),
        "no throttle event in 400 ticks"
    );
    assert!(
        kinds.contains(&EventKind::ProcessAttached),
        "no attach event in 400 ticks"
    );
    assert!(
        kinds.contains(&EventKind::ProcessExited),
        "no exit event in 400 ticks"
    );
}

#[test]
fn first_process_observation_does_not_flood_events() {
    let mut engine = EventEngine::new();
    let dev = DeviceId("test".into());
    let procs = vec![ProcessSample {
        pid: 1,
        name: "preexisting".into(),
        kind: ProcessKind::Compute,
        mem_bytes: Some(1024),
        util_pct: None,
        cpu_pct: None,
        container: None,
    }];
    let sample = DynamicSample {
        ts_ms: 1000,
        util_pct: Some(50_000),
        util_engine: None,
        mem_used_bytes: Some(1024),
        power_mw: None,
        temp_c: None,
        fan_pct: None,
        sm_clock_mhz: None,
        mem_clock_mhz: None,
        encoder_pct: None,
        decoder_pct: None,
        throttle: Some(ThrottleReasons::default()),
    };
    let events = engine.observe(&dev, &sample, &procs, Some(1 << 30), None);
    assert!(
        events.is_empty(),
        "first observation must not narrate preexisting processes"
    );
}

#[test]
fn throttle_end_narrates_recovery_honestly() {
    fn sample(ts_ms: u64, sm_clock_mhz: u32, thermal: bool) -> DynamicSample {
        DynamicSample {
            ts_ms,
            util_pct: Some(90_000),
            util_engine: None,
            mem_used_bytes: Some(1 << 30),
            power_mw: None,
            temp_c: Some(80_000),
            fan_pct: None,
            sm_clock_mhz: Some(sm_clock_mhz),
            mem_clock_mhz: None,
            encoder_pct: None,
            decoder_pct: None,
            throttle: Some(ThrottleReasons { thermal, ..Default::default() }),
        }
    }
    let run = |end_clock: u32| -> Event {
        let mut engine = EventEngine::new();
        let dev = DeviceId("test".into());
        engine.observe(&dev, &sample(1_000, 2400, false), &[], Some(1 << 34), None);
        engine.observe(&dev, &sample(2_000, 1800, true), &[], Some(1 << 34), None);
        let mut events = engine.observe(
            &dev,
            &sample(3_000, end_clock, false),
            &[],
            Some(1 << 34),
            None,
        );
        assert_eq!(events.len(), 1, "throttle end must emit exactly one event");
        assert_eq!(events[0].kind, EventKind::ThrottleEnd);
        events.remove(0)
    };

    let recovered = run(2350);
    assert!(
        recovered.evidence.contains("recovered to 2350 MHz"),
        "expected recovery narration, got: {}",
        recovered.evidence
    );

    let idle_end = run(300);
    assert!(
        !idle_end.evidence.contains("recovered"),
        "must not claim recovery at idle clocks, got: {}",
        idle_end.evidence
    );
    assert!(
        idle_end.evidence.contains("300 MHz") && idle_end.evidence.contains("2400 MHz"),
        "must state current and pre-throttle clocks, got: {}",
        idle_end.evidence
    );
}

#[test]
fn vram_window_resets_on_sharp_drop() {
    let total: u64 = 16 << 30;
    let mk = |ts_ms: u64, used: u64| DynamicSample {
        ts_ms,
        util_pct: Some(90_000),
        util_engine: None,
        mem_used_bytes: Some(used),
        power_mw: None,
        temp_c: None,
        fan_pct: None,
        sm_clock_mhz: None,
        mem_clock_mhz: None,
        encoder_pct: None,
        decoder_pct: None,
        throttle: Some(ThrottleReasons::default()),
    };
    let mut engine = EventEngine::new();
    let dev = DeviceId("test".into());

    let mut ts = 0u64;
    let mut used = 8 << 30;
    for _ in 0..70 {
        engine.observe(&dev, &mk(ts, used), &[], Some(total), None);
        ts += 1000;
        used += 64 << 20;
    }
    engine.observe(&dev, &mk(ts, 4 << 30), &[], Some(total), None);
    ts += 1000;

    let events = engine.observe(
        &dev,
        &mk(ts, (total as f64 * 0.9) as u64),
        &[],
        Some(total),
        None,
    );
    assert!(
        events.is_empty(),
        "no pressure event may fire from a stale window after a sharp drop: {:?}",
        events.iter().map(|e| &e.title).collect::<Vec<_>>()
    );
}

#[test]
fn vram_pressure_holder_requires_known_size() {
    let total: u64 = 16 << 30;
    let mk = |ts_ms: u64, used: u64| DynamicSample {
        ts_ms,
        util_pct: Some(90_000),
        util_engine: None,
        mem_used_bytes: Some(used),
        power_mw: None,
        temp_c: None,
        fan_pct: None,
        sm_clock_mhz: None,
        mem_clock_mhz: None,
        encoder_pct: None,
        decoder_pct: None,
        throttle: Some(ThrottleReasons::default()),
    };
    let proc_named = |pid: u32, name: &str, mem: Option<u64>| ProcessSample {
        pid,
        name: name.into(),
        kind: ProcessKind::Compute,
        mem_bytes: mem,
        util_pct: None,
        cpu_pct: None,
        container: None,
    };

    let run = |mem_a: Option<u64>, mem_b: Option<u64>| -> Event {
        let mut engine = EventEngine::new();
        let dev = DeviceId("test".into());
        let procs = vec![proc_named(1, "alpha", mem_a), proc_named(2, "beta", mem_b)];
        let mut ts = 0u64;
        let mut used = (total as f64 * 0.86) as u64;
        let mut hits = Vec::new();
        for _ in 0..=13 {
            let events = engine.observe(&dev, &mk(ts, used), &procs, Some(total), None);
            hits.extend(
                events
                    .into_iter()
                    .filter(|e| e.kind == EventKind::VramPressure),
            );
            ts += 10_000;
            used += 100 << 20;
        }
        assert!(!hits.is_empty(), "pressure event never fired");
        hits.remove(0)
    };

    let unknown = run(None, None);
    assert!(
        !unknown.title.contains("largest holder"),
        "must not name a holder when every process size is unknown: {}",
        unknown.title
    );

    let known = run(None, Some(2 << 30));
    assert!(
        known.title.contains("largest holder: beta pid 2"),
        "must name the process whose size is known: {}",
        known.title
    );
}


fn idle_sample(ts_ms: u64, util_pct: f32) -> DynamicSample {
    DynamicSample {
        ts_ms,
        util_pct: Some(pct(util_pct)),
        util_engine: None,
        mem_used_bytes: Some(8 << 30),
        power_mw: None,
        temp_c: None,
        fan_pct: None,
        sm_clock_mhz: None,
        mem_clock_mhz: None,
        encoder_pct: None,
        decoder_pct: None,
        throttle: Some(ThrottleReasons::default()),
    }
}

fn python_proc() -> ProcessSample {
    ProcessSample {
        pid: 4521,
        name: "python".into(),
        kind: ProcessKind::Compute,
        mem_bytes: Some(6 << 30),
        util_pct: None,
        cpu_pct: None,
        container: None,
    }
}

fn drive(
    engine: &mut EventEngine,
    dev: &DeviceId,
    ts_range: std::ops::RangeInclusive<u64>,
    util_pct: f32,
    procs: &[ProcessSample],
) -> Vec<Event> {
    let mut out = Vec::new();
    for ts in ts_range.step_by(1000) {
        out.extend(engine.observe(
            dev,
            &idle_sample(ts, util_pct),
            procs,
            Some(16 << 30),
            None,
        ));
    }
    out
}

#[test]
fn idle_gap_fires_once_on_recovery_and_is_hedged() {
    let mut engine = EventEngine::new();
    let dev = DeviceId("test".into());
    engine.register_device(dev.clone(), "GPU0".into());
    let procs = vec![python_proc()];

    let active = drive(&mut engine, &dev, 0..=30_000, 92.0, &procs);
    let during = drive(&mut engine, &dev, 31_000..=44_000, 2.0, &procs);
    assert!(
        active
            .iter()
            .chain(&during)
            .all(|e| e.kind != EventKind::IdleGap),
        "the gap must not narrate before it ends (its duration is unknown)"
    );

    let recovery = drive(&mut engine, &dev, 45_000..=45_000, 93.0, &procs);
    let gaps: Vec<&Event> = recovery
        .iter()
        .filter(|e| e.kind == EventKind::IdleGap)
        .collect();
    assert_eq!(gaps.len(), 1, "exactly one IdleGap on recovery");
    let e = gaps[0];
    assert_eq!(e.confidence, Confidence::Likely, "a stall is an inference");
    assert_eq!(e.severity, Severity::Info);
    assert_eq!(
        e.ts_ms, 45_000,
        "event is stamped at gap end, from sample.ts_ms"
    );
    assert!(
        e.title.contains("GPU0 sat idle 14s") && e.title.contains("python (pid 4521)"),
        "title must name the span and the holder, got: {}",
        e.title
    );
    assert!(
        e.title.contains("likely"),
        "inference must hedge: {}",
        e.title
    );
    assert!(
        e.evidence.contains("92%")
            && e.evidence.contains("31000..45000")
            && e.evidence.contains("pid 4521")
            && e.evidence.contains("6.0 GiB"),
        "evidence must carry the raw numbers, got: {}",
        e.evidence
    );

    let after = drive(&mut engine, &dev, 46_000..=60_000, 93.0, &procs);
    assert!(after.iter().all(|e| e.kind != EventKind::IdleGap));
}

#[test]
fn idle_gap_below_minimum_duration_is_silent() {
    let mut engine = EventEngine::new();
    let dev = DeviceId("test".into());
    let procs = vec![python_proc()];

    let mut all = drive(&mut engine, &dev, 0..=30_000, 92.0, &procs);
    all.extend(drive(&mut engine, &dev, 31_000..=35_000, 2.0, &procs));
    all.extend(drive(&mut engine, &dev, 36_000..=40_000, 93.0, &procs));
    assert!(
        all.iter().all(|e| e.kind != EventKind::IdleGap),
        "a 5s gap is below IDLE_GAP_MIN_MS and must not narrate"
    );
}

#[test]
fn idle_gap_without_attached_process_is_silent() {
    let mut engine = EventEngine::new();
    let dev = DeviceId("test".into());

    let mut all = drive(&mut engine, &dev, 0..=30_000, 92.0, &[]);
    all.extend(drive(&mut engine, &dev, 31_000..=44_000, 2.0, &[]));
    all.extend(drive(&mut engine, &dev, 45_000..=50_000, 93.0, &[]));
    assert!(
        all.iter().all(|e| e.kind != EventKind::IdleGap),
        "no holder process means no stall narration"
    );
}

#[test]
fn idle_gap_suppressed_when_holder_exits_mid_gap() {
    let mut engine = EventEngine::new();
    let dev = DeviceId("test".into());
    let procs = vec![python_proc()];

    let mut all = drive(&mut engine, &dev, 0..=30_000, 92.0, &procs);
    all.extend(drive(&mut engine, &dev, 31_000..=36_000, 2.0, &procs));
    all.extend(drive(&mut engine, &dev, 37_000..=44_000, 2.0, &[]));
    all.extend(drive(&mut engine, &dev, 45_000..=50_000, 93.0, &[]));

    assert!(
        all.iter().any(|e| e.kind == EventKind::ProcessExited),
        "the exit itself must still be narrated as a fact"
    );
    assert!(
        all.iter().all(|e| e.kind != EventKind::IdleGap),
        "holder exited mid-gap: the exit event covers it, IdleGap must stay silent"
    );
}

#[test]
fn idle_gap_requires_prior_sustained_activity() {
    let mut engine = EventEngine::new();
    let dev = DeviceId("test".into());
    let procs = vec![python_proc()];

    let mut all = drive(&mut engine, &dev, 0..=10_000, 92.0, &procs);
    all.extend(drive(&mut engine, &dev, 11_000..=24_000, 2.0, &procs));
    all.extend(drive(&mut engine, &dev, 25_000..=30_000, 93.0, &procs));
    assert!(
        all.iter().all(|e| e.kind != EventKind::IdleGap),
        "no sustained activity before the trough — no stall to narrate"
    );
}


fn opt_sample(ts_ms: u64, util_pct: Option<f32>) -> DynamicSample {
    DynamicSample {
        ts_ms,
        util_pct: util_pct.map(pct),
        util_engine: None,
        mem_used_bytes: Some(8 << 30),
        power_mw: None,
        temp_c: None,
        fan_pct: None,
        sm_clock_mhz: None,
        mem_clock_mhz: None,
        encoder_pct: None,
        decoder_pct: None,
        throttle: Some(ThrottleReasons::default()),
    }
}

fn proc_with(
    pid: u32,
    name: &str,
    mem: u64,
    util_pct: Option<f32>,
    cpu_pct: Option<f32>,
) -> ProcessSample {
    ProcessSample {
        pid,
        name: name.into(),
        kind: ProcessKind::Compute,
        mem_bytes: Some(mem),
        util_pct: util_pct.map(pct),
        cpu_pct: cpu_pct.map(pct),
        container: None,
    }
}

fn drive_opt(
    engine: &mut EventEngine,
    dev: &DeviceId,
    ts_range: std::ops::RangeInclusive<u64>,
    util_pct: Option<f32>,
    procs: &[ProcessSample],
) -> Vec<Event> {
    let mut out = Vec::new();
    for ts in ts_range.step_by(1000) {
        out.extend(engine.observe(dev, &opt_sample(ts, util_pct), procs, Some(16 << 30), None));
    }
    out
}

#[test]
fn hang_fires_once_exactly_at_ten_minutes() {
    let mut engine = EventEngine::new();
    let dev = DeviceId("test".into());
    engine.register_device(dev.clone(), "GPU0".into());
    let procs = vec![proc_with(4521, "python", 6 << 30, None, None)];

    let before = drive_opt(&mut engine, &dev, 0..=599_000, Some(1.0), &procs);
    assert!(
        before.iter().all(|e| e.kind != EventKind::HangSuspected),
        "must not fire at 9m59s — that is below HANG_MIN_MS"
    );

    let at_ten = drive_opt(&mut engine, &dev, 600_000..=600_000, Some(1.0), &procs);
    let hangs: Vec<&Event> = at_ten
        .iter()
        .filter(|e| e.kind == EventKind::HangSuspected)
        .collect();
    assert_eq!(hangs.len(), 1, "exactly one HangSuspected at the 10m mark");
    let e = hangs[0];
    assert_eq!(e.confidence, Confidence::Likely, "a hang is an inference");
    assert_eq!(e.severity, Severity::Warning);
    assert_eq!(e.ts_ms, 600_000, "stamped at the 10-minute mark");
    assert!(
        e.title.contains("likely hung")
            && e.title.contains("python (pid 4521)")
            && e.title.contains("6.0 GiB"),
        "title must hedge and name the holder/mem, got: {}",
        e.title
    );
    assert!(
        e.evidence.contains("0..600000")
            && e.evidence.contains("pid 4521")
            && e.evidence.contains("6.0 GiB"),
        "evidence must carry the raw window and holder, got: {}",
        e.evidence
    );

    let after = drive_opt(&mut engine, &dev, 601_000..=900_000, Some(1.0), &procs);
    assert!(
        after.iter().all(|e| e.kind != EventKind::HangSuspected),
        "a single episode must narrate exactly once"
    );
}

#[test]
fn hang_does_not_fire_when_util_recovers_early() {
    let mut engine = EventEngine::new();
    let dev = DeviceId("test".into());
    let procs = vec![proc_with(4521, "python", 6 << 30, None, None)];

    let mut all = drive_opt(&mut engine, &dev, 0..=539_000, Some(1.0), &procs);
    all.extend(drive_opt(
        &mut engine,
        &dev,
        540_000..=545_000,
        Some(93.0),
        &procs,
    ));
    all.extend(drive_opt(
        &mut engine,
        &dev,
        546_000..=560_000,
        Some(1.0),
        &procs,
    ));
    assert!(
        all.iter().all(|e| e.kind != EventKind::HangSuspected),
        "recovery before 10m must reset the episode — no hang"
    );
}

#[test]
fn hang_does_not_fire_when_holder_exits_and_exit_still_narrates() {
    let mut engine = EventEngine::new();
    let dev = DeviceId("test".into());
    let procs = vec![proc_with(4521, "python", 6 << 30, None, None)];

    let mut all = drive_opt(&mut engine, &dev, 0..=300_000, Some(1.0), &procs);
    all.extend(drive_opt(
        &mut engine,
        &dev,
        301_000..=900_000,
        Some(1.0),
        &[],
    ));

    assert!(
        all.iter().any(|e| e.kind == EventKind::ProcessExited),
        "the holder's exit must still be narrated as a fact"
    );
    assert!(
        all.iter().all(|e| e.kind != EventKind::HangSuspected),
        "anchored holder exited — no hang to claim"
    );
}

#[test]
fn hang_does_not_fire_when_util_goes_none_midwindow() {
    let mut engine = EventEngine::new();
    let dev = DeviceId("test".into());
    let procs = vec![proc_with(4521, "python", 6 << 30, None, None)];

    let mut all = drive_opt(&mut engine, &dev, 0..=300_000, Some(1.0), &procs);
    all.extend(drive_opt(
        &mut engine,
        &dev,
        301_000..=320_000,
        None,
        &procs,
    ));
    all.extend(drive_opt(
        &mut engine,
        &dev,
        321_000..=360_000,
        Some(1.0),
        &procs,
    ));
    assert!(
        all.iter().all(|e| e.kind != EventKind::HangSuspected),
        "a blind spot mid-window must reset the episode — no hang"
    );
}

#[test]
fn hang_suppresses_the_idle_gap_it_lived_in() {
    let mut engine = EventEngine::new();
    let dev = DeviceId("test".into());
    engine.register_device(dev.clone(), "GPU0".into());
    let procs = vec![proc_with(4521, "python", 6 << 30, None, None)];

    let mut all = drive(&mut engine, &dev, 0..=40_000, 92.0, &procs);
    all.extend(drive_opt(
        &mut engine,
        &dev,
        41_000..=761_000,
        Some(1.0),
        &procs,
    ));
    all.extend(drive(&mut engine, &dev, 762_000..=765_000, 93.0, &procs));

    let hangs = all
        .iter()
        .filter(|e| e.kind == EventKind::HangSuspected)
        .count();
    let gaps = all.iter().filter(|e| e.kind == EventKind::IdleGap).count();
    assert_eq!(hangs, 1, "the trough must narrate exactly one hang");
    assert_eq!(
        gaps, 0,
        "the hang already covered this trough — the IdleGap must be suppressed"
    );
}

#[test]
fn spillover_fires_on_textbook_case() {
    let mut engine = EventEngine::new();
    let dev = DeviceId("test".into());
    engine.register_device(dev.clone(), "GPU0".into());

    let mem = 12_133_000_000u64;
    drive_opt(&mut engine, &dev, 0..=0, Some(3.0), &[]);
    let ollama = vec![proc_with(7777, "ollama", mem, Some(0.0), Some(310.0))];
    let out = drive_opt(&mut engine, &dev, 1_000..=91_000, Some(5.0), &ollama);

    let evts: Vec<&Event> = out
        .iter()
        .filter(|e| e.kind == EventKind::CpuSpillover)
        .collect();
    assert_eq!(evts.len(), 1, "exactly one CpuSpillover at window close");
    let e = evts[0];
    assert_eq!(
        e.confidence,
        Confidence::Likely,
        "spillover is an inference"
    );
    assert_eq!(e.severity, Severity::Warning);
    assert!(
        e.title.contains("likely partial CPU offload")
            && e.title.contains("ollama (pid 7777)")
            && e.title.contains("11.3 GiB"),
        "title must hedge and name the model/mem, got: {}",
        e.title
    );
    assert!(
        e.evidence.contains("1000..91000")
            && e.evidence.contains("CPU mean")
            && e.evidence.contains("util mean"),
        "evidence must carry the window and both means, got: {}",
        e.evidence
    );
}

#[test]
fn spillover_cancels_when_gpu_gets_busy() {
    let mut engine = EventEngine::new();
    let dev = DeviceId("test".into());

    let mem = 12 << 30;
    drive_opt(&mut engine, &dev, 0..=0, Some(3.0), &[]);
    let ollama = vec![proc_with(7777, "ollama", mem, Some(0.0), Some(310.0))];
    let mut out = drive_opt(&mut engine, &dev, 1_000..=60_000, Some(5.0), &ollama);
    out.extend(drive_opt(
        &mut engine,
        &dev,
        61_000..=91_000,
        Some(80.0),
        &ollama,
    ));
    assert!(
        out.iter().all(|e| e.kind != EventKind::CpuSpillover),
        "a busy GPU refutes the offload claim — no spillover"
    );
}

#[test]
fn spillover_cancels_when_process_exits_midwindow() {
    let mut engine = EventEngine::new();
    let dev = DeviceId("test".into());

    let mem = 12 << 30;
    drive_opt(&mut engine, &dev, 0..=0, Some(3.0), &[]);
    let ollama = vec![proc_with(7777, "ollama", mem, Some(0.0), Some(310.0))];
    let mut out = drive_opt(&mut engine, &dev, 1_000..=40_000, Some(5.0), &ollama);
    out.extend(drive_opt(
        &mut engine,
        &dev,
        41_000..=91_000,
        Some(5.0),
        &[],
    ));
    assert!(
        out.iter().all(|e| e.kind != EventKind::CpuSpillover),
        "process exited mid-window — spillover must be cancelled silently"
    );
    assert!(
        out.iter().any(|e| e.kind == EventKind::ProcessExited),
        "the exit itself must still narrate"
    );
}

#[test]
fn spillover_silent_without_cpu_visibility() {
    let mut engine = EventEngine::new();
    let dev = DeviceId("test".into());

    let mem = 12 << 30;
    drive_opt(&mut engine, &dev, 0..=0, Some(3.0), &[]);
    let ollama = vec![proc_with(7777, "ollama", mem, Some(0.0), None)];
    let out = drive_opt(&mut engine, &dev, 1_000..=91_000, Some(5.0), &ollama);
    assert!(
        out.iter().all(|e| e.kind != EventKind::CpuSpillover),
        "no CPU visibility means no claim — must stay silent"
    );
}

#[test]
fn spillover_silent_with_too_few_cpu_samples() {
    let mut engine = EventEngine::new();
    let dev = DeviceId("test".into());

    let mem = 12 << 30;
    drive_opt(&mut engine, &dev, 0..=0, Some(3.0), &[]);
    let blind = vec![proc_with(7777, "ollama", mem, Some(0.0), None)];
    let hot = vec![proc_with(7777, "ollama", mem, Some(0.0), Some(310.0))];
    let mut out = drive_opt(&mut engine, &dev, 1_000..=88_000, Some(5.0), &blind);
    out.extend(drive_opt(
        &mut engine,
        &dev,
        89_000..=90_000,
        Some(5.0),
        &hot,
    ));
    out.extend(drive_opt(
        &mut engine,
        &dev,
        91_000..=91_000,
        Some(5.0),
        &blind,
    ));
    assert!(
        out.iter().all(|e| e.kind != EventKind::CpuSpillover),
        "two CPU samples is below SPILLOVER_MIN_CPU_SAMPLES — must stay silent"
    );
}

#[test]
fn spillover_silent_for_small_attachment() {
    let mut engine = EventEngine::new();
    let dev = DeviceId("test".into());

    drive_opt(&mut engine, &dev, 0..=0, Some(3.0), &[]);
    let small = vec![proc_with(7777, "ollama", 1 << 30, Some(0.0), Some(310.0))];
    let out = drive_opt(&mut engine, &dev, 1_000..=91_000, Some(5.0), &small);
    assert!(
        out.iter().all(|e| e.kind != EventKind::CpuSpillover),
        "a 1 GiB holder is below the spillover threshold — no assessment opens"
    );
}

#[test]
fn hang_and_spillover_titles_are_hedged_inferences() {
    let mut engine = EventEngine::new();
    let dev = DeviceId("hang".into());
    engine.register_device(dev.clone(), "GPU0".into());
    let procs = vec![proc_with(4521, "python", 6 << 30, None, None)];
    let mut all = drive_opt(&mut engine, &dev, 0..=600_000, Some(1.0), &procs);

    let dev2 = DeviceId("spill".into());
    engine.register_device(dev2.clone(), "GPU1".into());
    drive_opt(&mut engine, &dev2, 0..=0, Some(3.0), &[]);
    let ollama = vec![proc_with(7777, "ollama", 12 << 30, Some(0.0), Some(310.0))];
    all.extend(drive_opt(
        &mut engine,
        &dev2,
        1_000..=91_000,
        Some(5.0),
        &ollama,
    ));

    for e in all
        .iter()
        .filter(|e| matches!(e.kind, EventKind::HangSuspected | EventKind::CpuSpillover))
    {
        assert_eq!(
            e.confidence,
            Confidence::Likely,
            "{:?} must be an inference, not a fact",
            e.kind
        );
        assert!(
            e.title.to_lowercase().contains("likely"),
            "{:?} title must hedge with \"likely\": {}",
            e.kind,
            e.title
        );
    }
    assert!(
        all.iter().any(|e| e.kind == EventKind::HangSuspected),
        "the hang fixture must actually fire a hang"
    );
    assert!(
        all.iter().any(|e| e.kind == EventKind::CpuSpillover),
        "the spillover fixture must actually fire a spillover"
    );
}

fn throttled(ts_ms: u64, sm_clock_mhz: Option<u32>, throttle: Option<ThrottleReasons>) -> DynamicSample {
    DynamicSample {
        ts_ms,
        util_pct: Some(90_000),
        util_engine: None,
        mem_used_bytes: None,
        power_mw: Some(250_000),
        temp_c: Some(84_000),
        fan_pct: None,
        sm_clock_mhz,
        mem_clock_mhz: None,
        encoder_pct: None,
        decoder_pct: None,
        throttle,
    }
}

const THERMAL: ThrottleReasons = ThrottleReasons {
    thermal: true,
    power_cap: false,
    hw_slowdown: false,
    sync_boost: false,
    other: false,
};

#[test]
fn an_unobservable_tick_tells_nothing() {
    let mut engine = EventEngine::new();
    let dev = DeviceId("test".into());
    let quiet = Some(ThrottleReasons::default());
    assert!(engine.observe(&dev, &throttled(1_000, Some(2400), quiet), &[], None, None).is_empty());
    assert!(engine.observe(&dev, &throttled(2_000, Some(1800), None), &[], None, None).is_empty());
    let on = engine.observe(&dev, &throttled(3_000, Some(1800), Some(THERMAL)), &[], None, Some(84_000));
    assert_eq!(on.len(), 1);
    assert_eq!(on[0].kind, EventKind::ThrottleStart);
    assert_eq!(on[0].confidence, Confidence::Fact);
    // A blind tick drops the episode, so that no end can be told of it.
    assert!(engine.observe(&dev, &throttled(4_000, Some(1800), None), &[], None, None).is_empty());
    assert!(engine.observe(&dev, &throttled(5_000, Some(2400), quiet), &[], None, None).is_empty());
}

#[test]
fn events_name_the_device_as_registered() {
    let run = |register: bool| -> String {
        let mut engine = EventEngine::new();
        let dev = DeviceId("0000:01:00.0".into());
        if register {
            engine.register_device(dev.clone(), "GPU7".into());
        }
        engine.observe(&dev, &throttled(1_000, Some(2400), Some(ThrottleReasons::default())), &[], None, None);
        let mut on = engine.observe(&dev, &throttled(2_000, Some(1800), Some(THERMAL)), &[], None, None);
        assert_eq!(on.len(), 1);
        assert_eq!(on[0].device.0, "0000:01:00.0");
        on.remove(0).title
    };
    assert!(run(true).contains("GPU7"));
    assert!(run(false).contains("0000:01:00.0"));
}

#[test]
fn a_process_is_told_when_it_comes_and_when_it_goes() {
    let mut engine = EventEngine::new();
    let dev = DeviceId("test".into());
    let p = vec![proc_with(7, "blender", 2 << 30, None, None)];
    assert!(drive_opt(&mut engine, &dev, 0..=0, Some(50.0), &[]).is_empty());
    let came = drive_opt(&mut engine, &dev, 1_000..=1_000, Some(50.0), &p);
    assert_eq!(came.len(), 1);
    assert_eq!(came[0].kind, EventKind::ProcessAttached);
    assert!(came[0].title.contains("blender"), "{}", came[0].title);
    // Nothing is told while it stays, and another device is none of its business.
    assert!(drive_opt(&mut engine, &dev, 2_000..=5_000, Some(50.0), &p).is_empty());
    let other = DeviceId("other".into());
    assert!(drive_opt(&mut engine, &other, 5_000..=5_000, Some(50.0), &p).is_empty());
    let went = drive_opt(&mut engine, &dev, 6_000..=6_000, Some(50.0), &[]);
    assert_eq!(went.len(), 1);
    assert_eq!(went[0].kind, EventKind::ProcessExited);
}

#[test]
fn pressure_is_told_again_only_after_a_while() {
    let total: u64 = 16 << 30;
    let mut engine = EventEngine::new();
    let dev = DeviceId("test".into());
    let mut times = Vec::new();
    let mut used = (total / 100) * 86;
    for i in 0..60u64 {
        let mut s = opt_sample(i * 5_000, Some(90.0));
        s.mem_used_bytes = Some(used);
        for e in engine.observe(&dev, &s, &[], Some(total), None) {
            assert_eq!(e.kind, EventKind::VramPressure);
            times.push(e.ts_ms);
        }
        used += 20 << 20;
    }
    assert!(times.len() > 1);
    assert!(times[0] >= 60_000);
    for w in times.windows(2) {
        assert!(w[1] - w[0] >= 90_000, "{times:?}");
    }
}

#[test]
fn durations_read_in_minutes_and_seconds() {
    assert_eq!(fmt_dur_ms(0), "0s");
    assert_eq!(fmt_dur_ms(499), "0s");
    assert_eq!(fmt_dur_ms(500), "1s");
    assert_eq!(fmt_dur_ms(59_499), "59s");
    assert_eq!(fmt_dur_ms(59_500), "1m 0s");
    assert_eq!(fmt_dur_ms(187_000), "3m 7s");
}

#[test]
fn throttling_is_told_at_its_edges() {
    let mut engine = EventEngine::new();
    let dev = DeviceId("test".into());
    let quiet = Some(ThrottleReasons::default());
    let hot = Some(THERMAL);
    let story = [quiet, hot, hot, hot, quiet, quiet, hot, quiet];
    let mut told = Vec::new();
    for (i, t) in story.iter().enumerate() {
        let ts = i as u64 * 10_000;
        let clock = if i == 0 { 2400 } else { 1800 + i as u32 };
        for e in engine.observe(&dev, &throttled(ts, Some(clock), *t), &[], None, None) {
            told.push((e.ts_ms, e.kind, e.title, e.evidence));
        }
    }
    let kinds: Vec<(u64, EventKind)> = told.iter().map(|e| (e.0, e.1)).collect();
    assert_eq!(
        kinds,
        vec![
            (10_000, EventKind::ThrottleStart),
            (40_000, EventKind::ThrottleEnd),
            (60_000, EventKind::ThrottleStart),
            (70_000, EventKind::ThrottleEnd),
        ]
    );
    // The end looks back to the start: its time, and the clock of the sample before it.
    assert_eq!(told[1].2, "test stopped throttling after 30s");
    assert_eq!(told[1].3, "throttle bits cleared; clocks now 1804 MHz (2400 MHz pre-throttle)");
    assert_eq!(told[3].2, "test stopped throttling after 10s");
    assert_eq!(told[3].3, "throttle bits cleared; clocks recovered to 1807 MHz");
}

#[test]
fn a_gap_that_was_out_of_sight_is_not_told() {
    let p = vec![proc_with(9, "train", 4 << 30, None, None)];
    let run = |blind: bool| -> Vec<Event> {
        let mut engine = EventEngine::new();
        let dev = DeviceId("test".into());
        let mut out = drive_opt(&mut engine, &dev, 0..=40_000, Some(90.0), &p);
        out.extend(drive_opt(&mut engine, &dev, 41_000..=49_000, Some(3.0), &p));
        let seen = if blind { None } else { Some(3.0) };
        out.extend(drive_opt(&mut engine, &dev, 50_000..=50_000, seen, &p));
        out.extend(drive_opt(&mut engine, &dev, 51_000..=59_000, Some(3.0), &p));
        out.extend(drive_opt(&mut engine, &dev, 60_000..=60_000, Some(90.0), &p));
        out
    };
    let told = run(false);
    assert_eq!(told.len(), 1);
    assert_eq!(told[0].kind, EventKind::IdleGap);
    assert!(told[0].evidence.starts_with("util 90% → mean 3.0% over 19s (41000..60000 ms)"), "{}", told[0].evidence);
    assert!(run(true).is_empty());
}

#[test]
fn a_spillover_is_told_at_the_first_sample_past_the_window() {
    let p = vec![proc_with(5, "llama", 6 << 30, None, Some(400.0))];
    let mut engine = EventEngine::new();
    let dev = DeviceId("test".into());
    assert!(drive_opt(&mut engine, &dev, 0..=0, Some(4.0), &[]).is_empty());
    let told: Vec<Event> = drive_opt(&mut engine, &dev, 1_000..=200_000, Some(4.0), &p)
        .into_iter()
        .filter(|e| e.kind == EventKind::CpuSpillover)
        .collect();
    assert_eq!(told.len(), 1);
    assert_eq!(told[0].ts_ms, 91_000);
    assert!(
        told[0].evidence.starts_with("over 1m 30s (1000..91000 ms): test util mean 4.0%"),
        "{}",
        told[0].evidence
    );
    assert!(told[0].evidence.ends_with("CPU mean 400% of one core (91 samples)"), "{}", told[0].evidence);
}

#[test]
fn pressure_is_told_of_the_trend_since_the_window_began() {
    let gib: u64 = 1 << 30;
    let mut engine = EventEngine::new();
    let dev = DeviceId("test".into());
    let mut told = Vec::new();
    for (ts, used) in [(0, 9 * gib), (30_000, 9 * gib + gib / 4), (59_000, 9 * gib + gib / 2), (60_000, 9 * gib + gib / 2)] {
        let mut s = opt_sample(ts, Some(90.0));
        s.mem_used_bytes = Some(used);
        told.extend(engine.observe(&dev, &s, &[], Some(10 * gib), None));
    }
    assert_eq!(told.len(), 1);
    assert_eq!(told[0].ts_ms, 60_000);
    assert!(told[0].title.starts_with("test VRAM 95% and climbing"), "{}", told[0].title);
    assert!(told[0].title.contains("likely full in ~1 min"), "{}", told[0].title);
}

#[test]
fn a_working_holder_is_not_hung() {
    let quiet = vec![
        proc_with(1, "a", 6 << 30, None, None),
        proc_with(2, "b", 2 << 30, None, None),
    ];
    let busy = vec![
        proc_with(1, "a", 6 << 30, Some(50.0), None),
        proc_with(2, "b", 2 << 30, None, None),
    ];
    let mut engine = EventEngine::new();
    let dev = DeviceId("test".into());
    assert!(drive_opt(&mut engine, &dev, 0..=599_000, Some(1.0), &quiet).is_empty());
    // The anchored process works at the very frame at which the ten minutes are over: nothing is
    // told of it, although another one holds its memory quietly.
    assert!(drive_opt(&mut engine, &dev, 600_000..=600_000, Some(1.0), &busy).is_empty());
    // The minutes begin anew, of the process that is quiet now.
    let told = drive_opt(&mut engine, &dev, 601_000..=1_201_000, Some(1.0), &busy);
    assert_eq!(told.len(), 1);
    assert_eq!(told[0].kind, EventKind::HangSuspected);
    assert_eq!(told[0].ts_ms, 1_201_000);
    assert!(told[0].title.contains("b (pid 2)"), "{}", told[0].title);
    assert!(told[0].title.contains("likely hung"), "{}", told[0].title);
    assert!(told[0].title.contains("2.0 GiB"), "{}", told[0].title);
}

#[test]
fn a_holder_that_gives_its_memory_back_is_not_hung() {
    let mut engine = EventEngine::new();
    let dev = DeviceId("test".into());
    let held = vec![proc_with(1, "a", 6 << 30, None, None), proc_with(2, "b", 2 << 30, None, None)];
    let freed = vec![proc_with(1, "a", 1 << 20, None, None), proc_with(2, "b", 2 << 30, None, None)];
    assert!(drive_opt(&mut engine, &dev, 0..=300_000, Some(1.0), &held).is_empty());
    assert!(drive_opt(&mut engine, &dev, 301_000..=301_000, Some(1.0), &freed).is_empty());
    assert!(drive_opt(&mut engine, &dev, 302_000..=901_000, Some(1.0), &held).is_empty());
    assert_eq!(drive_opt(&mut engine, &dev, 902_000..=902_000, Some(1.0), &held).len(), 1);
}

#[test]
fn a_process_is_assessed_anew_when_it_comes_again() {
    let p = vec![proc_with(5, "llama", 6 << 30, None, Some(400.0))];
    let mut engine = EventEngine::new();
    let dev = DeviceId("test".into());
    let mut told = drive_opt(&mut engine, &dev, 0..=0, Some(4.0), &[]);
    told.extend(drive_opt(&mut engine, &dev, 1_000..=300_000, Some(4.0), &p));
    told.extend(drive_opt(&mut engine, &dev, 301_000..=301_000, Some(4.0), &[]));
    told.extend(drive_opt(&mut engine, &dev, 302_000..=500_000, Some(4.0), &p));
    let times: Vec<u64> =
        told.iter().filter(|e| e.kind == EventKind::CpuSpillover).map(|e| e.ts_ms).collect();
    assert_eq!(times, vec![91_000, 392_000]);
}

#[test]
fn a_second_gap_takes_new_work() {
    let p = vec![proc_with(9, "train", 4 << 30, None, None)];
    let run = |work_ms: u64| -> Vec<u64> {
        let mut engine = EventEngine::new();
        let dev = DeviceId("test".into());
        let mut out = drive_opt(&mut engine, &dev, 0..=40_000, Some(90.0), &p);
        out.extend(drive_opt(&mut engine, &dev, 41_000..=59_000, Some(3.0), &p));
        out.extend(drive_opt(&mut engine, &dev, 60_000..=60_000 + work_ms, Some(90.0), &p));
        let t = 61_000 + work_ms;
        out.extend(drive_opt(&mut engine, &dev, t..=t + 19_000, Some(3.0), &p));
        out.extend(drive_opt(&mut engine, &dev, t + 20_000..=t + 20_000, Some(90.0), &p));
        out.iter().filter(|e| e.kind == EventKind::IdleGap).map(|e| e.ts_ms).collect()
    };
    assert_eq!(run(29_000), vec![60_000]);
    assert_eq!(run(30_000), vec![60_000, 111_000]);
}

#[test]
fn a_trend_starts_after_a_sharp_drop() {
    let gib: u64 = 1 << 30;
    let run = |readings: &[(u64, u64)]| -> Vec<Event> {
        let mut engine = EventEngine::new();
        let dev = DeviceId("test".into());
        let mut told = Vec::new();
        for (ts, used) in readings {
            let mut s = opt_sample(*ts, Some(90.0));
            s.mem_used_bytes = Some(*used);
            told.extend(engine.observe(&dev, &s, &[], Some(20 * gib), None));
        }
        told
    };
    // A drop of a twentieth is none; one of more restarts the trend, which is then too short.
    let kept = run(&[(0, 18 * gib), (1_000, 17 * gib), (60_000, 19 * gib)]);
    assert_eq!(kept.len(), 1);
    assert!(kept[0].evidence.contains("over last 1.0 min"), "{}", kept[0].evidence);
    assert!(run(&[(0, 18 * gib), (1_000, 17 * gib - 1), (60_000, 19 * gib)]).is_empty());
    // Of an old climb only the last three minutes count.
    let old = run(&[(0, gib), (100_000, 16 * gib), (200_000, 18 * gib)]);
    assert_eq!(old.len(), 1);
    assert!(old[0].evidence.contains("over last 1.7 min"), "{}", old[0].evidence);
}

#[test]
fn every_event_has_its_evidence() {
    let mut b = MockBackend::new();
    let devs = b.devices();
    let mut engine = EventEngine::new();
    for i in 0..400u64 {
        for d in &devs {
            let info = b.static_info(d).unwrap();
            let s = b.refresh_dynamic(d, i * 1_000).unwrap();
            let p = b.refresh_processes(d).unwrap();
            for e in engine.observe(d, &s, &p, info.mem_total_bytes, info.temp_slowdown_c) {
                assert!(!e.evidence.is_empty());
                assert_eq!((&e.device, e.ts_ms), (d, i * 1_000));
                let seen = matches!(
                    e.kind,
                    EventKind::ThrottleStart
                        | EventKind::ThrottleEnd
                        | EventKind::ProcessAttached
                        | EventKind::ProcessExited
                );
                assert_eq!(seen, e.confidence == Confidence::Fact);
                assert_eq!(!seen, e.title.contains("likely"));
            }
        }
    }
}

#[test]
fn a_mean_below_zero_keeps_its_sign() {
    let mut engine = EventEngine::new();
    let dev = DeviceId("test".into());
    engine.register_device(dev.clone(), "GPU0".into());
    let procs = vec![proc_with(4521, "python", 6 << 30, None, None)];
    let all = drive_opt(&mut engine, &dev, 0..=600_000, Some(-5.25), &procs);
    let hang = all.iter().find(|e| e.kind == EventKind::HangSuspected).unwrap();
    assert!(hang.evidence.contains("device util mean -5.2%"), "{}", hang.evidence);

    let mut engine = EventEngine::new();
    engine.register_device(dev.clone(), "GPU0".into());
    let all = drive_opt(&mut engine, &dev, 0..=600_000, Some(-0.04), &procs);
    let hang = all.iter().find(|e| e.kind == EventKind::HangSuspected).unwrap();
    assert!(hang.evidence.contains("device util mean -0.0%"), "{}", hang.evidence);
}
