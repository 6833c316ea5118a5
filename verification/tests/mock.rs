use gpuviewer::backend::BackendError;
use gpuviewer::mock::{DesktopSim, MockBackend, Rng};
use gpuviewer::model::{DeviceId, Vendor};

#[test]
fn tick_at_is_deterministic_across_instances() {
    let mut a = MockBackend::new();
    let mut b = MockBackend::new();
    for i in 0..500u64 {
        let ts = 1_700_000_000_000 + i * 1_000;
        let fa = a.tick_at(ts);
        let fb = b.tick_at(ts);
        assert_eq!(fa, fb, "frames diverged at tick {i}");
        assert_eq!(fa.len(), 2, "tick_at must cover BOTH mock devices");
        for f in &fa {
            assert_eq!(f.sample.ts_ms, ts, "samples carry the synthetic timestamp");
            assert!(!f.processes.is_empty(), "mock devices always have processes");
        }
    }
}

#[test]
fn tick_at_drives_the_same_simulation_as_refresh_dynamic() {
    let mut seeded = MockBackend::new();
    let mut live = MockBackend::new();
    let train = live.devices()[0].clone();
    let mut seeded_throttled = false;
    for i in 0..500u64 {
        let frame = seeded.tick_at(i * 1_000);
        let s = &frame[0].sample;
        let mut l = live.refresh_dynamic(&train, 42 + i).unwrap();
        l.ts_ms = s.ts_ms;
        assert_eq!(*s, l, "sim state diverged at tick {i}");
        let _ = live.refresh_processes(&train).unwrap();
        seeded_throttled |= s.throttle.is_some_and(|t| t.any());
    }
    assert!(
        seeded_throttled,
        "500 ticks of the training sim must include a throttle episode"
    );
}

#[test]
fn the_generator_is_the_shift_register_it_is() {
    let mut x: u64 = 0x9E37_79B9_7F4A_7C15;
    let mut r = Rng(x);
    for _ in 0..1000 {
        x ^= x << 13;
        x ^= x >> 7;
        x ^= x << 17;
        assert_eq!(r.next(), x);
    }
    for _ in 0..1000 {
        let v = r.range(91_000, 99_500);
        assert!((91_000..99_500).contains(&v));
    }
}

#[test]
fn simulated_readings_are_plausible() {
    let mut b = MockBackend::default();
    let mut attached = 0;
    for i in 0..2_000u64 {
        let f = b.tick_at(i);
        let t = &f[0].sample;
        let temp = t.temp_c.unwrap();
        assert!((40_000..=93_000).contains(&temp), "{temp}");
        assert!((28_000..=100_000).contains(&t.fan_pct.unwrap()));
        assert!(t.mem_used_bytes.unwrap() <= 24 << 30);
        assert!(t.util_pct.unwrap() < 99_500);
        if f[1].processes.len() == 2 {
            attached += 1;
            assert_eq!(f[1].processes[1].name, "ollama");
            assert_eq!(f[1].processes[1].container.as_deref(), Some("docker:3f2a9c1b4d5e"));
            assert_eq!(f[1].sample.power_mw, Some(248_000));
        }
    }
    assert!(attached > 500 && attached < 1_500, "{attached}");
}

#[test]
fn the_model_server_comes_at_its_step() {
    let mut d = DesktopSim {
        rng: Rng(1),
        tick: 0,
        ollama_present: false,
        ollama_toggle_at: 2,
        util_level: 12_000,
    };
    d.step(1);
    assert!(!d.ollama_present);
    d.step(2);
    assert!(d.ollama_present);
    assert!(d.ollama_toggle_at >= 72 && d.ollama_toggle_at < 102);
}

#[test]
fn simulated_devices_are_known_by_their_identities() {
    let mut b = MockBackend::new();
    let devs = b.devices();
    assert_eq!(b.name(), "mock");
    assert_eq!(b.static_info(&devs[0]).unwrap().vendor, Vendor::Nvidia);
    assert_eq!(b.static_info(&devs[1]).unwrap().temp_slowdown_c, Some(110_000));
    let other = DeviceId("mock:1".into());
    assert!(matches!(b.static_info(&other), Err(BackendError::DeviceNotFound(_))));
    assert!(matches!(b.refresh_dynamic(&other, 1), Err(BackendError::DeviceNotFound(_))));
    match b.refresh_processes(&other) {
        Err(e) => assert_eq!(e.text(), "device not found: mock:1"),
        Ok(_) => panic!("no such device"),
    }
}
