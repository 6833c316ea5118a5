use gpuviewer::backend::BackendError;
use gpuviewer::drm::CardFiles;
use gpuviewer::fdinfo::PidFiles;
use gpuviewer::files::{FileText, Files};
use gpuviewer::intel::backend::{IntelBackend, IntelFiles};
use gpuviewer::model::{DeviceId, ProcessKind, Vendor};

fn text(s: &str) -> Option<String> {
    Some(s.to_string())
}

/// What the files of a machine with one device hold.
struct Machine {
    cards: Vec<CardFiles>,
    status: Option<String>,
    files: IntelFiles,
    pids: Vec<PidFiles>,
}

impl Machine {
    fn backend(&self) -> Result<IntelBackend, BackendError> {
        IntelBackend::with_root(&self.cards, &self.status)
    }

    fn write(&mut self, path: &str, s: &str) {
        write(&mut self.files.card, path, s);
    }

    fn remove(&mut self, path: &str) {
        remove(&mut self.files.card, path);
    }

    /// Writes a throttle file of the i915 driver.
    fn i915_throttle(&mut self, name: &str, s: &str) {
        self.write(&format!("gt/gt0/throttle_reason_{name}"), s);
    }

    /// Writes a throttle file of the xe driver.
    fn xe_throttle(&mut self, name: &str, s: &str) {
        self.write(&format!("device/tile0/gt0/freq0/throttle/{name}"), s);
    }
}

fn remove(files: &mut Files, path: &str) {
    files.list.retain(|f| f.path != path);
}

fn write(files: &mut Files, path: &str, s: &str) {
    remove(files, path);
    files.list.push(FileText { path: path.into(), text: s.into() });
}

fn files(list: &[(&str, &str)]) -> Files {
    Files {
        list: list
            .iter()
            .map(|(path, text)| FileText { path: path.to_string(), text: text.to_string() })
            .collect(),
    }
}

fn card(name: &str, uevent: &str, hwmon: &[&str]) -> CardFiles {
    CardFiles {
        name: name.into(),
        vendor: text("0x8086\n"),
        uevent: text(uevent),
        hwmon: hwmon.iter().map(|s| s.to_string()).collect(),
    }
}

fn process(pid: u32, comm: &str, fdinfo: &[&str]) -> PidFiles {
    PidFiles {
        pid,
        comm: text(comm),
        fdinfo: fdinfo.iter().map(|s| s.to_string()).collect(),
    }
}

fn i915() -> Machine {
    Machine {
        cards: vec![
            card("renderD128", "DRIVER=i915\nPCI_SLOT_NAME=0000:03:00.0\n", &[]),
            card("card1", "DRIVER=i915\nPCI_SLOT_NAME=0000:03:00.0\n", &["hwmon5"]),
        ],
        status: None,
        files: IntelFiles {
            card: files(&[
                ("device/device", "0x56a0\n"),
                ("lmem_total_bytes", "17179869184\n"),
                ("gt_act_freq_mhz", "1850\n"),
                ("gt_cur_freq_mhz", "2100\n"),
                ("gt_max_freq_mhz", "2000\n"),
                ("gt_RP0_freq_mhz", "2400\n"),
                ("gt/gt0/throttle_reason_status", "0\n"),
                ("gt/gt0/throttle_reason_pl1", "0\n"),
                ("gt/gt0/throttle_reason_pl2", "0\n"),
                ("gt/gt0/throttle_reason_pl4", "0\n"),
                ("gt/gt0/throttle_reason_thermal", "0\n"),
                ("gt/gt0/throttle_reason_prochot", "0\n"),
                ("gt/gt0/throttle_reason_ratl", "0\n"),
                ("gt/gt0/throttle_reason_vr_thermalert", "0\n"),
                ("gt/gt0/throttle_reason_vr_tdc", "0\n"),
            ]),
            sensors: files(&[("power1_max", "190000000\n"), ("energy1_input", "123456789\n")]),
        },
        pids: vec![
            process(3100, "ffplay\n", &[
                "drm-driver:\ti915\ndrm-pdev:\t0000:03:00.0\ndrm-engine-render:\t4500000000 ns\ndrm-engine-video:\t9000000000 ns\ndrm-total-local0:\t786432 KiB\n",
                "drm-driver:\ti915\ndrm-pdev:\t0000:03:00.0\ndrm-engine-render:\t1000 ns\ndrm-total-local0:\t4096 KiB\n",
            ]),
            process(5200, "blender\n", &[
                "drm-driver:\ti915\ndrm-pdev:\t0000:03:00.0\ndrm-engine-render:\t77000000000 ns\ndrm-total-local0:\t2097152 KiB\n",
            ]),
            process(6300, "python3\n", &[
                "drm-driver:\ti915\ndrm-pdev:\t0000:03:00.0\ndrm-engine-render:\t0 ns\ndrm-engine-compute:\t55000000000 ns\ndrm-total-local0:\t6291456 KiB\n",
            ]),
            process(7400, "Xorg\n", &[
                "drm-driver:\ti915\ndrm-pdev:\t0000:00:02.0\ndrm-engine-render:\t42 ns\n",
            ]),
        ],
    }
}

fn xe() -> Machine {
    let gt = "device/tile0/gt0/freq0";
    let mut card_files = files(&[
        ("device/device", "0xe20b\n"),
        ("device/tile0/gt0/freq0/act_freq", "2400\n"),
        ("device/tile0/gt0/freq0/cur_freq", "2700\n"),
        ("device/tile0/gt0/freq0/max_freq", "2600\n"),
        ("device/tile0/gt0/freq0/rp0_freq", "2850\n"),
        ("device/tile0/gt0/freq0/throttle/status", "0\n"),
    ]);
    for name in XE_REASONS {
        write(&mut card_files, &format!("{gt}/throttle/{name}"), "0\n");
    }
    Machine {
        cards: vec![card("card0", "DRIVER=xe\nPCI_SLOT_NAME=0000:03:00.0\n", &["hwmon6"])],
        status: None,
        files: IntelFiles {
            card: card_files,
            sensors: files(&[("power1_max", "190000000\n"), ("energy1_input", "5000000\n")]),
        },
        pids: vec![
            process(2600, "gnome-shell\n", &[
                "drm-driver:\txe\ndrm-pdev:\t0000:03:00.0\ndrm-cycles-rcs:\t250000\ndrm-total-cycles-rcs:\t50000000\ndrm-cycles-vcs:\t0\ndrm-cycles-ccs:\t0\ndrm-total-vram0:\t524288 KiB\n",
            ]),
            process(4400, "python3\n", &[
                "drm-driver:\txe\ndrm-pdev:\t0000:03:00.0\ndrm-cycles-rcs:\t1000000\ndrm-total-cycles-rcs:\t50000000\ndrm-cycles-ccs:\t7000000\ndrm-total-vram0:\t2097152 KiB\ndrm-resident-vram0:\t1048576 KiB\n",
            ]),
        ],
    }
}

const XE_REASONS: [&str; 8] = [
    "reason_pl1",
    "reason_pl2",
    "reason_pl4",
    "reason_thermal",
    "reason_prochot",
    "reason_ratl",
    "reason_vr_thermalert",
    "reason_vr_tdc",
];

/// An i915 device whose driver has a package temperature, among other sensors.
fn i915_with_temps() -> Machine {
    let mut m = i915();
    write(&mut m.files.sensors, "temp1_input", "61000\n");
    write(&mut m.files.sensors, "temp2_input", "53000\n");
    write(&mut m.files.sensors, "fan1_input", "1200\n");
    m.write("gt/gt0/rps_act_freq_mhz", "1500\n");
    m
}

/// An xe device whose driver has a package temperature, among other sensors.
fn xe_with_temps() -> Machine {
    let mut m = xe();
    write(&mut m.files.sensors, "temp1_input", "47000\n");
    write(&mut m.files.sensors, "temp2_input", "58000\n");
    write(&mut m.files.sensors, "temp3_input", "64000\n");
    write(&mut m.files.sensors, "fan1_input", "1400\n");
    write(&mut m.files.sensors, "power2_max", "220000000\n");
    m.write("device/tile0/gt0/freq0/rpa_freq", "2200\n");
    m
}

fn igpu_minimal() -> Machine {
    Machine {
        cards: vec![card("card0", "DRIVER=i915\nPCI_SLOT_NAME=0000:00:02.0\n", &[])],
        status: None,
        files: IntelFiles { card: files(&[("device/device", "0x46a6\n")]), sensors: files(&[]) },
        pids: Vec::new(),
    }
}

#[test]
fn i915_enumeration_and_static_info() {
    let m = i915();
    let b = m.backend().unwrap();
    let devs = b.devices();
    assert_eq!(devs, vec![DeviceId("0000:03:00.0".into())]);

    let info = b.static_info(&devs[0], &m.files).unwrap();
    assert_eq!(info.vendor, Vendor::Intel);
    assert_eq!(info.backend, "intel");
    assert_eq!(info.name, "Intel Arc A770");
    assert_eq!(info.mem_total_bytes, Some(17_179_869_184));
    assert_eq!(info.power_limit_mw, Some(190_000));
    assert_eq!(info.max_sm_clock_mhz, Some(2400));
    assert_eq!(info.driver_version, None);
    assert_eq!(
        info.process_hint.as_deref(),
        Some("showing your processes only — others need root or CAP_SYS_PTRACE (fdinfo)")
    );
}

#[test]
fn i915_dynamic_sample_prefers_actual_freq_and_stays_honest() {
    let m = i915();
    let mut b = m.backend().unwrap();
    let dev = b.devices().remove(0);

    let s = b.refresh_dynamic(&dev, 1_000, &m.files).unwrap();
    assert_eq!(s.sm_clock_mhz, Some(1850));
    assert_eq!(s.util_pct, None);
    assert_eq!(s.mem_used_bytes, None);
    assert_eq!(s.temp_c, None);
    assert_eq!(s.fan_pct, None);
    assert_eq!(s.power_mw, None);
    assert_eq!(s.mem_clock_mhz, None);
    assert_eq!(s.encoder_pct, None);
    assert_eq!(s.decoder_pct, None);
    let t = s
        .throttle
        .expect("status file present → throttle observable");
    assert!(!t.any(), "quiescent GT (status=0) must report no throttle");
}

#[test]
fn i915_act_freq_absence_falls_back_to_cur_freq() {
    let mut m = i915();
    m.remove("gt_act_freq_mhz");

    let mut b = m.backend().unwrap();
    let dev = b.devices().remove(0);
    let s = b.refresh_dynamic(&dev, 1_000, &m.files).unwrap();
    assert_eq!(s.sm_clock_mhz, Some(2100));
}

#[test]
fn i915_act_freq_zero_means_gt_asleep_not_zero_mhz() {
    let mut m = i915();
    m.write("gt_act_freq_mhz", "0\n");

    let mut b = m.backend().unwrap();
    let dev = b.devices().remove(0);
    assert_eq!(b.refresh_dynamic(&dev, 1_000, &m.files).unwrap().sm_clock_mhz, None);
}

#[test]
fn i915_power_appears_on_second_energy_sighting() {
    let mut m = i915();
    let mut b = m.backend().unwrap();
    let dev = b.devices().remove(0);
    assert_eq!(b.refresh_dynamic(&dev, 1_000, &m.files).unwrap().power_mw, None);

    write(&mut m.files.sensors, "energy1_input", &format!("{}\n", 123_456_789u64 + 6_000_000));
    let power = b.refresh_dynamic(&dev, 1_060, &m.files).unwrap().power_mw;
    assert!(
        power.is_some_and(|mw| mw > 0),
        "second energy sighting must derive a positive power, got {power:?}"
    );
    // 6 J over 60 ms.
    assert_eq!(power, Some(100_000));
}

#[test]
fn i915_fdinfo_processes() {
    let m = i915();
    let mut b = m.backend().unwrap();
    let dev = b.devices().remove(0);

    let procs = b.refresh_processes(&dev, 1_000, &m.pids).unwrap();
    assert_eq!(
        procs.len(),
        3,
        "the pid on the other GPU's pdev must be filtered out"
    );

    let ffplay = &procs[0];
    assert_eq!((ffplay.pid, ffplay.name.as_str()), (3100, "ffplay"));
    assert_eq!(ffplay.kind, ProcessKind::Graphics);
    assert_eq!(ffplay.mem_bytes, Some(805_306_368));

    let blender = &procs[1];
    assert_eq!((blender.pid, blender.name.as_str()), (5200, "blender"));
    assert_eq!(blender.kind, ProcessKind::Unknown);
    assert_eq!(blender.mem_bytes, Some(2_147_483_648));

    let py = &procs[2];
    assert_eq!((py.pid, py.name.as_str()), (6300, "python3"));
    assert_eq!(py.kind, ProcessKind::Compute);
    assert_eq!(py.mem_bytes, Some(6_442_450_944));

    assert!(procs.iter().all(|p| p.util_pct.is_none()));
}

#[test]
fn i915_util_is_render_ns_delta_over_wall_time() {
    let mut m = i915();
    let mut b = m.backend().unwrap();
    let dev = b.devices().remove(0);
    let first = b.refresh_processes(&dev, 1_000, &m.pids).unwrap();
    assert!(first.iter().all(|p| p.util_pct.is_none()));

    let bumped = m.pids[0].fdinfo[0]
        .replace("drm-engine-render:\t4500000000 ns", "drm-engine-render:\t901500000000 ns");
    m.pids[0].fdinfo[0] = bumped;

    let second = b.refresh_processes(&dev, 1_060, &m.pids).unwrap();
    let ffplay = second.iter().find(|p| p.pid == 3100).unwrap();
    assert_eq!(ffplay.util_pct, Some(100_000));
    let blender = second.iter().find(|p| p.pid == 5200).unwrap();
    assert_eq!(blender.util_pct, Some(0));
}

#[test]
fn xe_enumeration_and_static_info() {
    let m = xe();
    let b = m.backend().unwrap();
    let devs = b.devices();
    assert_eq!(devs, vec![DeviceId("0000:03:00.0".into())]);

    let info = b.static_info(&devs[0], &m.files).unwrap();
    assert_eq!(info.vendor, Vendor::Intel);
    assert_eq!(info.name, "Intel Arc B580");
    assert_eq!(info.mem_total_bytes, None);
    assert_eq!(info.power_limit_mw, Some(190_000));
    assert_eq!(info.max_sm_clock_mhz, Some(2850));
    assert_eq!(
        info.process_hint.as_deref(),
        Some("showing your processes only — others need root or CAP_SYS_PTRACE (fdinfo)")
    );
}

#[test]
fn xe_dynamic_sample_reads_tile_gt_freq() {
    let m = xe();
    let mut b = m.backend().unwrap();
    let dev = b.devices().remove(0);

    let s = b.refresh_dynamic(&dev, 1_000, &m.files).unwrap();
    assert_eq!(s.sm_clock_mhz, Some(2400));
    assert_eq!(s.util_pct, None);
    assert_eq!(s.mem_used_bytes, None);
    assert_eq!(s.temp_c, None);
    assert_eq!(s.fan_pct, None);
    assert_eq!(s.power_mw, None);
    assert!(!s.throttle.expect("status present → observable").any());
}

#[test]
fn xe_fdinfo_processes() {
    let m = xe();
    let mut b = m.backend().unwrap();
    let dev = b.devices().remove(0);

    let procs = b.refresh_processes(&dev, 1_000, &m.pids).unwrap();
    assert_eq!(procs.len(), 2);

    let shell = &procs[0];
    assert_eq!((shell.pid, shell.name.as_str()), (2600, "gnome-shell"));
    assert_eq!(shell.kind, ProcessKind::Unknown);
    assert_eq!(shell.mem_bytes, Some(536_870_912));

    let py = &procs[1];
    assert_eq!((py.pid, py.name.as_str()), (4400, "python3"));
    assert_eq!(py.kind, ProcessKind::Compute);
    assert_eq!(py.mem_bytes, Some(2_147_483_648));

    assert!(procs.iter().all(|p| p.util_pct.is_none()));
}

#[test]
fn xe_util_is_cycles_delta_over_total_cycles_not_wall_time() {
    let mut m = xe();
    let mut b = m.backend().unwrap();
    let dev = b.devices().remove(0);
    let first = b.refresh_processes(&dev, 1_000, &m.pids).unwrap();
    assert!(first.iter().all(|p| p.util_pct.is_none()));

    let bumped = m.pids[1].fdinfo[0]
        .replace("drm-cycles-rcs:\t1000000", "drm-cycles-rcs:\t1600000")
        .replace("drm-total-cycles-rcs:\t50000000", "drm-total-cycles-rcs:\t51200000");
    m.pids[1].fdinfo[0] = bumped;
    let bumped = m.pids[0].fdinfo[0]
        .replace("drm-total-cycles-rcs:\t50000000", "drm-total-cycles-rcs:\t51200000");
    m.pids[0].fdinfo[0] = bumped;

    let second = b.refresh_processes(&dev, 1_002, &m.pids).unwrap();
    let py = second.iter().find(|p| p.pid == 4400).unwrap();
    assert_eq!(py.util_pct, Some(50_000));
    let shell = second.iter().find(|p| p.pid == 2600).unwrap();
    assert_eq!(shell.util_pct, Some(0));
}

#[test]
fn i915_temp_is_temp1_never_the_temp2_decoy() {
    let m = i915_with_temps();
    let mut b = m.backend().unwrap();
    let dev = b.devices().remove(0);

    let s = b.refresh_dynamic(&dev, 1_000, &m.files).unwrap();
    assert_eq!(s.temp_c, Some(61_000));
    assert_eq!(s.fan_pct, None);
    assert_eq!(s.sm_clock_mhz, Some(1850));
}

#[test]
fn xe_temp_is_temp2_never_the_temp1_or_temp3_decoys() {
    let m = xe_with_temps();
    let mut b = m.backend().unwrap();
    let dev = b.devices().remove(0);

    let s = b.refresh_dynamic(&dev, 1_000, &m.files).unwrap();
    assert_eq!(s.temp_c, Some(58_000));
    assert_eq!(s.fan_pct, None);
    assert_eq!(s.sm_clock_mhz, Some(2400));
    let info = b.static_info(&dev, &m.files).unwrap();
    assert_eq!(info.power_limit_mw, Some(190_000));
}

#[test]
fn xe_missing_temp2_is_none_never_a_fallback_channel() {
    let mut m = xe_with_temps();
    remove(&mut m.files.sensors, "temp2_input");

    let mut b = m.backend().unwrap();
    let dev = b.devices().remove(0);
    assert_eq!(b.refresh_dynamic(&dev, 1_000, &m.files).unwrap().temp_c, None);
}

#[test]
fn i915_missing_temp1_is_none_never_a_fallback_channel() {
    let mut m = i915_with_temps();
    remove(&mut m.files.sensors, "temp1_input");

    let mut b = m.backend().unwrap();
    let dev = b.devices().remove(0);
    assert_eq!(b.refresh_dynamic(&dev, 1_000, &m.files).unwrap().temp_c, None);
}

#[test]
fn i915_throttle_thermal_then_thermal_plus_power_cap() {
    let mut m = i915();

    m.i915_throttle("status", "1\n");
    m.i915_throttle("thermal", "1\n");
    let mut b = m.backend().unwrap();
    let dev = b.devices().remove(0);
    let t = b.refresh_dynamic(&dev, 1_000, &m.files)
        .unwrap()
        .throttle
        .expect("status=1 → observable");
    assert!(t.thermal, "thermal=1 must map to throttle.thermal");
    assert!(!t.power_cap, "no pl* bit set → power_cap must stay false");
    assert!(!t.hw_slowdown && !t.other);

    m.i915_throttle("pl1", "1\n");
    let t = b.refresh_dynamic(&dev, 1_000, &m.files)
        .unwrap()
        .throttle
        .expect("status=1 → observable");
    assert!(t.thermal && t.power_cap, "thermal + pl1 → both");
}

#[test]
fn xe_throttle_pl1_is_power_cap() {
    let mut m = xe();

    m.xe_throttle("status", "1\n");
    m.xe_throttle("reason_pl1", "1\n");
    let mut b = m.backend().unwrap();
    let dev = b.devices().remove(0);
    let t = b.refresh_dynamic(&dev, 1_000, &m.files)
        .unwrap()
        .throttle
        .expect("status=1 → observable");
    assert!(t.power_cap, "reason_pl1=1 must map to throttle.power_cap");
    assert!(!t.thermal && !t.hw_slowdown && !t.other);
}

#[test]
fn xe_throttle_ratl_and_vr_map_to_other() {
    let mut m = xe();

    m.xe_throttle("status", "1\n");
    m.xe_throttle("reason_vr_tdc", "1\n");
    let mut b = m.backend().unwrap();
    let dev = b.devices().remove(0);
    let t = b.refresh_dynamic(&dev, 1_000, &m.files)
        .unwrap()
        .throttle
        .expect("status=1 → observable");
    assert!(t.other, "vr_tdc=1 must map to throttle.other");
    assert!(!t.thermal && !t.power_cap && !t.hw_slowdown);
}

#[test]
fn throttle_status_zero_ignores_stale_reason_files() {
    let mut m = i915();

    m.i915_throttle("thermal", "1\n");
    let mut b = m.backend().unwrap();
    let dev = b.devices().remove(0);
    let t = b.refresh_dynamic(&dev, 1_000, &m.files)
        .unwrap()
        .throttle
        .expect("status=0 is still an observation");
    assert!(
        !t.any(),
        "status=0 gates out a stale reason file: {:?}",
        t.labels()
    );
}

#[test]
fn throttle_status_one_with_no_reason_files_is_other_only() {
    let mut m = xe();

    m.xe_throttle("status", "1\n");
    for name in XE_REASONS {
        m.remove(&format!("device/tile0/gt0/freq0/throttle/{name}"));
    }
    let mut b = m.backend().unwrap();
    let dev = b.devices().remove(0);
    let t = b.refresh_dynamic(&dev, 1_000, &m.files)
        .unwrap()
        .throttle
        .expect("status=1 → observable");
    assert_eq!(
        (t.thermal, t.power_cap, t.hw_slowdown, t.other),
        (false, false, false, true),
        "status=1 with no recognized reason → other only"
    );
}

#[test]
fn throttle_garbage_status_does_not_panic_and_claims_nothing() {
    let mut m = i915();

    m.i915_throttle("status", "zz");
    m.i915_throttle("pl2", "1\n");
    let mut b = m.backend().unwrap();
    let dev = b.devices().remove(0);
    let t = b.refresh_dynamic(&dev, 1_000, &m.files).unwrap().throttle;
    assert_eq!(
        t, None,
        "garbage status is unobservable, not observed-quiet"
    );
}

#[test]
fn intel_fixtures_igpu_minimal_everything_optional_is_none() {
    let m = igpu_minimal();
    let mut b = m.backend().unwrap();
    let devs = b.devices();
    assert_eq!(devs, vec![DeviceId("0000:00:02.0".into())]);

    let info = b.static_info(&devs[0], &m.files).unwrap();
    assert_eq!(info.name, "Intel GPU [8086:46a6]");
    assert_eq!(info.mem_total_bytes, None);
    assert_eq!(info.power_limit_mw, None);
    assert_eq!(info.max_sm_clock_mhz, None);

    let s = b.refresh_dynamic(&devs[0], 1_000, &m.files).unwrap();
    assert_eq!(s.util_pct, None);
    assert_eq!(s.mem_used_bytes, None);
    assert_eq!(s.temp_c, None);
    assert_eq!(s.power_mw, None);
    assert_eq!(s.fan_pct, None);
    assert_eq!(s.sm_clock_mhz, None);
    assert_eq!(s.mem_clock_mhz, None);

    assert!(b.refresh_processes(&devs[0], 1_000, &m.pids).unwrap().is_empty());
}

#[test]
fn no_intel_devices_is_a_clean_unavailable() {
    match IntelBackend::with_root(&Vec::new(), &None) {
        Err(e) => assert!(matches!(e, BackendError::Unavailable(_))),
        Ok(_) => panic!("expected Unavailable for a tree without sys/class/drm"),
    }
}

#[test]
fn the_other_drivers_files_are_not_read() {
    // The files of an i915 device say nothing of an xe device.
    let mut m = i915();
    m.cards[1].uevent = text("DRIVER=xe\nPCI_SLOT_NAME=0000:03:00.0\n");
    let mut b = m.backend().unwrap();
    let dev = b.devices().remove(0);
    let info = b.static_info(&dev, &m.files).unwrap();
    assert_eq!((info.mem_total_bytes, info.max_sm_clock_mhz), (None, None));
    let s = b.refresh_dynamic(&dev, 1_000, &m.files).unwrap();
    assert_eq!((s.sm_clock_mhz, s.throttle), (None, None));
}

#[test]
fn a_device_that_is_not_there_is_not_found() {
    let m = xe();
    let mut b = m.backend().unwrap();
    let other = DeviceId("0000:04:00.0".into());
    assert!(matches!(b.static_info(&other, &m.files), Err(BackendError::DeviceNotFound(_))));
    assert!(matches!(b.refresh_dynamic(&other, 1, &m.files), Err(BackendError::DeviceNotFound(_))));
    assert!(matches!(b.refresh_processes(&other, 1, &m.pids), Err(BackendError::DeviceNotFound(_))));
    assert_eq!(b.name(), "intel");
}
