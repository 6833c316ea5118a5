use gpuviewer::amd::backend::{AmdBackend, AmdReadings, AmdStaticFiles};
use gpuviewer::amd::{decode_gpu_metrics_throttle, TempLabel};
use gpuviewer::backend::BackendError;
use gpuviewer::drm::CardFiles;
use gpuviewer::fdinfo::PidFiles;
use gpuviewer::model::{DeviceId, ProcessKind, ThrottleReasons, Vendor};

fn text(s: &str) -> Option<String> {
    Some(s.to_string())
}

/// What the files of a machine with one device hold.
struct Machine {
    cards: Vec<CardFiles>,
    status: Option<String>,
    files: AmdStaticFiles,
    readings: AmdReadings,
    pids: Vec<PidFiles>,
}

impl Machine {
    fn backend(&self) -> Result<AmdBackend, BackendError> {
        AmdBackend::with_root(&self.cards, &self.status)
    }
}

fn card(name: &str, vendor: &str, uevent: &str, hwmon: &[&str]) -> CardFiles {
    CardFiles {
        name: name.into(),
        vendor: text(vendor),
        uevent: text(uevent),
        hwmon: hwmon.iter().map(|s| s.to_string()).collect(),
    }
}

fn no_static() -> AmdStaticFiles {
    AmdStaticFiles {
        device: None,
        revision: None,
        ids: None,
        vram_total: None,
        power_cap: None,
        sclk: None,
    }
}

fn no_readings() -> AmdReadings {
    AmdReadings {
        busy_pct: None,
        vram_used: None,
        sclk: None,
        mclk: None,
        gpu_metrics: None,
        power_average: None,
        power_input: None,
        temp_labels: Vec::new(),
        temp1_input: None,
        fan_rpm: None,
        fan_max: None,
    }
}

fn temp(n: u32, label: &str, input: &str) -> TempLabel {
    TempLabel { name: format!("temp{n}_label"), label: text(label), input: text(input) }
}

fn process(pid: u32, comm: &str, fdinfo: &[&str]) -> PidFiles {
    PidFiles {
        pid,
        comm: text(comm),
        fdinfo: fdinfo.iter().map(|s| s.to_string()).collect(),
    }
}

/// A metrics table of revision 1.3 that is power-capped: the word before the last one would read
/// as a hot chip, and the word whose bits differ from chip to chip is set too.
fn v1_3_power_capped() -> Vec<u8> {
    let mut b = vec![0u8; 120];
    b[0..2].copy_from_slice(&120u16.to_le_bytes());
    b[2] = 1;
    b[3] = 3;
    b[68..72].copy_from_slice(&0x40u32.to_le_bytes());
    b[104..112].copy_from_slice(&(1u64 << 36).to_le_bytes());
    b[112..120].copy_from_slice(&1u64.to_le_bytes());
    b
}

fn rx7900xtx() -> Machine {
    Machine {
        cards: vec![
            card("card1-DP-1", "0x1002\n", "PCI_SLOT_NAME=0000:03:00.0\n", &[]),
            card("renderD128", "0x1002\n", "PCI_SLOT_NAME=0000:03:00.0\n", &[]),
            card("card0", "0x8086\n", "PCI_SLOT_NAME=0000:00:02.0\n", &[]),
            card("card1", "0x1002\n", "DRIVER=amdgpu\nPCI_SLOT_NAME=0000:03:00.0\n", &["hwmon3"]),
        ],
        status: None,
        files: AmdStaticFiles {
            device: text("0x744c\n"),
            revision: text("0xc8\n"),
            ids: text("# ids\n1.0.0\n744C,\tCC,\tAMD Radeon RX 7900 XT\n744C,\tC8,\tAMD Radeon RX 7900 XTX\n"),
            vram_total: text("25769803776\n"),
            power_cap: text("339000000\n"),
            sclk: text("0: 500Mhz\n1: 1138Mhz *\n2: 2890Mhz\n"),
        },
        readings: AmdReadings {
            busy_pct: Some(67_000),
            vram_used: text("8489271296\n"),
            sclk: text("0: 500Mhz\n1: 1138Mhz *\n2: 2890Mhz\n"),
            mclk: text("0: 96Mhz\n1: 456Mhz\n2: 772Mhz\n3: 1249Mhz *\n"),
            gpu_metrics: Some(v1_3_power_capped()),
            power_average: text("284000000\n"),
            power_input: None,
            temp_labels: vec![
                temp(1, "junction\n", "61000\n"),
                temp(2, "edge\n", "53000\n"),
                temp(3, "mem\n", "70000\n"),
            ],
            temp1_input: text("61000\n"),
            fan_rpm: Some(1_650_000),
            fan_max: Some(3_300_000),
        },
        pids: vec![
            process(2210, "gnome-shell\n", &[
                "drm-driver:\tamdgpu\ndrm-pdev:\t0000:03:00.0\ndrm-memory-vram:\t524288 KiB\ndrm-engine-gfx:\t987654321 ns\ndrm-engine-compute:\t0 ns\n",
            ]),
            process(4521, "python3\n", &[
                "drm-driver:\tamdgpu\ndrm-pdev:\t0000:03:00.0\ndrm-memory-vram:\t6815744 KiB\ndrm-engine-gfx:\t1500000000 ns\ndrm-engine-compute:\t7500000000 ns\n",
                "drm-driver:\tamdgpu\ndrm-pdev:\t0000:03:00.0\ndrm-memory-vram:\t4096 KiB\ndrm-engine-gfx:\t1000 ns\n",
            ]),
            process(5555, "firefox\n", &[
                "drm-driver:\tamdgpu\ndrm-pdev:\t0000:0a:00.0\ndrm-memory-vram:\t65536 KiB\n",
            ]),
        ],
    }
}

fn igpu_minimal() -> Machine {
    let mut files = no_static();
    files.device = text("0x15bf\n");
    Machine {
        cards: vec![card("card0", "0x1002\n", "PCI_SLOT_NAME=0000:c1:00.0\n", &[])],
        status: None,
        files,
        readings: no_readings(),
        pids: Vec::new(),
    }
}

/// A metrics table of revision 3.0: running totals, and padding that was never written.
fn v3_0_blob() -> Vec<u8> {
    let mut b = vec![0u8; 264];
    b[0..2].copy_from_slice(&264u16.to_le_bytes());
    b[2] = 3;
    b[3] = 0;
    b[224..226].copy_from_slice(&2900u16.to_le_bytes());
    b[226] = 0xFF;
    b[227] = 0xFF;
    for (off, v) in [(228, 37u32), (232, 9), (236, 0), (240, 4), (244, 0), (248, 12), (252, 3)] {
        b[off..off + 4].copy_from_slice(&v.to_le_bytes());
    }
    b
}

fn strixpoint() -> Machine {
    let mut files = no_static();
    files.device = text("0x150e\n");
    files.vram_total = text("536870912\n");
    files.sclk = text("0: 600Mhz\n1: 1900Mhz *\n2: 2900Mhz\n");
    let mut readings = no_readings();
    readings.busy_pct = Some(23_000);
    readings.vram_used = text("201326592\n");
    readings.sclk = text("0: 600Mhz\n1: 1900Mhz *\n2: 2900Mhz\n");
    readings.mclk = text("0: 1000Mhz\n1: 1334Mhz *\n");
    readings.gpu_metrics = Some(v3_0_blob());
    readings.power_average = text("14237000\n");
    readings.power_input = text("15012000\n");
    readings.temp_labels = vec![temp(1, "edge\n", "58000\n")];
    readings.temp1_input = text("58000\n");
    Machine {
        cards: vec![card("card0", "0x1002\n", "PCI_SLOT_NAME=0000:c4:00.0\n", &["hwmon4"])],
        status: None,
        files,
        readings,
        pids: Vec::new(),
    }
}

/// A metrics table of revision 2.4, with what was never written filled.
fn v2_4_blob() -> Vec<u8> {
    let mut b = vec![0u8; 168];
    b[0..2].copy_from_slice(&168u16.to_le_bytes());
    b[2] = 2;
    b[3] = 4;
    b[108..112].copy_from_slice(&0x40u32.to_le_bytes());
    b[112..120].copy_from_slice(&[0xFF; 8]);
    b[120..128].copy_from_slice(&(1u64 << 7).to_le_bytes());
    b[164..168].copy_from_slice(&[0xFF; 4]);
    b
}

fn vangogh() -> Machine {
    let mut files = no_static();
    files.device = text("0x163f\n");
    files.vram_total = text("1073741824\n");
    files.sclk = text("0: 200Mhz\n1: 700Mhz *\n2: 1600Mhz\n");
    let mut readings = no_readings();
    readings.busy_pct = Some(88_000);
    readings.sclk = text("0: 200Mhz\n1: 700Mhz *\n2: 1600Mhz\n");
    readings.gpu_metrics = Some(v2_4_blob());
    readings.power_average = text("8123000\n");
    readings.temp_labels = vec![temp(1, "edge\n", "67000\n")];
    readings.temp1_input = text("67000\n");
    Machine {
        cards: vec![card("card0", "0x1002\n", "PCI_SLOT_NAME=0000:04:00.0\n", &["hwmon5"])],
        status: None,
        files,
        readings,
        pids: vec![
            process(1337, "portal2\n", &[
                "drm-driver:\tamdgpu\ndrm-pdev:\t0000:04:00.0\ndrm-memory-vram:\t262144 KiB\ndrm-memory-gtt:\t3145728 KiB\ndrm-engine-gfx:\t88000000000 ns\n",
            ]),
            process(2001, "ffmpeg\n", &[
                "drm-driver:\tamdgpu\ndrm-pdev:\t0000:04:00.0\ndrm-memory-gtt:\t65536 KiB\ndrm-engine-dec:\t123456 ns\ndrm-engine-enc:\t654321 ns\n",
            ]),
        ],
    }
}

/// A metrics table of revision 2.2 whose last word was never written.
fn v2_2_blob() -> Vec<u8> {
    let mut b = vec![0u8; 128];
    b[0..2].copy_from_slice(&128u16.to_le_bytes());
    b[2] = 2;
    b[3] = 2;
    b[120..128].copy_from_slice(&[0xFF; 8]);
    b
}

fn cyanskillfish() -> Machine {
    let mut files = no_static();
    files.device = text("0x13fe\n");
    let mut readings = no_readings();
    readings.busy_pct = Some(41_000);
    readings.gpu_metrics = Some(v2_2_blob());
    readings.power_average = text("95000000\n");
    readings.temp_labels = vec![temp(1, "edge\n", "54000\n")];
    readings.temp1_input = text("54000\n");
    Machine {
        cards: vec![card("card0", "0x1002\n", "PCI_SLOT_NAME=0000:05:00.0\n", &["hwmon2"])],
        status: None,
        files,
        readings,
        pids: Vec::new(),
    }
}

#[test]
fn rx7900xtx_enumeration_and_static_info() {
    let m = rx7900xtx();
    let b = m.backend().unwrap();
    let devs = b.devices();
    assert_eq!(devs, vec![DeviceId("0000:03:00.0".into())]);

    let info = b.static_info(&devs[0], &m.files).unwrap();
    assert_eq!(info.vendor, Vendor::Amd);
    assert_eq!(info.backend, "amd");
    assert_eq!(info.name, "AMD Radeon RX 7900 XTX");
    assert_eq!(info.mem_total_bytes, Some(25_769_803_776));
    assert_eq!(info.power_limit_mw, Some(339_000));
    assert_eq!(info.max_sm_clock_mhz, Some(2890));
    assert_eq!(info.driver_version, None);
    assert_eq!(
        info.process_hint.as_deref(),
        Some("showing your processes only — others need root or CAP_SYS_PTRACE (fdinfo)")
    );
}

#[test]
fn rx7900xtx_dynamic_sample_unit_conversions() {
    let m = rx7900xtx();
    let b = m.backend().unwrap();
    let dev = b.devices().remove(0);

    let s = b.refresh_dynamic(&dev, 1_000, &m.readings).unwrap();
    assert_eq!(s.util_pct, Some(67_000));
    assert_eq!(s.mem_used_bytes, Some(8_489_271_296));

    assert_eq!(s.temp_c, Some(53_000));
    assert_eq!(s.power_mw, Some(284_000));
    assert_eq!(s.fan_pct, Some(50_000));
    assert_eq!(s.sm_clock_mhz, Some(1138));
    assert_eq!(s.mem_clock_mhz, Some(1249));
    assert_eq!(s.encoder_pct, None);
    assert_eq!(s.decoder_pct, None);
    let t = s
        .throttle
        .expect("gpu_metrics present → throttle observable");
    assert!(t.power_cap, "PPT0 bit decodes to power_cap");
    assert!(!t.thermal, "no thermal bit set — decoy must be ignored");
    assert!(!t.other, "indep is preferred over the legacy word");
}

#[test]
fn rx7900xtx_fdinfo_processes() {
    let m = rx7900xtx();
    let mut b = m.backend().unwrap();
    let dev = b.devices().remove(0);

    let procs = b.refresh_processes(&dev, 1_000, &m.pids).unwrap();
    assert_eq!(
        procs.len(),
        2,
        "the pid on the other GPU's pdev must be filtered out"
    );

    let shell = &procs[0];
    assert_eq!((shell.pid, shell.name.as_str()), (2210, "gnome-shell"));
    assert_eq!(shell.kind, ProcessKind::Graphics);
    assert_eq!(shell.mem_bytes, Some(536_870_912));

    let py = &procs[1];
    assert_eq!((py.pid, py.name.as_str()), (4521, "python3"));
    assert_eq!(py.kind, ProcessKind::Compute);
    assert_eq!(py.mem_bytes, Some(6_979_321_856));
    assert_eq!(py.util_pct, None);
    assert_eq!(shell.util_pct, None);
}

#[test]
fn fdinfo_engine_delta_yields_util_on_second_sighting() {
    let mut m = rx7900xtx();
    let mut b = m.backend().unwrap();
    let dev = b.devices().remove(0);
    let first = b.refresh_processes(&dev, 1_000, &m.pids).unwrap();
    assert!(first.iter().all(|p| p.util_pct.is_none()));

    let bumped = m.pids[1].fdinfo[0]
        .replace("drm-engine-gfx:\t1500000000 ns", "drm-engine-gfx:\t901500000000 ns");
    m.pids[1].fdinfo[0] = bumped;

    let second = b.refresh_processes(&dev, 1_060, &m.pids).unwrap();
    let py = second.iter().find(|p| p.pid == 4521).unwrap();
    assert_eq!(py.util_pct, Some(100_000));
    let shell = second.iter().find(|p| p.pid == 2210).unwrap();
    assert_eq!(shell.util_pct, Some(0));
}

#[test]
fn temp_without_labels_falls_back_to_temp1_input() {
    let mut m = rx7900xtx();
    m.readings.temp_labels.clear();
    let b = m.backend().unwrap();
    let dev = b.devices().remove(0);
    assert_eq!(b.refresh_dynamic(&dev, 1_000, &m.readings).unwrap().temp_c, Some(61_000));
}

#[test]
fn power_falls_back_to_power1_input_when_average_is_absent() {
    let mut m = rx7900xtx();
    m.readings.power_average = None;
    m.readings.power_input = text("297500000\n");
    let b = m.backend().unwrap();
    let dev = b.devices().remove(0);
    assert_eq!(b.refresh_dynamic(&dev, 1_000, &m.readings).unwrap().power_mw, Some(297_500));
}

#[test]
fn amd_fixtures_igpu_minimal_everything_optional_is_none() {
    let m = igpu_minimal();
    let mut b = m.backend().unwrap();
    let devs = b.devices();
    assert_eq!(devs, vec![DeviceId("0000:c1:00.0".into())]);

    let info = b.static_info(&devs[0], &m.files).unwrap();
    assert_eq!(info.name, "AMD GPU [1002:15bf]");
    assert_eq!(info.mem_total_bytes, None);
    assert_eq!(info.power_limit_mw, None);
    assert_eq!(info.max_sm_clock_mhz, None);

    let s = b.refresh_dynamic(&devs[0], 1_000, &m.readings).unwrap();
    assert_eq!(s.util_pct, None);
    assert_eq!(s.mem_used_bytes, None);
    assert_eq!(s.temp_c, None);
    assert_eq!(s.power_mw, None);
    assert_eq!(s.fan_pct, None);
    assert_eq!(s.sm_clock_mhz, None);
    assert_eq!(s.mem_clock_mhz, None);
    assert_eq!(s.throttle, None);

    assert!(b.refresh_processes(&devs[0], 1_000, &m.pids).unwrap().is_empty());
}

#[test]
fn strixpoint_v3_0_tree_decodes_metrics_with_throttle_unobservable() {
    let m = strixpoint();
    let b = m.backend().unwrap();
    let devs = b.devices();
    assert_eq!(devs, vec![DeviceId("0000:c4:00.0".into())]);

    let info = b.static_info(&devs[0], &m.files).unwrap();
    assert_eq!(info.vendor, Vendor::Amd);
    assert_eq!(info.name, "AMD GPU [1002:150e]");
    assert_eq!(info.mem_total_bytes, Some(536_870_912));
    assert_eq!(info.power_limit_mw, None);
    assert_eq!(info.max_sm_clock_mhz, Some(2900));

    let s = b.refresh_dynamic(&devs[0], 1_000, &m.readings).unwrap();
    assert_eq!(s.util_pct, Some(23_000));
    assert_eq!(s.mem_used_bytes, Some(201_326_592));
    assert_eq!(s.temp_c, Some(58_000));
    assert_eq!(s.power_mw, Some(14_237));
    assert_eq!(s.fan_pct, None);
    assert_eq!(s.sm_clock_mhz, Some(1900));
    assert_eq!(s.mem_clock_mhz, Some(1334));
    assert_eq!(
        s.throttle, None,
        "v3_0 per-sample throttle must be unobservable"
    );
}

#[test]
fn strixpoint_blob_pins_v3_0_kernel_offsets_and_pad_sentinel() {
    let blob = v3_0_blob();
    let u32_at = |off: usize| u32::from_le_bytes(blob[off..off + 4].try_into().unwrap());
    assert_eq!(blob.len(), 264);
    assert_eq!(u16::from_le_bytes([blob[0], blob[1]]), 264);
    assert_eq!((blob[2], blob[3]), (3, 0));
    assert_eq!(u16::from_le_bytes([blob[224], blob[225]]), 2900);
    assert_eq!(blob[226..228], [0xFF, 0xFF]);
    assert_eq!(u32_at(228), 37);
    assert_eq!(u32_at(232), 9);
    assert_eq!(u32_at(236), 0);
    assert_eq!(u32_at(240), 4);
    assert_eq!(u32_at(244), 0);
    assert_eq!(u32_at(248), 12);
    assert_eq!(u32_at(252), 3);
    assert_eq!(decode_gpu_metrics_throttle(&blob), None);
}

#[test]
fn vangogh_steamdeck_v2_4_decodes_at_sizeof_168_regression() {
    let m = vangogh();
    let b = m.backend().unwrap();
    let devs = b.devices();
    assert_eq!(devs, vec![DeviceId("0000:04:00.0".into())]);

    let info = b.static_info(&devs[0], &m.files).unwrap();
    assert_eq!(info.name, "AMD GPU [1002:163f]");
    assert_eq!(info.mem_total_bytes, Some(1_073_741_824));
    assert_eq!(info.power_limit_mw, None);
    assert_eq!(info.max_sm_clock_mhz, Some(1600));

    let s = b.refresh_dynamic(&devs[0], 1_000, &m.readings).unwrap();
    assert_eq!(s.util_pct, Some(88_000));
    assert_eq!(s.temp_c, Some(67_000));
    assert_eq!(s.power_mw, Some(8_123));
    assert_eq!(s.fan_pct, None);
    assert_eq!(s.sm_clock_mhz, Some(700));
    assert_eq!(s.mem_clock_mhz, None);
    let t = s
        .throttle
        .expect("a real 168-byte v2_4 blob must decode (164→168 gate fix)");
    assert!(t.power_cap, "SPPT_APU (bit 7) decodes to power_cap");
    assert!(
        !t.thermal && !t.hw_slowdown && !t.sync_boost && !t.other,
        "legacy 0x40 decoy, 0xFF'd fan_pwm/padding, and 0xFF tail pad must all be ignored"
    );
}

#[test]
fn vangogh_blob_pins_v2_4_size_and_word_offsets() {
    let blob = v2_4_blob();
    assert_eq!(blob.len(), 168);
    assert_eq!(
        u16::from_le_bytes([blob[0], blob[1]]),
        168,
        "structure_size = sizeof (168), never the 164 data length"
    );
    assert_eq!((blob[2], blob[3]), (2, 4));
    assert_eq!(
        u32::from_le_bytes(blob[108..112].try_into().unwrap()),
        0x40,
        "legacy throttle_status decoy"
    );
    assert_eq!(blob[112..120], [0xFF; 8]);
    assert_eq!(
        u64::from_le_bytes(blob[120..128].try_into().unwrap()),
        1 << 7,
    );
    assert_eq!(blob[164..168], [0xFF; 4], "kernel-true 0xFF tail pad");
    let mut short = blob.clone();
    short.truncate(164);
    short[0..2].copy_from_slice(&164u16.to_le_bytes());
    assert_eq!(decode_gpu_metrics_throttle(&short), None);
}

#[test]
fn vangogh_fdinfo_game_and_media_pids() {
    let m = vangogh();
    let mut b = m.backend().unwrap();
    let dev = b.devices().remove(0);

    let procs = b.refresh_processes(&dev, 1_000, &m.pids).unwrap();
    assert_eq!(procs.len(), 2);

    let game = &procs[0];
    assert_eq!((game.pid, game.name.as_str()), (1337, "portal2"));
    assert_eq!(game.kind, ProcessKind::Graphics);
    assert_eq!(game.mem_bytes, Some(268_435_456));
    assert_eq!(game.util_pct, None);

    let media = &procs[1];
    assert_eq!((media.pid, media.name.as_str()), (2001, "ffmpeg"));
    assert_eq!(media.util_pct, None);
    assert_eq!(media.mem_bytes, None);
    assert_eq!(media.kind, ProcessKind::Graphics);
}

#[test]
fn cyanskillfish_v2_2_ff_sentinel_is_quiet_never_active_throttle() {
    let m = cyanskillfish();
    let b = m.backend().unwrap();
    let devs = b.devices();
    assert_eq!(devs, vec![DeviceId("0000:05:00.0".into())]);

    let s = b.refresh_dynamic(&devs[0], 1_000, &m.readings).unwrap();
    let t = s
        .throttle
        .expect("legacy word stays observable behind the indep sentinel");
    assert!(
        !t.any(),
        "the 0xFF sentinel must never surface as an active throttle"
    );
    assert_eq!(t, ThrottleReasons::default());

    assert_eq!(s.util_pct, Some(41_000));
    assert_eq!(s.temp_c, Some(54_000));
    assert_eq!(s.power_mw, Some(95_000));
    assert_eq!(s.sm_clock_mhz, None);
    assert_eq!(s.mem_clock_mhz, None);
    assert_eq!(s.fan_pct, None);
}

#[test]
fn cyanskillfish_blob_pins_v2_2_sentinel_bytes() {
    let blob = v2_2_blob();
    assert_eq!(blob.len(), 128);
    assert_eq!(u16::from_le_bytes([blob[0], blob[1]]), 128);
    assert_eq!((blob[2], blob[3]), (2, 2));
    assert_eq!(
        u32::from_le_bytes(blob[108..112].try_into().unwrap()),
        0,
        "legacy throttle_status: an observed quiet"
    );
    assert_eq!(
        blob[120..128],
        [0xFF; 8],
        "indep_throttle_status never written — the memset sentinel"
    );
    assert_eq!(
        decode_gpu_metrics_throttle(&blob),
        Some(ThrottleReasons::default())
    );
}

struct KernelLayout {
    name: &'static str,
    format: u8,
    content: u8,
    size: usize,
    legacy: Option<usize>,
    indep: Option<usize>,
}

const KERNEL_LAYOUTS: &[KernelLayout] = &[
    KernelLayout { name: "v1_1", format: 1, content: 1, size: 96,  legacy: Some(68),  indep: None },
    KernelLayout { name: "v1_2", format: 1, content: 2, size: 104, legacy: Some(68),  indep: None },
    KernelLayout { name: "v1_3", format: 1, content: 3, size: 120, legacy: Some(68),  indep: Some(112) },
    KernelLayout { name: "v2_0", format: 2, content: 0, size: 120, legacy: Some(112), indep: None },
    KernelLayout { name: "v2_1", format: 2, content: 1, size: 120, legacy: Some(108), indep: None },
    KernelLayout { name: "v2_2", format: 2, content: 2, size: 128, legacy: Some(108), indep: Some(120) },
    KernelLayout { name: "v2_3", format: 2, content: 3, size: 152, legacy: Some(108), indep: Some(120) },
    KernelLayout { name: "v2_4", format: 2, content: 4, size: 168, legacy: Some(108), indep: Some(120) },
];

fn build_at_literals(
    l: &KernelLayout,
    fill: u8,
    legacy: Option<u32>,
    indep: Option<u64>,
) -> Vec<u8> {
    let mut b = vec![fill; l.size];
    b[0..2].copy_from_slice(&(l.size as u16).to_le_bytes());
    b[2] = l.format;
    b[3] = l.content;
    if let (Some(off), Some(v)) = (l.legacy, legacy) {
        b[off..off + 4].copy_from_slice(&v.to_le_bytes());
    }
    if let (Some(off), Some(v)) = (l.indep, indep) {
        b[off..off + 8].copy_from_slice(&v.to_le_bytes());
    }
    b
}

#[test]
fn every_version_indep_word_is_read_at_the_kernel_offset() {
    for l in KERNEL_LAYOUTS.iter().filter(|l| l.indep.is_some()) {
        let b = build_at_literals(l, 0xAB, None, Some(1 << 36));
        let t = decode_gpu_metrics_throttle(&b)
            .unwrap_or_else(|| panic!("{}: a well-formed blob must decode", l.name));
        assert_eq!(
            t,
            ThrottleReasons {
                thermal: true,
                ..Default::default()
            },
            "{}: indep must be read at exactly @{} and preferred over the legacy word",
            l.name,
            l.indep.unwrap()
        );
    }
}

#[test]
fn every_version_legacy_word_is_read_at_the_kernel_offset() {
    for l in KERNEL_LAYOUTS.iter().filter(|l| l.legacy.is_some()) {
        let b = build_at_literals(l, 0x00, Some(0x2), Some(u64::MAX));
        let t = decode_gpu_metrics_throttle(&b)
            .unwrap_or_else(|| panic!("{}: a well-formed blob must decode", l.name));
        assert_eq!(
            t,
            ThrottleReasons {
                other: true,
                ..Default::default()
            },
            "{}: nonzero legacy @{} is a coarse `other`, never a specific cause",
            l.name,
            l.legacy.unwrap()
        );
        let b = build_at_literals(l, 0xAB, Some(0), Some(u64::MAX));
        assert_eq!(
            decode_gpu_metrics_throttle(&b),
            Some(ThrottleReasons::default()),
            "{}: zero legacy @{} is an observed quiet",
            l.name,
            l.legacy.unwrap()
        );
    }
}

#[test]
fn every_version_sentinel_words_decode_to_absence_never_throttle() {
    for l in KERNEL_LAYOUTS {
        match (l.indep, l.legacy) {
            (Some(_), Some(_)) => {
                let b = build_at_literals(l, 0x00, Some(0), Some(u64::MAX));
                assert_eq!(
                    decode_gpu_metrics_throttle(&b),
                    Some(ThrottleReasons::default()),
                    "{}: indep 0xFF sentinel must fall through to the legacy word",
                    l.name
                );
                let b = build_at_literals(l, 0x00, Some(u32::MAX), Some(u64::MAX));
                assert_eq!(
                    decode_gpu_metrics_throttle(&b),
                    None,
                    "{}: all-sentinel words are unobservable, never Some(anything)",
                    l.name
                );
            }
            (None, Some(_)) => {
                let b = build_at_literals(l, 0x00, Some(u32::MAX), None);
                assert_eq!(
                    decode_gpu_metrics_throttle(&b),
                    None,
                    "{}: a 0xFF'd legacy word means unsupported, not throttling hard",
                    l.name
                );
            }
            _ => unreachable!("every supported layout carries a legacy word"),
        }
    }
}

#[test]
fn every_version_size_gate_matches_the_kernel_sizeof_exactly() {
    for l in KERNEL_LAYOUTS {
        let ok = build_at_literals(l, 0x00, Some(0), Some(0));
        assert_eq!(
            decode_gpu_metrics_throttle(&ok),
            Some(ThrottleReasons::default()),
            "{}: a blob at the kernel sizeof {} must decode",
            l.name,
            l.size
        );
        let mut short = build_at_literals(l, 0x00, Some(0), Some(0));
        short.truncate(l.size - 4);
        short[0..2].copy_from_slice(&((l.size - 4) as u16).to_le_bytes());
        assert_eq!(
            decode_gpu_metrics_throttle(&short),
            None,
            "{}: structure_size {} (sizeof − 4) must be rejected",
            l.name,
            l.size - 4
        );
        let mut long = build_at_literals(l, 0x00, Some(0), Some(0));
        long.extend_from_slice(&[0u8; 8]);
        long[0..2].copy_from_slice(&((l.size + 8) as u16).to_le_bytes());
        assert_eq!(
            decode_gpu_metrics_throttle(&long),
            None,
            "{}: structure_size {} (sizeof + 8) must be rejected",
            l.name,
            l.size + 8
        );
    }
}

#[test]
fn no_amd_devices_is_a_clean_unavailable() {
    match AmdBackend::with_root(&Vec::new(), &None) {
        Err(e) => assert!(matches!(e, BackendError::Unavailable(_))),
        Ok(_) => panic!("expected Unavailable for a tree without sys/class/drm"),
    }
}

#[test]
fn a_vanished_process_starts_over() {
    let m = rx7900xtx();
    let mut b = m.backend().unwrap();
    let dev = b.devices().remove(0);
    b.refresh_processes(&dev, 1_000, &m.pids).unwrap();
    assert!(b.refresh_processes(&dev, 2_000, &Vec::new()).unwrap().is_empty());
    let again = b.refresh_processes(&dev, 3_000, &m.pids).unwrap();
    assert_eq!(again.len(), 2);
    assert!(again.iter().all(|p| p.util_pct.is_none()));
    let third = b.refresh_processes(&dev, 4_000, &m.pids).unwrap();
    assert!(third.iter().all(|p| p.util_pct == Some(0)));
}

#[test]
fn a_device_of_another_backend_is_not_found() {
    let m = rx7900xtx();
    let mut b = m.backend().unwrap();
    let other = DeviceId("0000:04:00.0".into());
    assert!(matches!(b.static_info(&other, &m.files), Err(BackendError::DeviceNotFound(_))));
    assert!(matches!(b.refresh_dynamic(&other, 1, &m.readings), Err(BackendError::DeviceNotFound(_))));
    assert!(matches!(b.refresh_processes(&other, 1, &m.pids), Err(BackendError::DeviceNotFound(_))));
    let d = b.device(&DeviceId("0000:03:00.0".into())).unwrap();
    assert_eq!((d.card.as_str(), d.hwmon.as_deref()), ("card1", Some("hwmon3")));
    assert_eq!(b.name(), "amd");
}

#[test]
fn sensors_are_read_only_where_there_is_a_directory_of_them() {
    let mut m = rx7900xtx();
    m.cards[3].hwmon.clear();
    let b = m.backend().unwrap();
    let dev = b.devices().remove(0);
    let s = b.refresh_dynamic(&dev, 1_000, &m.readings).unwrap();
    assert_eq!((s.power_mw, s.temp_c, s.fan_pct), (None, None, None));
    assert_eq!(b.static_info(&dev, &m.files).unwrap().power_limit_mw, None);
}

#[test]
fn a_privileged_scan_needs_no_hint() {
    let mut m = rx7900xtx();
    m.status = text("Name:\tgpuviewer\nUid:\t0\t0\t0\t0\nCapEff:\t000001ffffffffff\n");
    let b = m.backend().unwrap();
    let dev = b.devices().remove(0);
    assert_eq!(b.static_info(&dev, &m.files).unwrap().process_hint, None);
}
