use gpuviewer::backend::BackendError;
use gpuviewer::model::{DeviceId, ProcessKind};
use gpuviewer::nvidia::backend::{NvidiaBackend, NvmlReadings, NvmlSlot, NvmlStatic, Platform};
use gpuviewer::nvidia::processes::{
    merge_lists, process_name, NvmlPidFiles, NvmlProcess, UtilSample,
};
use gpuviewer::nvidia::{match_luid, wsl_process_hint, DriverModelClass, UsedMemory};
use gpuviewer::wddm::adapters::AdapterInfo;
use gpuviewer::wddm::backend::PidImage;
use gpuviewer::wddm::pdh::parse_instance;
use gpuviewer::wddm::snapshot::PdhSnapshot;
use gpuviewer::wddm::sums::{Luid, Reading};

fn slot(index: u32, bus_id: Option<&str>) -> NvmlSlot {
    NvmlSlot { index, bus_id: bus_id.map(|s| s.to_string()) }
}

fn adapter(bdf: Option<&str>) -> AdapterInfo {
    AdapterInfo {
        ordinal: 0,
        name: "NVIDIA GeForce RTX 4090".into(),
        vendor_id: 0x10DE,
        device_id: 0x2684,
        luid_high: 0,
        luid_low: 0xC739,
        dedicated_video_bytes: 24 << 30,
        shared_system_bytes: 16 << 30,
        pci_bdf: bdf.map(|s| s.to_string()),
    }
}

fn no_static() -> NvmlStatic {
    NvmlStatic {
        name: None,
        mem_total: None,
        power_limit_mw: None,
        max_sm_clock_mhz: None,
        temp_slowdown_c: None,
        driver_version: None,
    }
}

fn no_readings() -> NvmlReadings {
    NvmlReadings {
        util: None,
        mem_used: None,
        power_mw: None,
        temp_c: None,
        fan: None,
        sm_clock_mhz: None,
        mem_clock_mhz: None,
        encoder: None,
        decoder: None,
        throttle: None,
    }
}

fn proc(pid: u32, bytes: Option<u64>) -> NvmlProcess {
    NvmlProcess {
        pid,
        mem: match bytes {
            Some(b) => UsedMemory::Used(b),
            None => UsedMemory::Unavailable,
        },
    }
}

fn files(pid: u32, comm: &str) -> NvmlPidFiles {
    NvmlPidFiles {
        pid,
        sys_name: None,
        comm: Some(comm.into()),
        stat: None,
        cgroup: None,
    }
}

fn counted(name: &str, value: i64) -> Reading {
    Reading { inst: parse_instance(name).unwrap(), value }
}

#[test]
fn identities_are_addresses_in_lower_case() {
    let b = NvidiaBackend::init(
        &vec![slot(0, Some("00000000:0A:00.0")), slot(3, None)],
        &Vec::new(),
        &None,
    )
    .unwrap();
    assert_eq!(
        b.devices(),
        vec![DeviceId("00000000:0a:00.0".into()), DeviceId("nvml:3".into())]
    );
    assert_eq!(b.name(), "nvidia");
    assert_eq!(b.device(&DeviceId("nvml:3".into())).unwrap().index, 3);
}

#[test]
fn a_library_without_devices_is_unavailable() {
    match NvidiaBackend::init(&Vec::new(), &Vec::new(), &None) {
        Err(e) => {
            assert!(matches!(e, BackendError::Unavailable(_)));
            assert!(e.text().contains("NVML loaded but no devices"), "{}", e.text());
        }
        Ok(_) => panic!("no devices"),
    }
}

#[test]
fn what_is_told_of_a_device_is_passed_on() {
    let b = NvidiaBackend::init(&vec![slot(0, Some("0000:01:00.0"))], &Vec::new(), &None).unwrap();
    let dev = b.devices().remove(0);
    let info = b.static_info(&dev, &no_static(), Platform::Linux).unwrap();
    assert_eq!(info.name, "NVIDIA GPU");
    assert_eq!((info.process_hint, info.source_caveat), (None, None));
    let told = NvmlStatic {
        name: Some("NVIDIA GeForce RTX 4090".into()),
        mem_total: Some(24 << 30),
        temp_slowdown_c: Some(93),
        driver_version: Some("550.54".into()),
        ..no_static()
    };
    let info = b.static_info(&dev, &told, Platform::Linux).unwrap();
    assert_eq!(info.name, "NVIDIA GeForce RTX 4090");
    assert_eq!(info.temp_slowdown_c, Some(93_000));
    assert_eq!(info.driver_version.as_deref(), Some("550.54"));

    let blind = b.refresh_dynamic(&dev, 7, &no_readings(), None).unwrap();
    assert_eq!((blind.ts_ms, blind.util_pct, blind.throttle), (7, None, None));
    let readings = NvmlReadings {
        util: Some(97),
        temp_c: Some(71),
        fan: Some(40),
        throttle: Some(0),
        ..no_readings()
    };
    let s = b.refresh_dynamic(&dev, 8, &readings, None).unwrap();
    assert_eq!((s.util_pct, s.temp_c, s.fan_pct), (Some(97_000), Some(71_000), Some(40_000)));
    assert!(!s.throttle.unwrap().any());
}

#[test]
fn the_hint_of_a_virtual_machine_is_carried() {
    let release = Some("5.15.167.4-microsoft-standard-WSL2".to_string());
    let hint = wsl_process_hint(&release).unwrap();
    assert_eq!(wsl_process_hint(&Some("6.17.0-35-generic".into())), None);
    assert_eq!(wsl_process_hint(&None), None);
    let b = NvidiaBackend::init(&vec![slot(0, None)], &Vec::new(), &release).unwrap();
    let info = b.static_info(&DeviceId("nvml:0".into()), &no_static(), Platform::Linux).unwrap();
    assert_eq!(info.process_hint, Some(hint));
}

#[test]
fn lists_merge_by_process() {
    let t = merge_lists(
        &vec![proc(20, Some(100)), proc(5, None)],
        &vec![proc(20, None), proc(7, Some(1)), proc(5, Some(9))],
    );
    let got: Vec<(u32, ProcessKind, Option<u64>)> = (0..t.len())
        .map(|i| (t.pid_at(i), t.value_at(i).kind, t.value_at(i).mem_bytes))
        .collect();
    assert_eq!(
        got,
        vec![
            (5, ProcessKind::Both, Some(9)),
            (7, ProcessKind::Graphics, Some(1)),
            (20, ProcessKind::Both, Some(100)),
        ]
    );
}

#[test]
fn processes_of_linux_carry_their_last_sample() {
    let mut b = NvidiaBackend::init(&vec![slot(0, None)], &Vec::new(), &None).unwrap();
    let dev = DeviceId("nvml:0".into());
    assert_eq!(b.util_since(&dev).unwrap(), 0);
    let samples = Some(vec![
        UtilSample { timestamp: 10, pid: 42, sm_util: 30 },
        UtilSample { timestamp: 30, pid: 42, sm_util: 55 },
        UtilSample { timestamp: 20, pid: 9, sm_util: 1 },
    ]);
    let v = b
        .refresh_processes(
            &dev,
            &vec![proc(42, Some(1 << 30))],
            &vec![proc(7, None)],
            &samples,
            &vec![files(42, "python3\n")],
            1,
        )
        .unwrap();
    assert_eq!(v.len(), 2);
    assert_eq!((v[0].pid, v[0].kind, v[0].util_pct), (7, ProcessKind::Graphics, None));
    assert_eq!((v[1].pid, v[1].name.as_str()), (42, "python3"));
    assert_eq!(v[1].util_pct, Some(55_000));
    // The next samples are asked for from the newest on, and no answer moves nothing.
    assert_eq!(b.util_since(&dev).unwrap(), 30);
    b.refresh_processes(&dev, &Vec::new(), &Vec::new(), &None, &Vec::new(), 2).unwrap();
    assert_eq!(b.util_since(&dev).unwrap(), 30);
}

#[test]
fn names_come_of_the_library_first() {
    assert_eq!(process_name(&Some("/usr/bin/blender".into()), &Some("x\n".into()), 3), "blender");
    assert_eq!(process_name(&None, &Some("x\n".into()), 3), "x");
    assert_eq!(process_name(&None, &None, 3), "pid 3");
}

#[test]
fn an_adapter_is_matched_by_its_address() {
    let adapters = vec![adapter(None), adapter(Some("0000:0a:00.0"))];
    assert_eq!(match_luid("00000000:0a:00.0", &adapters), Some(Luid { high: 0, low: 0xC739 }));
    assert_eq!(match_luid("00000000:0b:00.0", &adapters), None);
    assert_eq!(match_luid("nvml:0", &adapters), None);
}

#[test]
fn counters_of_windows_tell_what_the_library_does_not() {
    let adapters = vec![adapter(Some("0000:01:00.0"))];
    let b = NvidiaBackend::init(&vec![slot(0, Some("00000000:01:00.0"))], &adapters, &None).unwrap();
    let dev = b.devices().remove(0);
    let snap = PdhSnapshot {
        at_ms: 1,
        engine_util: vec![
            counted("pid_77_luid_0x00000000_0x0000C739_phys_0_eng_0_engtype_3D", 12_500),
        ],
        proc_dedicated: vec![counted("pid_77_luid_0x00000000_0x0000C739_phys_0", 4096)],
        proc_shared: Vec::new(),
        adapter_dedicated: vec![counted("luid_0x00000000_0x0000C739_phys_0", 1 << 30)],
        adapter_shared: Vec::new(),
    };
    let told = NvmlReadings { mem_used: Some(5), ..no_readings() };
    assert_eq!(b.refresh_dynamic(&dev, 1, &told, Some(&snap)).unwrap().mem_used_bytes, Some(1 << 30));
    assert_eq!(b.refresh_dynamic(&dev, 1, &told, None).unwrap().mem_used_bytes, Some(5));

    let v = b
        .refresh_processes_windows(
            &dev,
            &vec![proc(77, None)],
            &Vec::new(),
            Some(&snap),
            &vec![NvmlPidFiles {
                pid: 77,
                sys_name: Some(r"C:\games\portal2.exe".into()),
                comm: None,
                stat: None,
                cgroup: None,
            }],
            &vec![PidImage { pid: 77, path: None }],
        )
        .unwrap();
    assert_eq!(v.len(), 1);
    assert_eq!((v[0].pid, v[0].name.as_str()), (77, "portal2.exe"));
    assert_eq!((v[0].mem_bytes, v[0].util_pct), (Some(4096), Some(12_500)));

    let platform = Platform::Windows { model: DriverModelClass::Wddm, engines_counted: true };
    let info = b.static_info(&dev, &no_static(), platform).unwrap();
    assert!(info.source_caveat.is_some());
}

#[test]
fn an_unknown_device_of_the_library_is_not_found() {
    let mut b = NvidiaBackend::init(&vec![slot(0, None)], &Vec::new(), &None).unwrap();
    let other = DeviceId("nvml:1".into());
    assert!(matches!(
        b.static_info(&other, &no_static(), Platform::Linux),
        Err(BackendError::DeviceNotFound(_))
    ));
    assert!(matches!(
        b.refresh_dynamic(&other, 1, &no_readings(), None),
        Err(BackendError::DeviceNotFound(_))
    ));
    assert!(matches!(b.util_since(&other), Err(BackendError::DeviceNotFound(_))));
    assert!(matches!(
        b.refresh_processes(&other, &Vec::new(), &Vec::new(), &None, &Vec::new(), 1),
        Err(BackendError::DeviceNotFound(_))
    ));
}

#[test]
fn a_process_of_one_device_keeps_its_cpu_reading() {
    let stat = |pid: u32, ticks: u64| NvmlPidFiles {
        pid,
        sys_name: None,
        comm: Some(format!("p{pid}\n")),
        stat: Some(format!("{pid} (p) S 1 1 1 0 -1 0 0 0 0 0 {ticks} 0 0 0 20 0 1 0 1 1 1")),
        cgroup: None,
    };
    let mut b =
        NvidiaBackend::init(&vec![slot(0, None), slot(1, None)], &Vec::new(), &None).unwrap();
    let first = DeviceId("nvml:0".into());
    let second = DeviceId("nvml:1".into());
    let mut rates = Vec::new();
    for i in 0..3u64 {
        let now_ns = (1 + i) * 1_000_000_000;
        let v = b
            .refresh_processes(&first, &vec![proc(10, None)], &Vec::new(), &None, &vec![stat(10, 50 * i)], now_ns)
            .unwrap();
        let w = b
            .refresh_processes(&second, &vec![proc(20, None)], &Vec::new(), &None, &vec![stat(20, 100 * i)], now_ns)
            .unwrap();
        rates.push((v[0].cpu_pct, w[0].cpu_pct));
    }
    assert_eq!(
        rates,
        vec![(None, None), (Some(50_000), Some(100_000)), (Some(50_000), Some(100_000))]
    );
    // A process that no device lists any more is forgotten.
    let none = Vec::new();
    b.refresh_processes(&first, &none, &none, &None, &Vec::new(), 5_000_000_000).unwrap();
    let v = b
        .refresh_processes(&first, &vec![proc(10, None)], &Vec::new(), &None, &vec![stat(10, 300)], 6_000_000_000)
        .unwrap();
    assert_eq!(v[0].cpu_pct, None);
}
