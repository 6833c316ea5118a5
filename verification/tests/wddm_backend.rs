use gpuviewer::backend::BackendError;
use gpuviewer::model::{DeviceId, ProcessKind, Vendor};
use gpuviewer::wddm::adapters::{is_hardware, text_len, AdapterInfo};
use gpuviewer::wddm::backend::{PidImage, WddmBackend};
use gpuviewer::wddm::pdh::{
    multi_sz_entries, PDH_CSTATUS_NO_COUNTER, PDH_CSTATUS_NO_OBJECT, PDH_INVALID_DATA, PDH_NO_DATA, PDH_OK,
    PDH_QUERY_PERF_DATA_TIMEOUT,
};
use gpuviewer::wddm::per_pid::sums_fit;
use gpuviewer::wddm::sums::shares_add_up;
use gpuviewer::wddm::snapshot::{
    is_expansion_due, plan_expanded, plan_stream, readings_of, PdhCache, PdhSnapshot, RawItem, Served,
    StreamPlan,
};

fn adapter(ordinal: u32, low: u32, bdf: Option<&str>, dedicated: u64) -> AdapterInfo {
    AdapterInfo {
        ordinal,
        name: if ordinal == 0 { "AMD Radeon 780M".into() } else { String::new() },
        vendor_id: 0x1002,
        device_id: 0x15BF,
        luid_high: 0,
        luid_low: low,
        dedicated_video_bytes: dedicated,
        shared_system_bytes: 8 << 30,
        pci_bdf: bdf.map(|s| s.to_string()),
    }
}

fn item(cstatus: u32, name: &str, value: i64) -> RawItem {
    RawItem { cstatus, name: name.into(), value }
}

fn snapshot(at_ms: u64) -> PdhSnapshot {
    PdhSnapshot {
        at_ms,
        engine_util: readings_of(&vec![
            item(0, "pid_10_luid_0x00000000_0x0000C739_phys_0_eng_0_engtype_3D", 40_000),
            item(0, "pid_11_luid_0x00000000_0x0000C739_phys_0_eng_0_engtype_3D", 20_000),
            item(0, "pid_11_luid_0x00000000_0x0000C739_phys_0_eng_5_engtype_VideoDecode", 7_000),
            item(0, "pid_12_luid_0x00000000_0x0000BEEF_phys_0_eng_1_engtype_Compute_0", 99_000),
        ]),
        proc_dedicated: readings_of(&vec![
            item(0, "pid_10_luid_0x00000000_0x0000C739_phys_0", 4096),
        ]),
        proc_shared: Vec::new(),
        adapter_dedicated: readings_of(&vec![item(0, "luid_0x00000000_0x0000C739_phys_0", 123)]),
        adapter_shared: Vec::new(),
    }
}

#[test]
fn adapters_are_known_by_their_addresses() {
    let b = WddmBackend::init(vec![
        adapter(0, 0xC739, Some("0000:c1:00.0"), 1 << 30),
        adapter(1, 0xBEEF, None, 0),
    ])
    .unwrap();
    let devs = b.devices();
    assert_eq!(
        devs,
        vec![DeviceId("0000:c1:00.0".into()), DeviceId("wddm:1002:15bf:1".into())]
    );
    assert_eq!(b.name(), "wddm");
    let info = b.static_info(&devs[0], true).unwrap();
    assert_eq!((info.vendor, info.name.as_str()), (Vendor::Amd, "AMD Radeon 780M"));
    assert_eq!((info.mem_total_bytes, info.process_hint), (Some(1 << 30), None));
    let info = b.static_info(&devs[1], false).unwrap();
    assert_eq!(info.name, "WDDM adapter");
    assert_eq!(info.mem_total_bytes, None);
    assert!(info.process_hint.unwrap().contains("WDDM 2.0"));
    assert!(matches!(WddmBackend::init(Vec::new()), Err(BackendError::Unavailable(_))));
}

#[test]
fn a_collection_tells_of_each_adapter() {
    let b = WddmBackend::init(vec![adapter(0, 0xC739, Some("0000:c1:00.0"), 0)]).unwrap();
    let dev = b.devices().remove(0);
    let snap = snapshot(5);
    assert!(sums_fit(&snap.proc_dedicated) && sums_fit(&snap.adapter_dedicated));
    let s = b.refresh_dynamic(&dev, 9, &snap).unwrap();
    // The processes of one engine add up; the other adapter's engine does not count.
    assert_eq!((s.util_pct, s.util_engine.as_deref()), (Some(60_000), Some("3D")));
    assert_eq!((s.decoder_pct, s.encoder_pct), (Some(7_000), None));
    assert_eq!((s.mem_used_bytes, s.throttle, s.temp_c), (Some(123), None, None));

    let images = vec![PidImage { pid: 10, path: Some(r"C:\Windows\System32\dwm.exe".into()) }];
    let ps = b.refresh_processes(&dev, &snap, &images).unwrap();
    assert_eq!(ps.len(), 2);
    assert_eq!((ps[0].pid, ps[0].name.as_str()), (10, "dwm.exe"));
    assert_eq!((ps[0].mem_bytes, ps[0].util_pct), (Some(4096), Some(40_000)));
    assert_eq!((ps[1].pid, ps[1].mem_bytes, ps[1].util_pct), (11, None, Some(20_000)));
    assert_ne!(ps[0].kind, ProcessKind::Both);

    let other = DeviceId("wddm:1:2:3".into());
    assert!(matches!(b.static_info(&other, true), Err(BackendError::DeviceNotFound(_))));
    assert!(matches!(b.refresh_dynamic(&other, 9, &snap), Err(BackendError::DeviceNotFound(_))));
    assert!(matches!(
        b.refresh_processes(&other, &snap, &images),
        Err(BackendError::DeviceNotFound(_))
    ));
}

#[test]
fn items_that_cannot_be_trusted_are_no_readings() {
    let rs = readings_of(&vec![
        item(0, "luid_0x00000000_0x0000C739_phys_0", 1),
        item(PDH_INVALID_DATA, "luid_0x00000000_0x0000C739_phys_1", 2),
        item(0, "_total", 3),
        item(1, "luid_0x00000000_0x0000C739_phys_2", 4),
    ]);
    let values: Vec<i64> = rs.iter().map(|r| r.value).collect();
    assert_eq!(values, vec![1, 4]);
}

#[test]
fn a_collection_is_kept_for_a_while() {
    let mut c = PdhCache::new();
    assert!(!c.is_fresh(0));
    assert!(c.kept().is_none());
    assert_eq!(c.settle(1_000, PDH_QUERY_PERF_DATA_TIMEOUT, snapshot(0)), Served::Empty);
    assert_eq!(c.settle(1_000, PDH_OK, snapshot(0)), Served::Kept);
    assert_eq!(c.kept().unwrap().at_ms, 1_000);
    assert!(c.is_fresh(1_000));
    assert!(!c.is_fresh(100_000));
    // A provider that is late takes nothing away; one that fails serves nothing.
    assert_eq!(c.settle(2_000, PDH_QUERY_PERF_DATA_TIMEOUT, snapshot(0)), Served::Kept);
    assert_eq!(c.kept().unwrap().engine_util.len(), 4);
    assert_eq!(c.settle(3_000, 0xDEAD_BEEF, snapshot(0)), Served::Empty);
    assert_eq!(c.kept().unwrap().at_ms, 1_000);
    // What is not there is served as nothing, as of now.
    assert_eq!(c.settle(4_000, PDH_NO_DATA, snapshot(0)), Served::Kept);
    assert_eq!((c.kept().unwrap().at_ms, c.kept().unwrap().engine_util.len()), (4_000, 0));
}

#[test]
fn a_stream_is_planned_by_its_status() {
    assert_eq!(plan_stream(PDH_OK), StreamPlan::Wildcard);
    assert_eq!(plan_stream(PDH_CSTATUS_NO_OBJECT), StreamPlan::Absent);
    assert_eq!(plan_stream(PDH_CSTATUS_NO_COUNTER), StreamPlan::Absent);
    assert_eq!(plan_stream(PDH_INVALID_DATA), StreamPlan::Expand);
    assert!(!is_expansion_due(1_000, 1_001));
    assert!(is_expansion_due(1_000, 1_000_000));
    assert!(!is_expansion_due(1_000, 0));
}

#[test]
fn a_stream_without_instances_is_absent() {
    assert_eq!(plan_expanded(0), StreamPlan::Absent);
    assert_eq!(plan_expanded(1), StreamPlan::Expand);
}

#[test]
fn a_list_of_texts_splits_at_its_zeros() {
    let list: Vec<u16> = "one\0two\0\0three\0\0".encode_utf16().collect();
    let entries: Vec<String> =
        multi_sz_entries(&list).iter().map(|e| String::from_utf16_lossy(e)).collect();
    assert_eq!(entries, vec!["one", "two", "three"]);
    assert!(multi_sz_entries(&[]).is_empty());
    assert!(multi_sz_entries(&[0, 0]).is_empty());
    assert_eq!(multi_sz_entries(&[7]), vec![vec![7]]);
}

#[test]
fn a_software_adapter_is_no_device() {
    assert!(is_hardware(0));
    assert!(is_hardware(1));
    assert!(!is_hardware(2));
    assert!(!is_hardware(3));
}

#[test]
fn a_description_ends_at_its_first_zero() {
    assert_eq!(text_len(&[65, 66, 0, 67]), 2);
    assert_eq!(text_len(&[65, 66]), 2);
    assert_eq!(text_len(&[0, 65]), 0);
    assert_eq!(text_len(&[]), 0);
}

#[test]
fn a_share_is_told_as_its_counters_add_up() {
    let b = WddmBackend::init(vec![adapter(0, 0xC739, Some("0000:c1:00.0"), 0)]).unwrap();
    let dev = b.devices().remove(0);
    let told = |engine_util: Vec<RawItem>| {
        let snap = PdhSnapshot {
            at_ms: 5,
            engine_util: readings_of(&engine_util),
            proc_dedicated: Vec::new(),
            proc_shared: Vec::new(),
            adapter_dedicated: Vec::new(),
            adapter_shared: Vec::new(),
        };
        assert!(shares_add_up(&snap.engine_util));
        let s = b.refresh_dynamic(&dev, 9, &snap).unwrap();
        let ps = b.refresh_processes(&dev, &snap, &Vec::new()).unwrap();
        (s.util_pct, s.encoder_pct, ps.iter().map(|p| p.util_pct).collect::<Vec<_>>())
    };
    let name = "pid_10_luid_0x00000000_0x0000C739_phys_0_eng_0_engtype_VideoEncode";
    let other = "pid_11_luid_0x00000000_0x0000C739_phys_0_eng_0_engtype_VideoEncode";
    // A counter's glitch below zero is no idle engine.
    assert_eq!(
        told(vec![item(0, name, -5_000)]),
        (Some(-5_000), Some(-5_000), vec![Some(-5_000)])
    );
    assert_eq!(
        told(vec![item(0, name, -5_000), item(0, other, 2_000)]),
        (Some(-3_000), Some(-3_000), vec![Some(-5_000), Some(2_000)])
    );
    // Nor is there a largest share.
    assert_eq!(
        told(vec![item(0, name, 4_294_967_295), item(0, other, 5)]),
        (Some(4_294_967_300), Some(4_294_967_300), vec![Some(4_294_967_295), Some(5)])
    );
}

#[test]
fn shares_add_up_to_the_largest_number() {
    let name = "pid_10_luid_0x00000000_0x0000C739_phys_0_eng_0_engtype_3D";
    let of = |values: &[i64]| {
        readings_of(&values.iter().map(|v| item(0, name, *v)).collect::<Vec<_>>())
    };
    assert!(shares_add_up(&Vec::new()));
    assert!(shares_add_up(&of(&[i64::MAX])));
    assert!(shares_add_up(&of(&[i64::MAX - 7, -7])));
    assert!(!shares_add_up(&of(&[i64::MAX, 1])));
    assert!(!shares_add_up(&of(&[i64::MIN])));
}
