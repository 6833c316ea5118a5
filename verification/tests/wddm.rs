use gpuviewer::model::Vendor;
use gpuviewer::wddm::adapters::{bdf_string, synthetic_device_id, vendor_of};
use gpuviewer::wddm::image_basename;
use gpuviewer::wddm::pdh::{
    item_value_is_trustworthy, parse_instance, status_is_normal_absence, InstanceLuid,
    ParsedInstance, PDH_CSTATUS_INVALID_DATA, PDH_CSTATUS_NEW_DATA, PDH_CSTATUS_NO_COUNTER,
    PDH_CSTATUS_NO_INSTANCE, PDH_CSTATUS_NO_OBJECT, PDH_INVALID_DATA, PDH_MORE_DATA, PDH_NO_DATA,
    PDH_OK, PDH_QUERY_PERF_DATA_TIMEOUT,
};
use gpuviewer::wddm::per_pid::{adapter_bytes, per_pid_bytes, per_pid_util};
use gpuviewer::wddm::snapshot::PdhSnapshot;
use gpuviewer::wddm::sums::{device_util, engtype_util, Luid, Reading};

/// A reading of a share, in percent.
fn eng(pid: u32, luid: (u32, u32), engn: u32, ty: &str, v: f64) -> Reading {
    Reading {
        inst: ParsedInstance {
            pid: Some(pid),
            luid: Some(InstanceLuid(luid.0, luid.1)),
            phys: Some(0),
            part: None,
            eng: Some(engn),
            engtype: Some(ty.into()),
        },
        value: (v * 1000.0) as i64,
    }
}

/// A reading of a size, of a process or of an adapter.
fn memr(pid: Option<u32>, luid: (u32, u32), v: f64) -> Reading {
    Reading {
        inst: ParsedInstance {
            pid,
            luid: Some(InstanceLuid(luid.0, luid.1)),
            phys: Some(0),
            ..Default::default()
        },
        value: v as i64,
    }
}

fn at(high: i32, low: u32) -> Luid {
    Luid { high, low }
}

const LUID_A: (u32, u32) = (0, 0xC739);
const LUID_B: (u32, u32) = (0, 0xBEEF);

#[test]
fn parse_engine_instance_full_form() {
    let p = parse_instance("pid_1234_luid_0x00000000_0x0000C739_phys_0_eng_3_engtype_3D")
        .expect("canonical engine instance must parse");
    assert_eq!(p.pid, Some(1234));
    assert_eq!(p.luid, Some(InstanceLuid(0x0000_0000, 0x0000_C739)));
    assert_eq!(p.phys, Some(0));
    assert_eq!(p.eng, Some(3));
    assert_eq!(p.engtype.as_deref(), Some("3D"));
    assert_eq!(p.part, None);
}

#[test]
fn parse_process_memory_instance_without_engine_tokens() {
    let p = parse_instance("pid_8232_luid_0x00000000_0x0000C32D_phys_0")
        .expect("process-memory instance must parse");
    assert_eq!(p.pid, Some(8232));
    assert_eq!(p.luid, Some(InstanceLuid(0, 0x0000_C32D)));
    assert_eq!(p.phys, Some(0));
    assert_eq!(p.eng, None);
    assert_eq!(p.engtype, None);
}

#[test]
fn parse_adapter_memory_instance_has_no_pid() {
    let p = parse_instance("luid_0x00000000_0x0000C32D_phys_0")
        .expect("adapter-memory instance must parse");
    assert_eq!(p.pid, None);
    assert_eq!(p.luid, Some(InstanceLuid(0, 0x0000_C32D)));
    assert_eq!(p.phys, Some(0));
}

#[test]
fn parse_part_token_and_multi_word_engtype() {
    let p = parse_instance(
        "pid_4_luid_0x00000000_0x0000ABCD_phys_0_part_1_eng_2_engtype_Video_Decode",
    )
    .expect("part + multi-token engtype must parse");
    assert_eq!(p.part, Some(1));
    assert_eq!(p.eng, Some(2));
    assert_eq!(p.engtype.as_deref(), Some("Video_Decode"));
}

#[test]
fn parse_is_keyword_driven_not_positional() {
    let p = parse_instance("luid_0x00000000_0x0000C739_pid_77_phys_0")
        .expect("keyword-driven grammar must accept reordered tokens");
    assert_eq!(p.pid, Some(77));
    assert_eq!(p.luid, Some(InstanceLuid(0, 0xC739)));
}

#[test]
fn parse_rejects_malformed_decoys() {
    for (decoy, why) in [
        ("", "empty string"),
        ("_Total", "classic non-GPU PDH instance name"),
        ("Processor Information", "non-GPU object instance"),
        ("pid_12x4_luid_0x0_0x1_phys_0", "non-numeric pid"),
        ("pid_1234_luid_0x00000000", "luid missing its second DWORD"),
        (
            "pid_1234_luid_00000000_0000C739_phys_0",
            "luid parts without 0x prefix",
        ),
        ("pid_luid_0x0_0x1", "keyword where a value belongs"),
        (
            "pid_1234_luid_0x0_0x1_phys_0_eng_0_engtype_",
            "empty engtype",
        ),
        ("pid_1234_bogus_7", "unknown keyword"),
        (
            "pid_1234_luid_0x123456789_0x1_phys_0",
            "luid DWORD wider than 32 bits",
        ),
        ("___", "nothing but separators"),
    ] {
        assert_eq!(
            parse_instance(decoy),
            None,
            "must reject: {why} ({decoy:?})"
        );
    }
}

#[test]
fn luid_matching_verifies_both_parts_in_either_order() {
    let l = InstanceLuid(0x0000_0000, 0x0000_C739);
    assert!(l.matches(0, 0xC739), "observed order must match");
    assert!(
        InstanceLuid(0x0000_C739, 0x0000_0000).matches(0, 0xC739),
        "swapped printed order must also match (both parts verified)"
    );
    assert!(!l.matches(0, 0xC740), "one wrong part must not match");
    assert!(!l.matches(1, 0xC739), "one wrong part must not match");
    assert!(InstanceLuid(0xFFFF_FFFF, 0x10).matches(-1, 0x10));
}

#[test]
fn device_util_headline_is_busiest_engine_after_pid_sum() {
    let readings = vec![
        eng(1, LUID_A, 0, "3D", 30.0),
        eng(2, LUID_A, 0, "3D", 25.0),
        eng(1, LUID_A, 1, "Copy", 70.0),
    ];
    let h = device_util(&readings, at(0, 0xC739)).expect("matching instances → headline");
    assert_eq!(h.engtype, "Copy");
    assert_eq!(h.pct, 70_000);
}

#[test]
fn device_util_preserves_nocap100_sums_over_100() {
    let readings = vec![eng(1, LUID_A, 0, "3D", 60.0), eng(2, LUID_A, 0, "3D", 55.0)];
    let h = device_util(&readings, at(0, 0xC739)).unwrap();
    assert_eq!(h.pct, 115_000, "NOCAP100 sums must not be clamped to 100");
}

#[test]
fn luid_grouping_excludes_other_adapters() {
    let readings = vec![eng(1, LUID_A, 0, "3D", 40.0), eng(9, LUID_B, 0, "3D", 99.0)];
    let h = device_util(&readings, at(0, 0xC739)).unwrap();
    assert_eq!(h.pct, 40_000);
    let h = device_util(&readings, at(0, 0xBEEF)).unwrap();
    assert_eq!(h.pct, 99_000);
}

#[test]
fn unmatched_luid_instances_are_unattributed() {
    let readings = vec![eng(1, LUID_A, 0, "3D", 40.0)];
    assert_eq!(device_util(&readings, at(7, 0x1234)), None);
    assert!(per_pid_util(&readings, at(7, 0x1234)).len() == 0);
    let mem = vec![memr(Some(1), LUID_A, 1024.0)];
    assert!(per_pid_bytes(&mem, at(7, 0x1234)).len() == 0);
    assert_eq!(adapter_bytes(&mem, at(7, 0x1234)), None);
}

#[test]
fn engtype_sums_for_encoder_decoder_and_absent_is_none() {
    let readings = vec![
        eng(1, LUID_A, 4, "VideoEncode", 30.0),
        eng(2, LUID_A, 4, "VideoEncode", 20.0),
        eng(3, LUID_A, 5, "VideoEncode", 60.0),
        eng(1, LUID_A, 0, "3D", 90.0),
    ];
    assert_eq!(
        engtype_util(&readings, at(0, 0xC739), "VideoEncode"),
        Some(60_000)
    );
    assert_eq!(
        engtype_util(&readings, at(0, 0xC739), "videoencode"),
        Some(60_000)
    );
    assert_eq!(engtype_util(&readings, at(0, 0xC739), "VideoDecode"), None);
}

#[test]
fn per_pid_util_is_max_across_engines_and_names_the_busiest() {
    let readings = vec![
        eng(1, LUID_A, 0, "3D", 30.0),
        eng(1, LUID_A, 1, "Copy", 70.0),
        eng(2, LUID_A, 6, "Cuda", 15.0),
    ];
    let m = per_pid_util(&readings, at(0, 0xC739));
    let p1 = m.get(1).unwrap();
    assert_eq!(p1.pct, 70_000);
    assert_eq!(p1.busiest_engtype, "Copy");
    assert!(!p1.compute_hint);
    assert!(m.get(2).unwrap().compute_hint);
}

#[test]
fn per_pid_dedicated_bytes_join_by_pid() {
    let readings = vec![
        memr(Some(8232), LUID_A, 1_073_741_824.0),
        memr(Some(444), LUID_A, 52_428_800.0),
        memr(Some(8232), LUID_B, 999.0),
    ];
    let m = per_pid_bytes(&readings, at(0, 0xC739));
    assert_eq!(m.get(8232), Some(&1_073_741_824));
    assert_eq!(m.get(444), Some(&52_428_800));
    assert_eq!(m.len(), 2);
}

#[test]
fn adapter_bytes_sums_this_adapters_instances_only() {
    let a_phys1 = {
        let mut r = memr(None, LUID_A, 1_000.0);
        r.inst.phys = Some(1);
        r
    };
    let readings = vec![
        memr(None, LUID_A, 2_147_483_648.0),
        a_phys1,
        memr(None, LUID_B, 7.0),
    ];
    assert_eq!(adapter_bytes(&readings, at(0, 0xC739)), Some(2_147_484_648));
}

#[test]
fn absent_counters_yield_empty_aggregation() {
    let snap = PdhSnapshot::default();
    assert_eq!(device_util(&snap.engine_util, at(0, 0xC739)), None);
    assert_eq!(
        engtype_util(&snap.engine_util, at(0, 0xC739), "VideoEncode"),
        None
    );
    assert!(per_pid_util(&snap.engine_util, at(0, 0xC739)).len() == 0);
    assert!(per_pid_bytes(&snap.proc_dedicated, at(0, 0xC739)).len() == 0);
    assert_eq!(adapter_bytes(&snap.adapter_dedicated, at(0, 0xC739)), None);
}

#[test]
fn pdh_absence_status_codes_are_normal_outcomes() {
    for code in [
        PDH_CSTATUS_NO_OBJECT,
        PDH_CSTATUS_NO_COUNTER,
        PDH_CSTATUS_NO_INSTANCE,
        PDH_NO_DATA,
        PDH_CSTATUS_INVALID_DATA,
        PDH_INVALID_DATA,
        PDH_QUERY_PERF_DATA_TIMEOUT,
    ] {
        assert!(
            status_is_normal_absence(code),
            "0x{code:08X} is a normal absence, not an error"
        );
    }
    assert!(!status_is_normal_absence(PDH_OK));
    assert!(!status_is_normal_absence(PDH_MORE_DATA));
    assert!(item_value_is_trustworthy(PDH_OK));
    assert!(item_value_is_trustworthy(PDH_CSTATUS_NEW_DATA));
    assert!(!item_value_is_trustworthy(PDH_CSTATUS_INVALID_DATA));
}

#[test]
fn bdf_string_matches_collector_normalization() {
    assert_eq!(bdf_string(1, 0, 0).as_deref(), Some("0000:01:00.0"));
    assert_eq!(bdf_string(0x0A, 2, 0).as_deref(), Some("0000:0a:02.0"));
    assert_eq!(bdf_string(0xFF, 0x1F, 7).as_deref(), Some("0000:ff:1f.7"));
    assert_eq!(bdf_string(0x100, 0, 0), None);
    assert_eq!(bdf_string(0, 0x20, 0), None);
    assert_eq!(bdf_string(0, 0, 8), None);
}

#[test]
fn synthetic_id_refuses_pci_shape() {
    let id = synthetic_device_id(0x10DE, 0x2684, 0);
    assert_eq!(id, "wddm:10de:2684:0");
    let first_segment = id.split(':').next().unwrap();
    assert!(
        first_segment.bytes().any(|b| !b.is_ascii_hexdigit()),
        "first segment must not be pure hex, or it could dedupe as PCI: {id}"
    );
}

#[test]
fn vendor_of_maps_pci_vendor_ids() {
    assert_eq!(vendor_of(0x10DE), Vendor::Nvidia);
    assert_eq!(vendor_of(0x1002), Vendor::Amd);
    assert_eq!(vendor_of(0x8086), Vendor::Intel);
    assert_eq!(vendor_of(0x1414), Vendor::Unknown);
    assert_eq!(vendor_of(0xABCD), Vendor::Unknown);
}

#[test]
fn image_basename_trims_both_separator_kinds() {
    assert_eq!(image_basename(r"C:\Windows\System32\dwm.exe"), "dwm.exe");
    assert_eq!(image_basename("/usr/bin/python3"), "python3");
    assert_eq!(image_basename("bare.exe"), "bare.exe");
    assert_eq!(image_basename(r"C:\odd\"), r"C:\odd\");
}


#[test]
fn groups_may_stand_in_any_order() {
    let groups = ["pid_77", "luid_0x0_0xC739", "phys_1", "part_2", "eng_3"];
    for first in 0..groups.len() {
        for second in 0..groups.len() {
            if first == second {
                continue;
            }
            let mut order = vec![groups[first], groups[second]];
            order.extend((0..groups.len()).filter(|i| *i != first && *i != second).map(|i| groups[i]));
            let p = parse_instance(&format!("{}_engtype_Video_Decode", order.join("_"))).unwrap();
            assert_eq!((p.pid, p.phys, p.part, p.eng), (Some(77), Some(1), Some(2), Some(3)));
            assert_eq!(p.luid, Some(InstanceLuid(0, 0xC739)));
            assert_eq!(p.engtype.as_deref(), Some("Video_Decode"));
        }
    }
    let p = parse_instance("eng_3_pid_77").unwrap();
    assert_eq!((p.pid, p.eng, p.phys, p.part), (Some(77), Some(3), None, None));
    assert_eq!((p.luid, p.engtype), (None, None));
}
