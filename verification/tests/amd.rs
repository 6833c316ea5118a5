use gpuviewer::amd::{amdgpu_ids_name, dpm_current_mhz, dpm_max_mhz, fan_pct_of_max};
use gpuviewer::drm::{engine_util_pct, status_grants_full_proc_scan};
use gpuviewer::fdinfo::{kib_to_bytes, parse_fdinfo, parse_suffixed};

#[test]
fn dpm_table_parses_current_and_max_levels() {
    let table = "0: 500Mhz\n1: 1138Mhz *\n2: 2890Mhz\n";
    assert_eq!(dpm_current_mhz(table), Some(1138));
    assert_eq!(dpm_max_mhz(table), Some(2890));
    assert_eq!(dpm_current_mhz("garbage"), None);
    assert_eq!(dpm_max_mhz(""), None);
}

#[test]
fn fdinfo_unit_suffixes_are_mandatory() {
    let blob = "drm-pdev:\t0000:03:00.0\ndrm-engine-gfx:\t123 ns\ndrm-memory-vram:\t456 KiB\n";
    let f = parse_fdinfo(blob);
    assert_eq!(f.pdev.as_deref(), Some("0000:03:00.0"));
    assert_eq!(f.gfx_ns, Some(123));
    assert_eq!(f.vram_kib, Some(456));
    assert_eq!(f.compute_ns, None, "absent key stays None");
    assert_eq!(parse_suffixed("456", "KiB"), None);
    assert_eq!(parse_suffixed("456 MiB", "KiB"), None);
}

#[test]
fn engine_util_needs_baseline_and_handles_resets() {
    assert_eq!(engine_util_pct(0, 0, 500_000_000, 1_000), Some(50_000));
    assert_eq!(engine_util_pct(900, 0, 100, 1_000), None);
    assert_eq!(engine_util_pct(0, 1_000, 100, 1_000), None);
    assert_eq!(engine_util_pct(0, 0, 10_000_000_000, 1_000), Some(100_000));
}

#[test]
fn hostile_fdinfo_vram_cannot_panic_or_wrap() {
    assert_eq!(kib_to_bytes(456), Some(466_944));
    assert_eq!(kib_to_bytes(u64::MAX), None);
}

#[test]
fn fan_pct_rejects_non_physical_readings() {
    // Speeds are thousandths of a turn per minute; what is no finite number is missing.
    assert_eq!(fan_pct_of_max(Some(1_650_000), Some(3_300_000)), Some(50_000));
    assert_eq!(fan_pct_of_max(Some(4_000_000), Some(3_300_000)), Some(100_000));
    assert_eq!(fan_pct_of_max(None, None), None);
    assert_eq!(fan_pct_of_max(None, Some(3_300_000)), None);
    assert_eq!(fan_pct_of_max(Some(1_650_000), None), None);
    assert_eq!(fan_pct_of_max(Some(-500_000), Some(3_300_000)), None);
    assert_eq!(fan_pct_of_max(Some(1_650_000), Some(0)), None);
}

#[test]
fn amd_proc_status_privilege_detection() {
    assert!(status_grants_full_proc_scan(
        "Uid:\t1000\t0\t1000\t1000\nCapEff:\t0000000000000000"
    ));
    assert!(status_grants_full_proc_scan(
        "Uid:\t1000\t1000\t1000\t1000\nCapEff:\t0000000000080000"
    ));
    assert!(!status_grants_full_proc_scan(
        "Uid:\t1000\t1000\t1000\t1000\nCapEff:\t0000000000000000"
    ));
    assert!(!status_grants_full_proc_scan(""));
}

#[test]
fn amdgpu_ids_lookup_is_keyed_by_device_and_revision() {
    let ids = "# header\n1.0.0\n744C,\tC8,\tAMD Radeon RX 7900 XTX\n744C,\tCC,\tAMD Radeon RX 7900 XT\n";
    assert_eq!(
        amdgpu_ids_name(ids, "744c", "c8").as_deref(),
        Some("AMD Radeon RX 7900 XTX")
    );
    assert_eq!(
        amdgpu_ids_name(ids, "744c", "cc").as_deref(),
        Some("AMD Radeon RX 7900 XT")
    );
    assert_eq!(amdgpu_ids_name(ids, "744c", "ff"), None);
}

