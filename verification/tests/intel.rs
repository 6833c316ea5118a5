use gpuviewer::drm::{cycles_util_pct, engine_util_pct, status_grants_full_proc_scan};
use gpuviewer::fdinfo::{parse_fdinfo, parse_mem_bytes, parse_suffixed};
use gpuviewer::intel::{energy_delta_mw, known_gpu_name};
use gpuviewer::model::ProcessKind;

#[test]
fn fdinfo_i915_keys_require_ns_suffix() {
    let blob = "drm-pdev:\t0000:03:00.0\ndrm-engine-render:\t123 ns\n\
                drm-engine-video:\t456 ns\ndrm-total-local0:\t786432 KiB\n";
    let f = parse_fdinfo(blob);
    assert_eq!(f.pdev.as_deref(), Some("0000:03:00.0"));
    assert_eq!(f.render_ns, Some(123));
    assert_eq!(f.video_ns, Some(456));
    assert_eq!(f.total_local_bytes, Some(786_432 * 1024));
    assert_eq!(f.compute_ns, None, "absent key stays None");
    assert_eq!(f.rcs_cycles, None, "no xe keys in an i915 blob");
    assert_eq!(parse_suffixed("123", "ns"), None);
    assert_eq!(parse_suffixed("123 ms", "ns"), None);
}

#[test]
fn fdinfo_xe_keys_are_bare_cycle_counts() {
    let blob = "drm-pdev:\t0000:03:00.0\ndrm-cycles-rcs:\t1000000\n\
                drm-total-cycles-rcs:\t50000000\ndrm-cycles-ccs:\t8000000\n\
                drm-total-vram0:\t2097152 KiB\ndrm-resident-vram0:\t1048576 KiB\n";
    let f = parse_fdinfo(blob);
    assert_eq!(f.rcs_cycles, Some(1_000_000));
    assert_eq!(f.rcs_total_cycles, Some(50_000_000));
    assert_eq!(f.ccs_cycles, Some(8_000_000));
    assert_eq!(f.total_local_bytes, Some(2_147_483_648));
    assert_eq!(f.resident_local_bytes, Some(1_073_741_824));
    assert_eq!(f.render_ns, None, "no i915 keys in an xe blob");
    assert_eq!(f.local_mem_bytes(), Some(2_147_483_648));
}

#[test]
fn mem_values_scale_per_drm_print_memory_stats() {
    assert_eq!(parse_mem_bytes("4096"), Some(4096));
    assert_eq!(parse_mem_bytes("4096 KiB"), Some(4_194_304));
    assert_eq!(parse_mem_bytes("12 MiB"), Some(12_582_912));
    assert_eq!(parse_mem_bytes("12 GiB"), None);
}

#[test]
fn hostile_fdinfo_values_cannot_panic_or_wrap() {
    assert_eq!(parse_mem_bytes("18446744073709551615 KiB"), None);
    assert_eq!(parse_mem_bytes("18446744073709551615 MiB"), None);
    let f = parse_fdinfo(
        "drm-engine-video:\t18446744073709551615 ns\ndrm-engine-video-enhance:\t1 ns\n",
    );
    assert_eq!(f.kind(), ProcessKind::Graphics);
    let f = parse_fdinfo(
        "drm-engine-compute:\t18446744073709551615 ns\ndrm-cycles-ccs:\t18446744073709551615\n",
    );
    assert_eq!(f.kind(), ProcessKind::Compute);
}

#[test]
fn i915_engine_util_needs_baseline_and_handles_resets() {
    assert_eq!(engine_util_pct(0, 0, 500_000_000, 1_000), Some(50_000));
    assert_eq!(engine_util_pct(900, 0, 100, 1_000), None);
    assert_eq!(engine_util_pct(0, 1_000, 100, 1_000), None);
    assert_eq!(engine_util_pct(0, 0, 10_000_000_000, 1_000), Some(100_000));
}

#[test]
fn xe_cycles_util_is_over_total_cycles_not_wall_time() {
    assert_eq!(
        cycles_util_pct(1_000_000, 50_000_000, 1_600_000, 51_200_000),
        Some(50_000)
    );
    assert_eq!(cycles_util_pct(900, 0, 100, 1_000), None);
    assert_eq!(cycles_util_pct(0, 900, 100, 100), None);
    assert_eq!(cycles_util_pct(0, 500, 100, 500), None);
    assert_eq!(cycles_util_pct(0, 0, 4_000, 1_000), Some(100_000));
}

#[test]
fn energy_delta_is_microjoules_over_milliseconds() {
    assert_eq!(energy_delta_mw(0, 0, 5_000_000, 1_000), Some(5_000));
    assert_eq!(energy_delta_mw(900, 0, 100, 1_000), None);
    assert_eq!(energy_delta_mw(0, 1_000, 100, 1_000), None);
}

#[test]
fn kind_is_honest_about_render_only_clients() {
    let render_only = parse_fdinfo("drm-engine-render:\t100 ns\n");
    assert_eq!(render_only.kind(), ProcessKind::Unknown);
    let media = parse_fdinfo("drm-engine-render:\t100 ns\ndrm-engine-video:\t5 ns\n");
    assert_eq!(media.kind(), ProcessKind::Graphics);
    let ccs_i915 = parse_fdinfo("drm-engine-compute:\t5 ns\n");
    assert_eq!(ccs_i915.kind(), ProcessKind::Compute);
    let ccs_xe = parse_fdinfo("drm-cycles-ccs:\t5\ndrm-cycles-rcs:\t9\n");
    assert_eq!(ccs_xe.kind(), ProcessKind::Compute);
    assert_eq!(parse_fdinfo("").kind(), ProcessKind::Unknown);
}

#[test]
fn intel_proc_status_privilege_detection() {
    assert!(status_grants_full_proc_scan(
        "Uid:\t1000\t0\t1000\t1000\nCapEff:\t0000000000000000"
    ));
    assert!(status_grants_full_proc_scan(
        "Uid:\t1000\t1000\t1000\t1000\nCapEff:\t0000000000080000"
    ));
    assert!(!status_grants_full_proc_scan(
        "Uid:\t1000\t1000\t1000\t1000\nCapEff:\t0000000000000000"
    ));
    assert!(!status_grants_full_proc_scan(""));
}

#[test]
fn known_arc_names_resolve_and_unknowns_do_not() {
    assert_eq!(known_gpu_name("56a0"), Some("Intel Arc A770"));
    assert_eq!(known_gpu_name("e20b"), Some("Intel Arc B580"));
    assert_eq!(
        known_gpu_name("46a6"),
        None,
        "iGPUs fall back to the PCI id"
    );
}

