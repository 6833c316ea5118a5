use gpuviewer::nvidia::{
    classify_driver_model_err, explicit_lib_path_for, is_wsl, should_retry_v2,
    used_gpu_memory_bytes, windows_process_hint, windows_source_caveat, DriverModelClass,
    NvmlFailure, PdhAttribution, UsedMemory,
};
use gpuviewer::model::ThrottleReasons;
use nvml_wrapper::bitmasks::device::ThrottleReasons as NvmlThrottle;

fn map_throttle(bits: NvmlThrottle) -> ThrottleReasons {
    gpuviewer::nvidia::map_throttle(bits.bits())
}

#[test]
fn is_wsl_matches_real_kernel_release_strings() {
    assert!(is_wsl("5.15.167.4-microsoft-standard-WSL2"));
    assert!(is_wsl("4.4.0-19041-Microsoft"));
    assert!(!is_wsl("6.17.0-35-generic"));
    assert!(!is_wsl(""));
}

#[test]
fn throttle_sw_power_cap_maps_to_power_cap() {
    let r = map_throttle(NvmlThrottle::SW_POWER_CAP);
    assert!(r.power_cap);
    assert!(!r.thermal && !r.hw_slowdown && !r.sync_boost && !r.other);
}

#[test]
fn throttle_both_thermal_tiers_map_to_thermal() {
    assert!(map_throttle(NvmlThrottle::SW_THERMAL_SLOWDOWN).thermal);
    assert!(map_throttle(NvmlThrottle::HW_THERMAL_SLOWDOWN).thermal);
    let both =
        map_throttle(NvmlThrottle::SW_THERMAL_SLOWDOWN | NvmlThrottle::HW_THERMAL_SLOWDOWN);
    assert!(both.thermal && !both.power_cap && !both.hw_slowdown);
}

#[test]
fn throttle_hw_slowdown_and_power_brake_map_to_hw_slowdown() {
    assert!(map_throttle(NvmlThrottle::HW_SLOWDOWN).hw_slowdown);
    assert!(map_throttle(NvmlThrottle::HW_POWER_BRAKE_SLOWDOWN).hw_slowdown);
    let both = map_throttle(NvmlThrottle::HW_SLOWDOWN | NvmlThrottle::HW_POWER_BRAKE_SLOWDOWN);
    assert!(both.hw_slowdown && !both.thermal && !both.power_cap);
}

#[test]
fn throttle_sync_boost_maps_to_sync_boost() {
    let r = map_throttle(NvmlThrottle::SYNC_BOOST);
    assert!(r.sync_boost);
    assert!(!r.thermal && !r.power_cap && !r.hw_slowdown && !r.other);
}

#[test]
fn throttle_clock_config_bits_map_to_other() {
    let app = map_throttle(NvmlThrottle::APPLICATIONS_CLOCKS_SETTING);
    assert!(app.other);
    assert!(!app.thermal && !app.power_cap && !app.hw_slowdown && !app.sync_boost);
    let disp = map_throttle(NvmlThrottle::DISPLAY_CLOCK_SETTING);
    assert!(disp.other);
    assert!(!disp.thermal && !disp.power_cap && !disp.hw_slowdown && !disp.sync_boost);
}

#[test]
fn throttle_unknown_future_bit_maps_to_other() {
    let future = NvmlThrottle::from_bits_retain(1 << 40);
    let r = map_throttle(future);
    assert!(
        r.other,
        "unrecognized bit must surface as other, not vanish"
    );
    assert!(!r.thermal && !r.power_cap && !r.hw_slowdown && !r.sync_boost);
}

#[test]
fn throttle_idle_and_none_set_nothing() {
    assert!(!map_throttle(NvmlThrottle::GPU_IDLE).any());
    assert!(!map_throttle(NvmlThrottle::NONE).any());
    assert!(!map_throttle(NvmlThrottle::empty()).any());
    let mixed = map_throttle(NvmlThrottle::GPU_IDLE | NvmlThrottle::SW_POWER_CAP);
    assert!(mixed.power_cap);
}

#[test]
fn throttle_combined_reasons_set_all_relevant() {
    let r = map_throttle(NvmlThrottle::SW_POWER_CAP | NvmlThrottle::HW_THERMAL_SLOWDOWN);
    assert!(r.power_cap && r.thermal);
    assert!(!r.hw_slowdown && !r.sync_boost && !r.other);
}

#[test]
fn lib_path_linux_tries_versioned_soname_first() {
    assert_eq!(explicit_lib_path_for("linux"), Some("libnvidia-ml.so.1"));
}

#[test]
fn lib_path_windows_relies_on_system32_default_search() {
    assert_eq!(explicit_lib_path_for("windows"), None);
}

#[test]
fn v2_process_list_retry_only_on_missing_v3_symbol() {
    assert!(should_retry_v2(&NvmlFailure::FailedToLoadSymbol));
    // Every other failure already means that there is no list at this tick.
    assert!(!should_retry_v2(&NvmlFailure::Other));
    assert!(!should_retry_v2(&NvmlFailure::UnexpectedVariant));
}

#[test]
fn wddm_per_process_memory_unavailable_is_none_never_zero() {
    assert_eq!(used_gpu_memory_bytes(&UsedMemory::Unavailable), None);
    assert_eq!(
        used_gpu_memory_bytes(&UsedMemory::Used(123_456_789)),
        Some(123_456_789)
    );
}

#[test]
fn driver_model_hint_wddm_names_only_a_source_that_delivers() {
    let hint = windows_process_hint(DriverModelClass::Wddm, PdhAttribution::Available)
        .expect("WDDM must come with an explanation");
    assert!(
        hint.contains("WDDM") && hint.contains("NVML"),
        "hint must name the driver model and why NVML is not the source: {hint}"
    );
    let hint = windows_process_hint(DriverModelClass::Wddm, PdhAttribution::NoLuidMatch)
        .expect("a failed match must be explained");
    assert!(
        hint.contains("unavailable") && hint.contains("match failed"),
        "failed match must read as unavailable, not as a working source: {hint}"
    );
    let hint = windows_process_hint(DriverModelClass::Wddm, PdhAttribution::NoPdh)
        .expect("missing PDH must be explained");
    assert!(hint.contains("unavailable"), "{hint}");
}

#[test]
fn driver_model_hint_tcc_has_nothing_to_explain() {
    assert_eq!(
        windows_process_hint(DriverModelClass::Tcc, PdhAttribution::Available),
        None
    );
    assert_eq!(
        windows_process_hint(DriverModelClass::Tcc, PdhAttribution::NoPdh),
        None
    );
}

#[test]
fn driver_model_hint_unknown_model_is_flagged_not_fatal() {
    let hint =
        windows_process_hint(DriverModelClass::UnknownVariant, PdhAttribution::Available)
            .expect("an unknown driver model must be flagged");
    assert!(
        hint.contains("unknown"),
        "hint must say the model is unknown: {hint}"
    );
}

#[test]
fn windows_source_caveat_names_the_real_memory_source() {
    let c = windows_source_caveat(PdhAttribution::Available).unwrap();
    assert!(c.contains("VidMm") && c.contains("PDH"), "{c}");
    for pdh in [PdhAttribution::NoLuidMatch, PdhAttribution::NoPdh] {
        let c = windows_source_caveat(pdh).unwrap();
        assert!(
            c.contains("driver's view") && !c.contains("PDH"),
            "fallback caveat must label the driver view, not PDH: {c}"
        );
    }
}

#[test]
fn driver_model_classification_handles_mcdm_and_query_failure() {
    assert_eq!(
        classify_driver_model_err(&NvmlFailure::UnexpectedVariant),
        DriverModelClass::UnknownVariant
    );
    assert_eq!(classify_driver_model_err(&NvmlFailure::Other), DriverModelClass::Wddm);
    assert_eq!(
        classify_driver_model_err(&NvmlFailure::FailedToLoadSymbol),
        DriverModelClass::Wddm
    );
}

