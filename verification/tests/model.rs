use gpuviewer::model::{fmt_bytes, now_ms, DeviceId, ProcessKind, ThrottleReasons, Vendor};
use gpuviewer::pci::normalize_pci_id;

fn by_float(b: u64) -> String {
    const GIB: f64 = 1024.0 * 1024.0 * 1024.0;
    const MIB: f64 = 1024.0 * 1024.0;
    let b = b as f64;
    if b >= GIB {
        format!("{:.1} GiB", b / GIB)
    } else {
        format!("{:.0} MiB", b / MIB)
    }
}

#[test]
fn sizes_print_as_double_precision_does() {
    let mut sizes: Vec<u64> = vec![
        0, 1, 524_287, 524_288, 524_289, 1 << 20, (1 << 20) + (1 << 19), (5 << 19), 1 << 30,
        (1 << 30) - 1, (1 << 30) - (1 << 19), (1 << 30) + (1 << 28), (1 << 30) + (3 << 28),
        u64::MAX, u64::MAX - 1023, u64::MAX - 1024, 1 << 53, (1 << 53) + 1, (1 << 53) + 3,
    ];
    let mut x: u64 = 88172645463325252;
    for i in 0..20000u64 {
        x ^= x << 13;
        x ^= x >> 7;
        x ^= x << 17;
        sizes.push(x >> (i % 40));
    }
    for b in sizes {
        assert_eq!(fmt_bytes(b), by_float(b), "{b}");
    }
}

#[test]
fn normalize_pci_id_unifies_nvml_and_sysfs_forms() {
    assert_eq!(
        normalize_pci_id("00000000:01:00.0").as_deref(),
        Some("0000:01:00.0")
    );
    assert_eq!(
        normalize_pci_id("0000:01:00.0").as_deref(),
        Some("0000:01:00.0")
    );
    assert_eq!(
        normalize_pci_id("00000000:0A:00.0").as_deref(),
        Some("0000:0a:00.0")
    );
    assert_eq!(
        normalize_pci_id("00000001:03:00.0").as_deref(),
        Some("0001:03:00.0")
    );
    assert_eq!(
        normalize_pci_id("0001:03:00.0").as_deref(),
        Some("0001:03:00.0")
    );
}

#[test]
fn normalize_pci_id_rejects_non_pci_ids() {
    assert_eq!(normalize_pci_id("mock:0000:01:00.0"), None);
    assert_eq!(normalize_pci_id("nvml:0"), None);
    assert_eq!(normalize_pci_id("wddm:10de:2684:0"), None);
    assert_eq!(normalize_pci_id("apple:m2-max"), None);
    assert_eq!(normalize_pci_id(""), None);
    assert_eq!(normalize_pci_id("0000:01:00"), None);
    assert_eq!(normalize_pci_id("0000:01:00.0.1"), None);
    assert_eq!(normalize_pci_id("0000:01:02:00.0"), None);
}

#[test]
fn throttle_none_is_a_distinct_state_from_observed_all_false() {
    let unobservable: Option<ThrottleReasons> = None;
    let observed_quiet = Some(ThrottleReasons::default());
    assert_ne!(unobservable, observed_quiet);
    assert!(!unobservable.is_some_and(|t| t.any()));
    assert!(!observed_quiet.is_some_and(|t| t.any()));
}

#[test]
fn the_clock_is_that_of_the_system() {
    let before = now_ms();
    // Later than the start of 2023, and not going back.
    assert!(before > 1_672_531_200_000);
    assert!(now_ms() >= before);
}

#[test]
fn labels_are_in_order_and_complete() {
    let all = ThrottleReasons {
        thermal: true,
        power_cap: true,
        hw_slowdown: true,
        sync_boost: true,
        other: true,
    };
    assert_eq!(all.labels(), vec!["thermal", "power cap", "hw slowdown", "sync boost", "other"]);
    assert!(ThrottleReasons::default().labels().is_empty());
    assert!(all.any());
    assert_eq!(Vendor::Amd.label(), "AMD");
    assert_eq!(Vendor::Unknown.label(), "GPU");
    assert_eq!(ProcessKind::Both.label(), "C+G");
    assert_eq!(ProcessKind::Both.prose(), "compute+graphics");
    assert_eq!(DeviceId("a".to_string()).text(), "a");
}

#[test]
fn the_normal_spelling_is_its_own() {
    for id in ["00000000:0A:00.0", "0:1:0.0", "00000001:03:00.0", "ABCDEF01:f:1.7"] {
        let n = normalize_pci_id(id).unwrap();
        assert_eq!(normalize_pci_id(&n).as_deref(), Some(n.as_str()));
        assert_eq!(normalize_pci_id(&id.to_lowercase()), Some(n));
    }
    assert_ne!(normalize_pci_id("0:1:0.0"), normalize_pci_id("0:10:0.0"));
}

#[test]
fn an_address_has_one_key_in_all_spellings() {
    let spellings = ["0:a:1.f", "00:0A:01.F", "0000:0a:1.f", "00000000:A:01.f"];
    for s in spellings {
        assert_eq!(normalize_pci_id(s).as_deref(), Some("0000:0a:01.f"), "{s}");
    }
    assert_eq!(normalize_pci_id("12345:0:0.0"), normalize_pci_id("00012345:00:00.0"));
    assert_ne!(normalize_pci_id("0:a:1.f"), normalize_pci_id("0:a:1.e"));
    assert_ne!(normalize_pci_id("1:a:1.f"), normalize_pci_id("10:a:1.f"));
}
