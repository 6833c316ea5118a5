use gpuviewer::backend::{discover, Sighting};
use gpuviewer::model::DeviceId;

/// A backend with the devices it finds; those in `broken` it cannot describe.
struct ScriptedBackend {
    name: &'static str,
    ids: Vec<&'static str>,
    broken: Vec<&'static str>,
}

impl ScriptedBackend {
    fn new(name: &'static str, ids: &[&'static str]) -> Self {
        ScriptedBackend { name, ids: ids.to_vec(), broken: Vec::new() }
    }

    fn new_broken(name: &'static str, ids: &[&'static str], broken: &[&'static str]) -> Self {
        ScriptedBackend { name, ids: ids.to_vec(), broken: broken.to_vec() }
    }
}

/// The devices that register, each with the name of its backend, in the order of the backends.
fn registered(backends: Vec<ScriptedBackend>) -> Vec<(&'static str, DeviceId)> {
    let mut sightings = Vec::new();
    let mut names = Vec::new();
    for b in &backends {
        for id in &b.ids {
            sightings.push(Sighting {
                id: DeviceId((*id).into()),
                described: !b.broken.contains(id),
            });
            names.push(b.name);
        }
    }
    discover(&sightings).into_iter().map(|i| (names[i], sightings[i].id.clone())).collect()
}

#[test]
fn nvml_and_sysfs_spellings_keep_exactly_one_device_first_backend_wins() {
    let devices = registered(vec![
        ScriptedBackend::new("rich", &["00000000:03:00.0"]),
        ScriptedBackend::new("poor", &["0000:03:00.0"]),
    ]);
    assert_eq!(devices.len(), 1, "two spellings of one PCI address must register one device");
    assert_eq!(devices[0].0, "rich", "first backend in order wins");
    assert_eq!(
        devices[0].1,
        DeviceId("00000000:03:00.0".into()),
        "the survivor keeps the winning backend's original spelling"
    );
}

#[test]
fn case_variants_of_one_address_dedupe() {
    let devices = registered(vec![
        ScriptedBackend::new("rich", &["0000:0A:00.0"]),
        ScriptedBackend::new("poor", &["0000:0a:00.0"]),
    ]);
    assert_eq!(devices.len(), 1, "case variants must dedupe");
    assert_eq!(devices[0].0, "rich");
}

#[test]
fn survivor_follows_registry_order_not_spelling() {
    let devices = registered(vec![
        ScriptedBackend::new("poor", &["0000:03:00.0"]),
        ScriptedBackend::new("rich", &["00000000:03:00.0"]),
    ]);
    assert_eq!(devices.len(), 1);
    assert_eq!(devices[0].0, "poor", "reversing registry order must flip the survivor");
    assert_eq!(devices[0].1, DeviceId("0000:03:00.0".into()));
}

#[test]
fn distinct_pci_addresses_are_never_merged() {
    let devices = registered(vec![
        ScriptedBackend::new("rich", &["0000:03:00.0"]),
        ScriptedBackend::new("poor", &["0000:04:00.0", "0000:03:00.1"]),
    ]);
    assert_eq!(devices.len(), 3, "different bus and different function are different devices");
}

#[test]
fn dedupe_is_per_device_not_per_backend() {
    let devices = registered(vec![
        ScriptedBackend::new("rich", &["00000000:03:00.0"]),
        ScriptedBackend::new("poor", &["0000:03:00.0", "0000:05:00.0"]),
    ]);
    let labels: Vec<(&str, &str)> = devices.iter().map(|d| (d.0, d.1 .0.as_str())).collect();
    assert_eq!(
        labels,
        vec![("rich", "00000000:03:00.0"), ("poor", "0000:05:00.0")],
        "shared board goes to the first backend; the unshared board falls through"
    );
}

#[test]
fn non_pci_ids_never_merge_even_when_textually_identical() {
    let devices = registered(vec![
        ScriptedBackend::new("a", &["wddm:10de:2684:0", "mock:0"]),
        ScriptedBackend::new("b", &["wddm:10de:2684:0", "mock:0"]),
    ]);
    assert_eq!(devices.len(), 4, "synthetic ids must never dedupe");
}

#[test]
fn failed_static_info_does_not_claim_the_key() {
    let devices = registered(vec![
        ScriptedBackend::new_broken("rich", &["00000000:03:00.0"], &["00000000:03:00.0"]),
        ScriptedBackend::new("poor", &["0000:03:00.0"]),
    ]);
    assert_eq!(devices.len(), 1, "the board must still register exactly once");
    assert_eq!(
        devices[0].0, "poor",
        "a backend whose static_info failed must not block the fall-through"
    );
    assert_eq!(devices[0].1, DeviceId("0000:03:00.0".into()));
}

#[test]
fn every_described_device_is_registered_under_some_name() {
    let devices = registered(vec![
        ScriptedBackend::new_broken("a", &["mock:0", "0000:01:00.0"], &["mock:0"]),
        ScriptedBackend::new("b", &["mock:0", "00000000:01:00.0", "0000:02:00.0"]),
        ScriptedBackend::new("c", &["0000:02:00.0", "0000:01:00.0"]),
    ]);
    let labels: Vec<(&str, &str)> = devices.iter().map(|d| (d.0, d.1 .0.as_str())).collect();
    assert_eq!(labels, vec![("a", "0000:01:00.0"), ("b", "mock:0"), ("b", "0000:02:00.0")]);
}
