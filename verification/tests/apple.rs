use gpuviewer::apple::backend::{AppleBackend, MetalInfo};
use gpuviewer::apple::parse::{
    energy_unit, is_gpu_energy_channel, is_gpu_perf_states_channel, is_idle_state, parse_channels,
    parse_hex, parse_states, parse_voltage_states, perf_stats_from_pairs, power_mw_from_energy,
    util_pct_from_residency, weighted_freq_mhz, ChannelDesc, EnergyUnit, PerfStats, Residency,
    StatPair,
};
use gpuviewer::apple::{device_id_for, tier_a_source_caveat, MEM_TOTAL_CAVEAT, PROCESS_HINT, SOURCE_CAVEAT};
use gpuviewer::backend::BackendError;
use gpuviewer::model::{DeviceId, Vendor};

fn fixture(name: &str) -> String {
    match name {
        "channels-m2.txt" => "# one die\n\
            channel|Energy Model||ECPU Energy|mJ\n\
            channel|Energy Model||GPU Energy|mJ\n\
            channel|Energy Counters||GPU Energy|mJ\n\
            channel|GPU Stats|GPU Performance States|GPUPH|24Mticks\n\
            channel|GPU Stats|CLPC Stats|GPUPH|24Mticks\n\
            state|OFF|600000\n"
            .to_string(),
        "channels-m2-ultra.txt" => "channel|Energy Model||DIE_0_GPU Energy|mJ\n\
            channel|Energy Model||DIE_0_ANE|mJ\n\
            channel|Energy Model||DIE_1_GPU Energy|mJ\n\
            channel|GPU Stats|GPU Performance States|DIE_0_GPUPH|24Mticks\n\
            channel|GPU Stats|GPU Performance States|DIE_1_GPUPH|24Mticks\n"
            .to_string(),
        "channels-m4-nj.txt" => "channel|Energy Model||GPU Energy|nJ\n\
            channel|Energy Model||DRAM|mJ\n"
            .to_string(),
        "gpuph-m2.txt" => "# ticks of an interval\n\
            state|OFF|600000\n\
            state|P1|100000\n\
            state|P2|50000\n\
            state|P3|150000\n\
            state|P4|50000\n\
            state|P5| 50000 \n"
            .to_string(),
        "voltage-states9-m2.hex" => "# frequency voltage, lowest byte first\n\
            00000000 00000000\n\
            00e7761a bc020000 # 444 MHz\n\
            00617a24 bc020000\n\
            001a2930 bc020000\n\
            005a6b3f bc020000\n\
            80c95353 bc020000\n"
            .to_string(),
        "voltage-states9-khz-synthetic.hex" => "88ef0500 58020000\n\
            50040b00 58020000\n\
            e6030000 84030000\n"
            .to_string(),
        _ => panic!("fixture {name}"),
    }
}

fn stat(key: &str, value: f64) -> StatPair {
    StatPair {
        key: key.to_string(),
        value: if value.is_finite() { Some((value * 1000.0) as i128) } else { None },
    }
}

fn state(name: &str, ticks: u64) -> Residency {
    Residency { name: name.to_string(), ticks }
}

#[test]
fn device_id_is_stable_slug_of_chip_name() {
    assert_eq!(device_id_for("Apple M2 Max").0, "apple:m2-max");
    assert_eq!(device_id_for("Apple M1").0, "apple:m1");
    assert_eq!(
        device_id_for("Apple Paravirtual device").0,
        "apple:paravirtual-device"
    );
    assert_eq!(device_id_for("").0, "apple:unknown");
    assert_eq!(device_id_for("  --  ").0, "apple:unknown");
    assert!(
        !device_id_for("Apple M3 Pro").0.contains(':')
            || device_id_for("Apple M3 Pro").0.starts_with("apple:")
    );
}

#[test]
fn process_hint_blames_the_os_not_the_app() {
    assert!(PROCESS_HINT.contains("macOS"));
    assert!(PROCESS_HINT.contains("does not expose"));
    assert!(PROCESS_HINT.contains("device-level"));
}

#[test]
fn tier_a_caveat_follows_the_hardwares_unified_memory_answer() {
    for unified in [Some(true), None] {
        let c = tier_a_source_caveat(unified);
        assert!(c.contains("working-set budget"), "{c}");
        assert!(c.contains("unified memory"), "{c}");
    }
    let c = tier_a_source_caveat(Some(false));
    assert!(c.contains("working-set budget"), "{c}");
    assert!(!c.contains("unified"), "{c}");
}

#[test]
fn energy_unit_labels_decode_and_unknown_unit_is_none() {
    assert_eq!(energy_unit("mJ"), Some(EnergyUnit::Millijoules));
    assert_eq!(energy_unit(" uJ "), Some(EnergyUnit::Microjoules));
    assert_eq!(energy_unit("µJ"), Some(EnergyUnit::Microjoules));
    assert_eq!(energy_unit("nJ"), Some(EnergyUnit::Nanojoules));
    assert_eq!(energy_unit("J"), None);
    assert_eq!(energy_unit("mW"), None);
    assert_eq!(energy_unit(""), None);
}

#[test]
fn power_math_converts_mj_uj_nj_to_milliwatts() {
    assert_eq!(
        power_mw_from_energy(5_000, EnergyUnit::Millijoules, 1_000),
        Some(5_000)
    );
    assert_eq!(
        power_mw_from_energy(5_000_000, EnergyUnit::Microjoules, 1_000),
        Some(5_000)
    );
    assert_eq!(
        power_mw_from_energy(5_000_000_000, EnergyUnit::Nanojoules, 1_000),
        Some(5_000)
    );
    assert_eq!(
        power_mw_from_energy(250, EnergyUnit::Millijoules, 2_000),
        Some(125)
    );
}

#[test]
fn power_math_refuses_zero_interval_and_survives_huge_deltas() {
    assert_eq!(
        power_mw_from_energy(5_000, EnergyUnit::Millijoules, 0),
        None
    );
    assert_eq!(
        power_mw_from_energy(u64::MAX, EnergyUnit::Millijoules, 1),
        Some(u32::MAX)
    );
    assert_eq!(
        power_mw_from_energy(0, EnergyUnit::Nanojoules, 1_000),
        Some(0)
    );
}

#[test]
fn gpu_energy_channel_matching_handles_die_prefixes_and_skips_decoys() {
    let single = parse_channels(&fixture("channels-m2.txt"));
    let gpu: Vec<&ChannelDesc> = single.iter().filter(|c| is_gpu_energy_channel(c)).collect();
    assert_eq!(
        gpu.len(),
        1,
        "exactly one GPU energy channel on a single die"
    );
    assert_eq!(gpu[0].channel, "GPU Energy");
    assert_eq!(energy_unit(&gpu[0].unit), Some(EnergyUnit::Millijoules));

    let ultra = parse_channels(&fixture("channels-m2-ultra.txt"));
    let dies: Vec<&str> = ultra
        .iter()
        .filter(|c| is_gpu_energy_channel(c))
        .map(|c| c.channel.as_str())
        .collect();
    assert_eq!(dies, vec!["DIE_0_GPU Energy", "DIE_1_GPU Energy"]);

    let nj = parse_channels(&fixture("channels-m4-nj.txt"));
    let gpu_nj: Vec<&ChannelDesc> = nj.iter().filter(|c| is_gpu_energy_channel(c)).collect();
    assert_eq!(gpu_nj.len(), 1);
    assert_eq!(energy_unit(&gpu_nj[0].unit), Some(EnergyUnit::Nanojoules));
}

#[test]
fn gpuph_channel_requires_exact_group_and_subgroup() {
    let chans = parse_channels(&fixture("channels-m2.txt"));
    let ph: Vec<&ChannelDesc> = chans
        .iter()
        .filter(|c| is_gpu_perf_states_channel(c))
        .collect();
    assert_eq!(ph.len(), 1);
    assert_eq!(ph[0].subgroup, "GPU Performance States");

    let ultra = parse_channels(&fixture("channels-m2-ultra.txt"));
    let dies: Vec<&str> = ultra
        .iter()
        .filter(|c| is_gpu_perf_states_channel(c))
        .map(|c| c.channel.as_str())
        .collect();
    assert_eq!(dies, vec!["DIE_0_GPUPH", "DIE_1_GPUPH"]);
}

#[test]
fn residency_math_computes_active_fraction_from_fixture() {
    let states = parse_states(&fixture("gpuph-m2.txt"));
    assert_eq!(states.len(), 6, "fixture carries OFF + five P-states");
    let util = util_pct_from_residency(&states).expect("fixture has ticks");
    assert_eq!(util, 40_000);
}

#[test]
fn residency_math_is_none_when_total_is_zero() {
    let empty: Vec<Residency> = vec![];
    assert_eq!(util_pct_from_residency(&empty), None);
    let zeros = vec![state("OFF", 0), state("P1", 0)];
    assert_eq!(util_pct_from_residency(&zeros), None);
}

#[test]
fn idle_state_names_match_macmon_inventory() {
    assert!(is_idle_state("OFF"));
    assert!(is_idle_state("off"));
    assert!(is_idle_state("IDLE"));
    assert!(is_idle_state("IDLE2"));
    assert!(!is_idle_state("P1"));
    assert!(!is_idle_state("TURBO"));
}

#[test]
fn weighted_freq_weights_active_states_from_fixtures() {
    let states = parse_states(&fixture("gpuph-m2.txt"));
    let raw = parse_hex(&fixture("voltage-states9-m2.hex")).expect("valid hex fixture");
    let dvfs = parse_voltage_states(&raw);
    assert_eq!(dvfs, vec![444, 612, 808, 1064, 1398]);
    assert_eq!(weighted_freq_mhz(&states, &dvfs), Some(798));
}

#[test]
fn weighted_freq_refuses_dvfs_state_count_mismatch() {
    let states = parse_states(&fixture("gpuph-m2.txt"));
    assert_eq!(weighted_freq_mhz(&states, &vec![444, 612, 808, 1064]), None);
    assert_eq!(weighted_freq_mhz(&states, &vec![]), None);
    assert_eq!(weighted_freq_mhz(&vec![], &vec![444]), None);
}

#[test]
fn weighted_freq_is_zero_when_gpu_measured_fully_idle() {
    let states = vec![
        state("OFF", 1_000_000),
        state("P1", 0),
        state("P2", 0),
    ];
    assert_eq!(weighted_freq_mhz(&states, &vec![444, 612]), Some(0));
}

#[test]
fn voltage_states9_decoder_normalizes_hz_khz_and_drops_zero_rows() {
    let raw = parse_hex(&fixture("voltage-states9-khz-synthetic.hex")).expect("valid hex");
    assert_eq!(parse_voltage_states(&raw), vec![389, 722, 998]);
    assert_eq!(parse_voltage_states(&[0x01, 0x02, 0x03]), Vec::<u32>::new());
    assert_eq!(parse_hex("zz"), None);
    assert_eq!(parse_hex("abc"), None);
}

#[test]
fn perf_stats_every_key_optional_and_decoy_keys_ignored() {
    assert_eq!(perf_stats_from_pairs(&vec![]), PerfStats::default());

    let pairs = vec![
        stat("Device Utilization %", 37.0),
        stat("Device Utilization at cur p-state", 99.0),
        stat("In use system memory", 3_221_225_472.0),
        stat("Alloc system memory", 9_999_999_999.0),
        stat("Temperature(C)", 55.0),
    ];
    let stats = perf_stats_from_pairs(&pairs);
    assert_eq!(stats.device_util_pct, Some(37_000));
    assert_eq!(stats.renderer_util_pct, None, "absent key stays None");
    assert_eq!(stats.tiler_util_pct, None);
    assert_eq!(stats.in_use_system_memory_bytes, Some(3 << 30));
}

#[test]
fn perf_stats_negative_values_are_garbage_not_zero() {
    let pairs = vec![
        stat("Device Utilization %", -1.0),
        stat("In use system memory", -4096.0),
        stat("Renderer Utilization %", f64::NAN),
    ];
    let stats = perf_stats_from_pairs(&pairs);
    assert_eq!(stats.device_util_pct, None);
    assert_eq!(stats.in_use_system_memory_bytes, None);
    assert_eq!(stats.renderer_util_pct, None);
}

#[test]
fn perf_stats_have_no_largest_share() {
    let stats = perf_stats_from_pairs(&vec![stat("Tiler Utilization %", 5_000_000.0)]);
    assert_eq!(stats.tiler_util_pct, Some(5_000_000_000));
}

#[test]
fn channel_fixture_lines_roundtrip() {
    let c = ChannelDesc {
        group: "Energy Model".into(),
        subgroup: String::new(),
        channel: "DIE_0_GPU Energy".into(),
        unit: "mJ".into(),
    };
    assert_eq!(ChannelDesc::from_line(&c.to_line()), Some(c));
    assert_eq!(ChannelDesc::from_line("# comment"), None);
    assert_eq!(ChannelDesc::from_line("state|OFF|123"), None);
    assert_eq!(ChannelDesc::from_line("channel|too|few"), None);
}

#[test]
fn apple_backend_smoke_device_level_only() {
    let b = AppleBackend::init(Some(MetalInfo {
        name: Some("Apple Paravirtual device".to_string()),
        has_unified_memory: Some(true),
        working_set_bytes: Some(1 << 33),
    }))
    .unwrap();
    let devs = b.devices();
    assert_eq!(devs.len(), 1, "Apple Silicon has exactly one GPU");
    assert!(devs[0].0.starts_with("apple:"));

    let info = b.static_info(&devs[0]).expect("static info for own device");
    assert!(!info.name.is_empty(), "paravirt device still has a name");
    assert_eq!(
        info.process_hint.as_deref(),
        Some(PROCESS_HINT),
        "the OS-prohibition explainer must always ship"
    );
    assert_eq!(info.source_caveat.as_deref(), Some(tier_a_source_caveat(b.unified_memory())));
    assert_eq!(info.vendor, Vendor::Apple);
    assert_eq!(info.mem_total_bytes, Some(1 << 33));

    let s = b.refresh_dynamic(&devs[0], 7).expect("dynamic refresh");
    assert!(s.ts_ms > 0);
    assert!(s.util_pct.is_none());
    assert!(s.mem_used_bytes.is_none());
    assert!(s.power_mw.is_none());
    assert!(s.sm_clock_mhz.is_none());
    assert!(s.temp_c.is_none() && s.fan_pct.is_none());
    assert_eq!(s.throttle, None);

    let procs = b.refresh_processes(&devs[0]).expect("process refresh");
    assert!(procs.is_empty(), "per-process is OS-prohibited on macOS");

    let bogus = DeviceId("apple:not-this-one".into());
    assert!(matches!(b.static_info(&bogus), Err(BackendError::DeviceNotFound(_))));
    assert!(b.refresh_dynamic(&bogus, 7).is_err());
    assert!(b.refresh_processes(&bogus).is_err());
}

#[test]
fn a_machine_without_a_device_has_no_backend() {
    match AppleBackend::init(None) {
        Err(e) => assert_eq!(
            e.text(),
            "unavailable: no default Metal device (Metal is this backend's floor)"
        ),
        Ok(_) => panic!("no device, no backend"),
    }
    // A device that tells nothing of itself has a general name, and a budget of nothing is none.
    let b = AppleBackend::init(Some(MetalInfo {
        name: None,
        has_unified_memory: Some(false),
        working_set_bytes: Some(0),
    }))
    .unwrap();
    let id = b.devices().remove(0);
    assert_eq!(id.0, "apple:gpu");
    let info = b.static_info(&id).unwrap();
    assert_eq!(info.name, "Apple GPU");
    assert_eq!(info.mem_total_bytes, None);
    assert_ne!(info.source_caveat.as_deref(), Some(MEM_TOTAL_CAVEAT));
    assert!(SOURCE_CAVEAT.contains("undocumented"));
    assert_eq!(b.name(), "apple");
}

#[test]
fn power_rounds_to_the_nearest_milliwatt() {
    assert_eq!(power_mw_from_energy(3, EnergyUnit::Microjoules, 2), Some(2));
    assert_eq!(power_mw_from_energy(4, EnergyUnit::Microjoules, 3), Some(1));
    assert_eq!(power_mw_from_energy(1_499, EnergyUnit::Nanojoules, 1), Some(1));
    assert_eq!(power_mw_from_energy(1_500, EnergyUnit::Nanojoules, 1), Some(2));
}

#[test]
fn shares_of_many_ticks_do_not_overflow() {
    let s = vec![state("OFF", u64::MAX), state("P1", u64::MAX), state("P2", u64::MAX)];
    assert_eq!(util_pct_from_residency(&s), Some(66_666));
    let s = vec![state("P1", u64::MAX)];
    assert_eq!(util_pct_from_residency(&s), Some(100_000));
}

#[test]
fn statistics_keep_their_last_value() {
    let pairs = vec![
        stat("Tiler Utilization %", 12.5),
        stat("Device Utilization %", 3.0),
        stat("Device Utilization %", -3.0),
        stat("In use system memory", 4096.9),
    ];
    let s = perf_stats_from_pairs(&pairs);
    assert_eq!(s.device_util_pct, None);
    assert_eq!(s.tiler_util_pct, Some(12_500));
    assert_eq!(s.in_use_system_memory_bytes, Some(4096));
}

#[test]
fn a_dump_of_channels_reads_back() {
    let chan = |channel: &str, unit: &str| ChannelDesc {
        group: "Energy Model".into(),
        subgroup: String::new(),
        channel: channel.into(),
        unit: unit.into(),
    };
    let cs = vec![chan("GPU Energy", "nJ"), chan("DIE_0_GPU Energy", ""), chan("x", "m|J")];
    let text = format!(
        "# a comment\n{}\r\n\nstate|OFF|12\n{}\n  channel\r\n{}",
        cs[0].to_line(),
        cs[1].to_line(),
        cs[2].to_line()
    );
    assert_eq!(parse_channels(&text), cs);
    assert!(parse_channels("").is_empty());
}

#[test]
fn identities_of_identities_are_the_same() {
    for name in ["Apple M2 Max", "apple apple m1", "", "--Apple--", "Radeon Pro 5500M"] {
        let id = device_id_for(name).0;
        assert_eq!(device_id_for(&id).0, id, "{name}");
    }
}
