use gpuviewer::proc_meta::{container_of, parse_cgroup, parse_stat_ticks, CpuTracker, Sighting};

#[test]
fn docker_scope_yields_short_id() {
    let c = "0::/system.slice/docker-1a2b3c4d5e6f7a8b9c0d1e2f3a4b5c6d7e8f9a0b1c2d3e4f5a6b7c8d.scope\n";
    assert_eq!(parse_cgroup(c).as_deref(), Some("docker:1a2b3c4d5e6f"));
}

#[test]
fn cri_containerd_and_crio_map_to_k8s() {
    let containerd = "0::/kubepods.slice/kubepods-burstable.slice/\
        kubepods-burstable-pod123.slice/\
        cri-containerd-abcdef0123456789abcdef0123456789abcdef0123456789abcdef0123456789.scope\n";
    assert_eq!(
        parse_cgroup(containerd).as_deref(),
        Some("k8s:abcdef012345")
    );

    let crio = "0::/kubepods.slice/kubepods-besteffort.slice/\
        crio-fedcba9876543210fedcba9876543210fedcba9876543210fedcba9876543210.scope\n";
    assert_eq!(parse_cgroup(crio).as_deref(), Some("k8s:fedcba987654"));
}

#[test]
fn kubepods_without_recognizable_id_is_unknown_pod() {
    let c = "0::/kubepods.slice/kubepods-besteffort.slice/kubepods-besteffort-pod9f8e.slice\n";
    assert_eq!(parse_cgroup(c).as_deref(), Some("k8s:?"));
}

#[test]
fn libpod_scope_yields_podman() {
    let c = "0::/machine.slice/\
        libpod-0f1e2d3c4b5a69788796a5b4c3d2e1f00f1e2d3c4b5a69788796a5b4c3d2e1f0.scope\n";
    assert_eq!(parse_cgroup(c).as_deref(), Some("podman:0f1e2d3c4b5a"));
}

#[test]
fn lxc_both_path_layouts_surface_the_name() {
    let plain = "11:cpuset:/lxc/webserver\n10:devices:/lxc/webserver\n";
    assert_eq!(parse_cgroup(plain).as_deref(), Some("lxc:webserver"));
    let payload = "0::/lxc.payload.dbnode/system.slice/postgres.service\n";
    assert_eq!(parse_cgroup(payload).as_deref(), Some("lxc:dbnode"));
}

#[test]
fn host_process_is_none() {
    let c = "0::/user.slice/user-1000.slice/session-2.scope\n";
    assert_eq!(parse_cgroup(c), None);
    assert_eq!(parse_cgroup("0::/system.slice/sshd.service\n"), None);
}

#[test]
fn garbage_and_decoy_ids_are_none() {
    assert_eq!(parse_cgroup(""), None);
    assert_eq!(parse_cgroup("not a cgroup file at all"), None);
    assert_eq!(
        parse_cgroup("0::/system.slice/docker-notanid.scope\n"),
        None
    );
    assert_eq!(
        parse_cgroup("0::/system.slice/docker-deadbeef.scope\n"),
        None
    );
}

#[test]
fn stat_ticks_handles_comm_with_spaces_and_parens() {
    let line = "1234 ((my proc) worker) S 1 1234 1234 0 -1 4194560 \
                1000 0 5 0 111 22 0 0 20 0 1 0 9999 123456 789 ...\n";
    assert_eq!(parse_stat_ticks(line), Some(133));
}

#[test]
fn stat_ticks_simple_comm() {
    let line = "980 (python) R 1 980 980 0 -1 4194304 200 0 0 0 50 10 0 0 20 0 8 0 1000 0 0\n";
    assert_eq!(parse_stat_ticks(line), Some(60));
}

#[test]
fn stat_ticks_rejects_truncated_or_garbage() {
    assert_eq!(parse_stat_ticks("1234 (python S 1 1 1"), None);
    assert_eq!(parse_stat_ticks("1234 (python) S 1 1"), None);
    let bad = "1 (x) S 1 1 1 0 -1 0 0 0 0 0 xx 22 0 0 20 0 1 0 1 0 0\n";
    assert_eq!(parse_stat_ticks(bad), None);
}

#[test]
fn cpu_tracker_first_sighting_has_no_baseline() {
    let stat = "980 (python) R 1 980 980 0 -1 4194304 200 0 0 0 50 10 0 0 20 0 8 0 1000 0 0\n";
    let mut t = CpuTracker::new();
    assert_eq!(
        t.sample(980, Some(stat), 1_000_000_000),
        None,
        "first sighting establishes baseline only"
    );
}

#[test]
fn cpu_tracker_prune_drops_dead_pids() {
    let mut t = CpuTracker::new();
    t.seen.insert(111, Sighting { ticks: 10, at_ns: 1 });
    t.seen.insert(222, Sighting { ticks: 20, at_ns: 1 });
    t.seen.insert(333, Sighting { ticks: 30, at_ns: 1 });
    t.prune(&[222]);
    assert!(!t.seen.contains_key(111));
    assert!(t.seen.contains_key(222));
    assert!(!t.seen.contains_key(333));
}

fn stat(utime: u64, stime: u64) -> String {
    format!("980 (python) R 1 980 980 0 -1 4194304 200 0 0 0 {utime} {stime} 0 0 20 0 8 0 1000 0 0\n")
}

#[test]
fn cpu_tracker_rates_the_second_sighting() {
    let mut t = CpuTracker::new();
    assert_eq!(t.sample(980, Some(&stat(50, 10)), 1_000_000_000), None);
    // 100 ticks of 10 ms over two seconds: half a core.
    assert_eq!(t.sample(980, Some(&stat(130, 30)), 3_000_000_000), Some(50_000));
    // A counter that stood still is no use of the CPU.
    assert_eq!(t.sample(980, Some(&stat(130, 30)), 4_000_000_000), Some(0));
    // What cannot be read is no reading, and changes no mark.
    assert_eq!(t.sample(980, None, 5_000_000_000), None);
    assert_eq!(t.sample(980, Some("garbage"), 5_000_000_000), None);
    assert_eq!(t.sample(980, Some(&stat(230, 30)), 5_000_000_000), Some(100_000));
}

#[test]
fn cpu_tracker_makes_no_claim_of_a_reset() {
    let mut t = CpuTracker::new();
    assert_eq!(t.sample(7, Some(&stat(500, 0)), 1_000_000_000), None);
    assert_eq!(t.sample(7, Some(&stat(100, 0)), 2_000_000_000), None);
    // The clock did not advance.
    assert_eq!(t.sample(7, Some(&stat(200, 0)), 2_000_000_000), None);
    // More than 64 cores is an artefact.
    assert_eq!(t.sample(7, Some(&stat(9_000_000, 0)), 2_000_000_001), Some(6_400_000));
}

#[test]
fn an_unreadable_cgroup_is_no_container() {
    assert_eq!(container_of(None), None);
    let c = "0::/system.slice/docker-1a2b3c4d5e6f7a8b9c0d1e2f3a4b5c6d7e8f9a0b1c2d3e4f5a6b7c8d.scope\n";
    assert_eq!(container_of(Some(c)).as_deref(), Some("docker:1a2b3c4d5e6f"));
}

#[test]
fn stat_ticks_that_do_not_fit_are_none() {
    assert_eq!(parse_stat_ticks(&stat(u64::MAX, 1)), None);
    assert_eq!(parse_stat_ticks(&stat(u64::MAX, 0)), Some(u64::MAX));
}
