//! Reading pools from their configuration.
use zftop::pools::layout;
use zftop::pools::libzfs::{
    build_pool_info, counters_fit, derive_pool_health, map_vdev_state, read_scan_state,
    read_vdev_stats, walk_child_vdev, walk_root_vdev, LibzfsPoolsSource, ListError, PoolConfig,
    PoolError, TreeLookup, VdevConfig,
};
use zftop::pools::types::{
    ErrorCounts, PoolHealth, ScrubState, VdevKind, VdevState,
};

/// A `vdev_stats` array with the given state, size and errors.
fn stats(state: u64, space: u64, read: u64, write: u64, checksum: u64) -> Option<Vec<u64>> {
    let mut s = vec![0; layout::VS_MIN_LEN];
    s[layout::VS_IDX_STATE] = state;
    s[layout::VS_IDX_SPACE] = space;
    s[layout::VS_IDX_READ_ERRORS] = read;
    s[layout::VS_IDX_WRITE_ERRORS] = write;
    s[layout::VS_IDX_CHECKSUM_ERRORS] = checksum;
    Some(s)
}

fn vdev(vdev_type: &str, path: Option<&str>, children: Vec<VdevConfig>) -> VdevConfig {
    VdevConfig {
        vdev_type: Some(vdev_type.to_string()),
        path: path.map(|p| p.to_string()),
        parity: 0,
        vdev_stats: stats(layout::VDEV_STATE_HEALTHY, 1000, 0, 0, 0),
        scan_stats: None,
        children,
    }
}

fn pool(name: &str, tree: VdevConfig) -> PoolConfig {
    PoolConfig {
        name: Some(name.to_string()),
        size_bytes: 4000,
        allocated_bytes: 1500,
        free_bytes: 2500,
        fragmentation: 12,
        vdev_tree: TreeLookup::Found(tree),
        read_at: 1_700_000_100,
    }
}

#[test]
fn vdev_states() {
    assert_eq!(map_vdev_state(0), VdevState::Unavail);
    assert_eq!(map_vdev_state(1), VdevState::Offline);
    assert_eq!(map_vdev_state(2), VdevState::Offline);
    assert_eq!(map_vdev_state(3), VdevState::Removed);
    assert_eq!(map_vdev_state(4), VdevState::Faulted);
    assert_eq!(map_vdev_state(5), VdevState::Faulted);
    assert_eq!(map_vdev_state(6), VdevState::Degraded);
    assert_eq!(map_vdev_state(7), VdevState::Online);
    assert_eq!(map_vdev_state(8), VdevState::Unavail);
}

#[test]
fn stats_that_are_missing_or_short_count_nothing() {
    let none = (VdevState::Online, ErrorCounts { read: 0, write: 0, checksum: 0 });
    assert_eq!(read_vdev_stats(&None), none);
    assert_eq!(read_vdev_stats(&Some(vec![])), none);
    let mut short = stats(layout::VDEV_STATE_FAULTED, 1, 2, 3, 4);
    short.as_mut().unwrap().pop();
    assert_eq!(read_vdev_stats(&short), none);
    let full = stats(layout::VDEV_STATE_FAULTED, 1, 2, 3, 4);
    assert_eq!(
        read_vdev_stats(&full),
        (VdevState::Faulted, ErrorCounts { read: 2, write: 3, checksum: 4 })
    );
}

/// A `scan_stats` array.
fn scan(func: u64, state: u64, start: u64, end: u64, to_examine: u64, examined: u64) -> Option<Vec<u64>> {
    Some(vec![func, state, start, end, to_examine, examined, 0, 0, 3])
}

#[test]
fn scans() {
    assert_eq!(read_scan_state(&None, 0), ScrubState::Never);
    assert_eq!(read_scan_state(&Some(vec![1; 8]), 0), ScrubState::Never);
    assert_eq!(read_scan_state(&scan(1, 0, 0, 0, 0, 0), 0), ScrubState::Never);
    assert_eq!(read_scan_state(&scan(1, 3, 0, 0, 0, 0), 0), ScrubState::Error);
    assert_eq!(read_scan_state(&scan(1, 4, 0, 0, 0, 0), 0), ScrubState::Never);
    assert_eq!(
        read_scan_state(&scan(1, 2, 5, 77, 0, 0), 0),
        ScrubState::Finished { completed_at: 77, errors_repaired: 3 }
    );
}

#[test]
fn running_scan() {
    let s = scan(layout::POOL_SCAN_RESILVER, layout::DSS_SCANNING, 100, 0, 1000, 250);
    assert_eq!(
        read_scan_state(&s, 110),
        ScrubState::InProgress {
            progress_pct: 25,
            eta_seconds: Some(30),
            speed_bytes_per_sec: Some(25),
            is_resilver: true,
        }
    );
    assert_eq!(
        read_scan_state(&s, 100),
        ScrubState::InProgress {
            progress_pct: 25,
            eta_seconds: None,
            speed_bytes_per_sec: None,
            is_resilver: true,
        }
    );
}

#[test]
fn running_scan_is_never_more_than_done() {
    let over = scan(1, layout::DSS_SCANNING, 0, 0, 1000, 2000);
    assert_eq!(
        read_scan_state(&over, 5),
        ScrubState::InProgress {
            progress_pct: 100,
            eta_seconds: None,
            speed_bytes_per_sec: None,
            is_resilver: false,
        }
    );
    let idle = scan(1, layout::DSS_SCANNING, 1, 0, 0, 0);
    assert_eq!(
        read_scan_state(&idle, 11),
        ScrubState::InProgress {
            progress_pct: 0,
            eta_seconds: None,
            speed_bytes_per_sec: Some(0),
            is_resilver: false,
        }
    );
}

#[test]
fn kinds_and_names() {
    let kind = |t: &str, group: Option<VdevKind>| walk_child_vdev(&vdev(t, None, vec![]), group).kind;
    assert_eq!(kind("mirror", None), VdevKind::Mirror);
    assert_eq!(kind("replacing", None), VdevKind::Mirror);
    assert_eq!(kind("raidz", None), VdevKind::Raidz { parity: 0 });
    assert_eq!(kind("draid", None), VdevKind::Raidz { parity: 0 });
    assert_eq!(kind("disk", None), VdevKind::Disk);
    assert_eq!(kind("file", None), VdevKind::File);
    assert_eq!(kind("unheard of", None), VdevKind::Disk);
    assert_eq!(kind("disk", Some(VdevKind::LogGroup)), VdevKind::LogVdev);
    assert_eq!(kind("file", Some(VdevKind::CacheGroup)), VdevKind::CacheVdev);
    assert_eq!(kind("disk", Some(VdevKind::SpareGroup)), VdevKind::SpareVdev);
    assert_eq!(kind("mirror", Some(VdevKind::LogGroup)), VdevKind::Mirror);
    assert_eq!(kind("file", Some(VdevKind::Mirror)), VdevKind::File);

    let sda = walk_child_vdev(&vdev("disk", Some("/dev/sda"), vec![]), None);
    assert_eq!(sda.name, "sda");
    assert_eq!(sda.device_path.as_deref(), Some("/dev/sda"));
    assert_eq!(sda.size_bytes, Some(1000));
    let img = walk_child_vdev(&vdev("file", Some("/var/img"), vec![]), None);
    assert_eq!(img.name, "/var/img");
    let bare = walk_child_vdev(&vdev("disk", None, vec![]), None);
    assert_eq!(bare.name, "disk");
    assert_eq!(bare.device_path, None);
    let group = walk_child_vdev(&vdev("raidz", Some("/dev/ignored"), vec![]), None);
    assert_eq!(group.name, "raidz");
    assert_eq!(group.device_path, None);
    let mut nameless = vdev("disk", None, vec![]);
    nameless.vdev_type = None;
    assert_eq!(walk_child_vdev(&nameless, None).name, "");
}

#[test]
fn log_devices_below_a_mirror() {
    let mirror = vdev("mirror", None, vec![vdev("disk", Some("/dev/nvme0"), vec![])]);
    let node = walk_child_vdev(&mirror, Some(VdevKind::LogGroup));
    assert_eq!(node.kind, VdevKind::Mirror);
    assert_eq!(node.children[0].kind, VdevKind::LogVdev);
}

#[test]
fn root_goes_by_the_name_of_its_pool() {
    let mut root = vdev("root", None, vec![
        vdev("disk", Some("/dev/sda"), vec![]),
        vdev("mirror", None, vec![vdev("disk", Some("/dev/sdb"), vec![])]),
    ]);
    root.vdev_stats = stats(layout::VDEV_STATE_DEGRADED, 4000, 1, 0, 0);
    let node = walk_root_vdev(&root, "tank");
    assert_eq!(node.name, "tank");
    assert_eq!(node.kind, VdevKind::Root);
    assert_eq!(node.state, VdevState::Degraded);
    assert_eq!(node.size_bytes, Some(4000));
    assert_eq!(node.children.len(), 2);
    assert_eq!(node.children[1].children[0].name, "sdb");
    assert_eq!(derive_pool_health(&node), PoolHealth::Degraded);
}

#[test]
fn pool_sums_the_errors_of_all_vdevs() {
    let mut disk = vdev("disk", Some("/dev/sda"), vec![]);
    disk.vdev_stats = stats(layout::VDEV_STATE_HEALTHY, 1, 2, 3, 4);
    let mut root = vdev("root", None, vec![vdev("mirror", None, vec![disk])]);
    root.vdev_stats = stats(layout::VDEV_STATE_HEALTHY, 1, 10, 0, 0);
    root.scan_stats = scan(1, layout::DSS_FINISHED, 1, 99, 0, 0);
    let info = build_pool_info(&pool("tank", root)).unwrap();
    assert_eq!(info.name, "tank");
    assert_eq!(info.errors, ErrorCounts { read: 19, write: 0, checksum: 0 });
    assert_eq!(info.errors.sum(), 19);
    assert_eq!(info.health, PoolHealth::Online);
    assert_eq!(info.size_bytes, 4000);
    assert_eq!(info.allocated_bytes, 1500);
    assert_eq!(info.free_bytes, 2500);
    assert_eq!(info.fragmentation_pct, Some(12));
    assert_eq!(info.scrub, ScrubState::Finished { completed_at: 99, errors_repaired: 3 });
}

#[test]
fn fragmentation_above_all_is_unknown() {
    let mut p = pool("tank", vdev("root", None, vec![]));
    p.fragmentation = 100;
    assert_eq!(build_pool_info(&p).unwrap().fragmentation_pct, Some(100));
    p.fragmentation = u64::MAX;
    assert_eq!(build_pool_info(&p).unwrap().fragmentation_pct, None);
}

#[test]
fn pools_that_cannot_be_read() {
    let mut p = pool("tank", vdev("root", None, vec![]));
    p.name = None;
    assert!(matches!(build_pool_info(&p), Err(PoolError::NoName)));
    p.name = Some("tank".to_string());
    p.vdev_tree = TreeLookup::NoConfig;
    assert!(matches!(build_pool_info(&p), Err(PoolError::NoConfig { name }) if name == "tank"));
    p.vdev_tree = TreeLookup::Failed { rc: 2 };
    assert!(matches!(build_pool_info(&p), Err(PoolError::NoVdevTree { rc: 2 })));
}

#[test]
fn counters_too_large_to_add_up() {
    let mut root = vdev("root", None, vec![]);
    assert!(counters_fit(&pool("tank", vdev("root", None, vec![]))));
    root.vdev_stats = stats(7, 0, u64::MAX, 1, 0);
    assert!(!counters_fit(&pool("tank", root)));
    let mut root = vdev("root", None, vec![]);
    root.scan_stats = scan(1, layout::DSS_SCANNING, 0, 0, 1, u64::MAX / 100 + 1);
    assert!(!counters_fit(&pool("tank", root)));
    let mut root = vdev("root", None, vec![]);
    root.scan_stats = scan(1, layout::DSS_SCANNING, 0, 0, 1, u64::MAX / 100);
    assert!(counters_fit(&pool("tank", root)));
}

#[test]
fn one_bad_pool_does_not_spoil_the_others() {
    let mut source = LibzfsPoolsSource::new();
    assert!(source.pools().is_empty());
    let mut bad = pool("bad", vdev("root", None, vec![]));
    bad.vdev_tree = TreeLookup::NoConfig;
    let listing = vec![
        pool("a", vdev("root", None, vec![])),
        bad,
        pool("b", vdev("root", None, vec![vdev("disk", Some("/dev/sdb"), vec![])])),
    ];
    let skipped = source.refresh(Ok(listing)).unwrap();
    assert_eq!(skipped.len(), 1);
    assert!(matches!(&skipped[0], PoolError::NoConfig { name } if name == "bad"));
    let pools = source.pools();
    assert_eq!(pools.len(), 2);
    assert_eq!(pools[0].name, "a");
    assert_eq!(pools[1].root_vdev.children[0].name, "sdb");
}

#[test]
fn failed_listing_keeps_the_pools_of_before() {
    let mut source = LibzfsPoolsSource::new();
    source.refresh(Ok(vec![pool("a", vdev("root", None, vec![]))])).unwrap();
    let e = source
        .refresh(Err(ListError { rc: 5, description: "(no error)".to_string() }))
        .unwrap_err();
    assert_eq!(e.rc, 5);
    assert_eq!(e.description, "(no error)");
    assert_eq!(source.pools().len(), 1);
    source.refresh(Ok(vec![])).unwrap();
    assert!(source.pools().is_empty());
}

/// A group of the given type over a disk, a file, and a mirror of two disks.
fn group_of(vdev_type: &str) -> VdevConfig {
    vdev(vdev_type, Some("/dev/ignored"), vec![
        vdev("disk", Some("/dev/nvme0"), vec![]),
        vdev("file", Some("/var/img"), vec![]),
        vdev("mirror", None, vec![
            vdev("disk", Some("/dev/sda"), vec![]),
            vdev("disk", Some("/dev/sdb"), vec![]),
        ]),
    ])
}

fn check_group(vdev_type: &str, group: VdevKind, leaf: VdevKind) {
    for parent in [None, Some(VdevKind::LogGroup), Some(VdevKind::SpareGroup)] {
        let n = walk_child_vdev(&group_of(vdev_type), parent);
        assert_eq!(n.kind, group);
        assert_eq!(n.name, vdev_type);
        assert_eq!(n.size_bytes, None);
        assert_eq!(n.device_path, None);
        assert_eq!(n.children[0].kind, leaf);
        assert_eq!(n.children[0].name, "nvme0");
        assert_eq!(n.children[0].size_bytes, Some(1000));
        assert_eq!(n.children[1].kind, leaf);
        assert_eq!(n.children[2].kind, VdevKind::Mirror);
        assert_eq!(n.children[2].children[0].kind, leaf);
        assert_eq!(n.children[2].children[1].kind, leaf);
    }
}

#[test]
fn log_group_marks_its_devices() {
    check_group("log", VdevKind::LogGroup, VdevKind::LogVdev);
}

#[test]
fn cache_group_marks_its_devices() {
    check_group("l2cache", VdevKind::CacheGroup, VdevKind::CacheVdev);
}

#[test]
fn spare_group_marks_its_devices() {
    check_group("spare", VdevKind::SpareGroup, VdevKind::SpareVdev);
}

#[test]
fn groups_of_a_whole_pool() {
    let mut log = group_of("log");
    log.vdev_stats = None;
    let root = vdev("root", None, vec![vdev("disk", Some("/dev/sdz"), vec![]), log]);
    let info = build_pool_info(&pool("tank", root)).unwrap();
    let kids = &info.root_vdev.children;
    assert_eq!(kids[0].kind, VdevKind::Disk);
    assert_eq!(kids[1].kind, VdevKind::LogGroup);
    assert_eq!(kids[1].state, VdevState::Online);
    assert_eq!(kids[1].children[0].kind, VdevKind::LogVdev);
}
