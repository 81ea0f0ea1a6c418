//! The dashboard: figures, tabs, trees, keys and refreshes.
use zftop::app::input::{
    Event, KeyCode, KeyEvent, KeyModifiers, MouseEvent, MouseEventKind,
};
use zftop::app::metrics::Ratio;
use zftop::app::segments::{arc_overhead_color, arc_size_color};
use zftop::app::state::App;
use zftop::app::tab::Tab;
use zftop::app::view::{DatasetsView, PoolsView};
use zftop::arcstats::{ArcReader, ArcStats, ArcStatsError};
use zftop::datasets::{DatasetKind, DatasetNode, DatasetProperties, DatasetsSource};
use zftop::format::format_bytes;
use zftop::meminfo::linux::LinuxMemSource;
use zftop::meminfo::{MemSnapshot, MemSource, RamSegment};
use zftop::names::NameSet;
use zftop::pools::types::{
    ErrorCounts, PoolHealth, PoolInfo, PoolsSource, ScrubState, VdevKind, VdevNode, VdevState,
};

const MEMINFO: &str = "MemTotal:       32768000 kB
MemFree:         4096000 kB
MemAvailable:   18432000 kB
Buffers:          512000 kB
Cached:          2048000 kB
SReclaimable:    1024000 kB
";

fn sample_stats() -> ArcStats {
    ArcStats {
        hits: 9000,
        iohits: 100,
        misses: 1000,
        demand_data_hits: 5000,
        demand_data_iohits: 50,
        demand_data_misses: 500,
        demand_metadata_hits: 3000,
        demand_metadata_iohits: 30,
        demand_metadata_misses: 300,
        prefetch_data_hits: 800,
        prefetch_data_iohits: 15,
        prefetch_data_misses: 150,
        prefetch_metadata_hits: 200,
        prefetch_metadata_iohits: 5,
        prefetch_metadata_misses: 50,
        size: 10 * 1024 * 1024 * 1024,     // 10 GiB
        c: 16 * 1024 * 1024 * 1024,        // 16 GiB
        c_min: 1024 * 1024 * 1024,          // 1 GiB
        c_max: 16 * 1024 * 1024 * 1024,     // 16 GiB
        data_size: 6 * 1024 * 1024 * 1024,
        metadata_size: 1024 * 1024 * 1024,
        anon_size: 512 * 1024 * 1024,
        overhead_size: 256 * 1024 * 1024,
        hdr_size: 64 * 1024 * 1024,
        dbuf_size: 96 * 1024 * 1024,
        dnode_size: 128 * 1024 * 1024,
        bonus_size: 64 * 1024 * 1024,
        mru_size: 3 * 1024 * 1024 * 1024,
        mru_data: 2 * 1024 * 1024 * 1024,
        mru_metadata: 1024 * 1024 * 1024,
        mfu_size: 4 * 1024 * 1024 * 1024,
        mfu_data: 3 * 1024 * 1024 * 1024,
        mfu_metadata: 1024 * 1024 * 1024,
        compressed_size: 5 * 1024 * 1024 * 1024,
        uncompressed_size: 8 * 1024 * 1024 * 1024,
        memory_all_bytes: 32 * 1024 * 1024 * 1024,
        memory_free_bytes: 8 * 1024 * 1024 * 1024,
        memory_available_bytes: 12 * 1024 * 1024 * 1024,
        arc_meta_used: 2 * 1024 * 1024 * 1024,
    }
}

/// A dashboard over stub sources.
type TestApp = App<StubReader, StubMem, FakePools, FakeDatasets>;

/// Answers with the same counters every time, or fails where it has none.
struct StubReader {
    stats: Option<ArcStats>,
}

impl ArcReader for StubReader {
    fn read(&mut self) -> Result<ArcStats, ArcStatsError> {
        match self.stats {
            Some(stats) => Ok(stats),
            None => Err(ArcStatsError::Unreadable {
                message: "no counters".to_string(),
            }),
        }
    }
}

/// A dashboard without live sources, for figures that need no refresh.
fn app_with(current: ArcStats, previous: Option<ArcStats>) -> TestApp {
    App {
        current,
        previous,
        arc_reader: StubReader { stats: None },
        mem_source: None,
        mem_snapshot: None,
        should_quit: false,
        current_tab: Tab::Overview,
        pools_source: None,
        pools_snapshot: Vec::new(),
        pools_refresh_error: None,
        pools_init_error: None,
        pools_view: PoolsView::Tree {
            expanded: NameSet::new(),
            selected: 0,
        },
        pools_first_paint: true,
        datasets_source: None,
        datasets_snapshot: Vec::new(),
        datasets_refresh_error: None,
        datasets_init_error: None,
        datasets_view: DatasetsView::Tree {
            expanded: NameSet::new(),
            selected: 0,
        },
    }
}

/// Hands the segments that it is given back as they are, so that a test sees what the dashboard
/// passed on; or makes the bar of a Linux system.
enum StubMem {
    Echo,
    Linux(LinuxMemSource),
}

impl MemSource for StubMem {
    fn refresh(&mut self) -> Result<(), String> {
        Ok(())
    }

    fn snapshot(&self, arc_segments: &[RamSegment]) -> Option<MemSnapshot> {
        match self {
            StubMem::Echo => Some(MemSnapshot {
                total_bytes: 100 * 1024 * 1024 * 1024,
                segments: arc_segments.to_vec(),
            }),
            StubMem::Linux(source) => source.compose(arc_segments),
        }
    }
}

/// Hands out the pools that it was made with, or fails once.
struct FakePools {
    pools: Vec<PoolInfo>,
    failure: Option<String>,
}

impl FakePools {
    fn new(pools: Vec<PoolInfo>) -> FakePools {
        FakePools { pools, failure: None }
    }

    fn fail_next_refresh(mut self, message: &str) -> FakePools {
        self.failure = Some(message.to_string());
        self
    }
}

impl PoolsSource for FakePools {
    fn refresh(&mut self) -> Result<(), String> {
        match self.failure.take() {
            Some(message) => Err(message),
            None => Ok(()),
        }
    }

    fn pools(&self) -> Vec<PoolInfo> {
        self.pools.clone()
    }
}

/// Hands out the datasets that it was made with, or fails once.
struct FakeDatasets {
    roots: Vec<DatasetNode>,
    failure: Option<String>,
}

impl FakeDatasets {
    fn new(roots: Vec<DatasetNode>) -> FakeDatasets {
        FakeDatasets { roots, failure: None }
    }

    fn fail_next_refresh(mut self, message: &str) -> FakeDatasets {
        self.failure = Some(message.to_string());
        self
    }
}

impl DatasetsSource for FakeDatasets {
    fn refresh(&mut self) -> Result<(), String> {
        match self.failure.take() {
            Some(message) => Err(message),
            None => Ok(()),
        }
    }

    fn roots(&self) -> Vec<DatasetNode> {
        self.roots.clone()
    }
}

/// The ratio as a number.
fn value(r: Ratio) -> f64 {
    r.part as f64 / r.whole as f64
}

/// The ratio in percent.
fn percent(r: Ratio) -> f64 {
    value(r) * 100.0
}

#[test]
fn overall_hit_ratio() {
    let app = app_with(sample_stats(), None);
    assert!((percent(app.hit_ratio_overall()) - 90.0).abs() < 0.01);
}

#[test]
fn demand_hit_ratio() {
    let app = app_with(sample_stats(), None);
    // (5000+3000) / (5000+3000+500+300) = 8000/8800 ≈ 90.909%
    assert!((percent(app.hit_ratio_demand()) - 90.909).abs() < 0.01);
}

#[test]
fn prefetch_hit_ratio() {
    let app = app_with(sample_stats(), None);
    // (800+200) / (800+200+150+50) = 1000/1200 ≈ 83.333%
    assert!((percent(app.hit_ratio_prefetch()) - 83.333).abs() < 0.01);
}

#[test]
fn throughput_none_without_previous() {
    let app = app_with(sample_stats(), None);
    assert!(app.throughput_hits().is_none());
    assert!(app.throughput_misses().is_none());
}

#[test]
fn throughput_delta() {
    let mut prev = sample_stats();
    prev.hits = 8000;
    prev.misses = 900;
    let app = app_with(sample_stats(), Some(prev));
    assert_eq!(app.throughput_hits(), Some(1000));
    assert_eq!(app.throughput_misses(), Some(100));
}

#[test]
fn arc_usage() {
    let app = app_with(sample_stats(), None);
    assert!((value(app.arc_usage_pct()) - 0.625).abs() < 0.001);
}

#[test]
fn breakdown_has_expected_categories() {
    let app = app_with(sample_stats(), None);
    let rows = app.arc_breakdown();
    let labels: Vec<&str> = rows.iter().map(|r| r.label).collect();
    assert!(labels.contains(&"MFU data"));
    assert!(labels.contains(&"MRU data"));
    assert!(labels.contains(&"Anon"));
    assert!(labels.contains(&"Headers"));
    for row in &rows {
        assert!(percent(row.share) >= 0.0 && percent(row.share) <= 100.0);
    }
}

#[test]
fn format_bytes_units() {
    assert_eq!(format_bytes(0), "0 B");
    assert_eq!(format_bytes(512), "512 B");
    assert_eq!(format_bytes(1024), "1.0 KiB");
    assert_eq!(format_bytes(1536), "1.5 KiB");
    assert_eq!(format_bytes(1048576), "1.0 MiB");
    assert_eq!(format_bytes(1073741824), "1.0 GiB");
    assert_eq!(format_bytes(1099511627776), "1.0 TiB");
}

#[test]
fn tab_all_ordered_overview_pools_datasets_arc() {
    assert_eq!(Tab::ALL, [Tab::Overview, Tab::Pools, Tab::Datasets, Tab::Arc]);
}

#[test]
fn tab_titles_stable() {
    assert_eq!(Tab::Overview.title(), "Overview");
    assert_eq!(Tab::Pools.title(), "Pools");
    assert_eq!(Tab::Datasets.title(), "Datasets");
    assert_eq!(Tab::Arc.title(), "ARC");
}

#[test]
fn tab_hotkeys_match_position() {
    assert_eq!(Tab::Overview.hotkey(), '1');
    assert_eq!(Tab::Pools.hotkey(), '2');
    assert_eq!(Tab::Datasets.hotkey(), '3');
    assert_eq!(Tab::Arc.hotkey(), '4');
}

#[test]
fn cycle_tab_forward_wraps() {
    let mut app = app_with(sample_stats(), None);
    app.current_tab = Tab::Overview;
    app.cycle_tab(1);
    assert_eq!(app.current_tab, Tab::Pools);
    app.cycle_tab(1);
    assert_eq!(app.current_tab, Tab::Datasets);
    app.cycle_tab(1);
    assert_eq!(app.current_tab, Tab::Arc);
    app.cycle_tab(1); // wraps
    assert_eq!(app.current_tab, Tab::Overview);
}

#[test]
fn cycle_tab_back_wraps() {
    let mut app = app_with(sample_stats(), None);
    app.current_tab = Tab::Overview;
    app.cycle_tab(-1); // wraps
    assert_eq!(app.current_tab, Tab::Arc);
    app.cycle_tab(-1);
    assert_eq!(app.current_tab, Tab::Datasets);
    app.cycle_tab(-1);
    assert_eq!(app.current_tab, Tab::Pools);
    app.cycle_tab(-1);
    assert_eq!(app.current_tab, Tab::Overview);
}

fn key(code: KeyCode) -> KeyEvent {
    KeyEvent::new(code, KeyModifiers::none())
}

#[test]
fn hotkey_1_switches_to_overview() {
    let mut app = app_with(sample_stats(), None);
    app.current_tab = Tab::Arc;
    app.on_key(key(KeyCode::Char('1')));
    assert_eq!(app.current_tab, Tab::Overview);
}

#[test]
fn hotkey_2_switches_to_pools() {
    let mut app = app_with(sample_stats(), None);
    app.current_tab = Tab::Overview;
    app.on_key(key(KeyCode::Char('2')));
    assert_eq!(app.current_tab, Tab::Pools);
}

#[test]
fn hotkey_3_switches_to_datasets() {
    let mut app = app_with(sample_stats(), None);
    app.current_tab = Tab::Overview;
    app.on_key(key(KeyCode::Char('3')));
    assert_eq!(app.current_tab, Tab::Datasets);
}

#[test]
fn hotkey_4_switches_to_arc() {
    let mut app = app_with(sample_stats(), None);
    app.current_tab = Tab::Overview;
    app.on_key(key(KeyCode::Char('4')));
    assert_eq!(app.current_tab, Tab::Arc);
}

#[test]
fn tab_key_cycles_forward() {
    let mut app = app_with(sample_stats(), None);
    app.current_tab = Tab::Overview;
    app.on_key(key(KeyCode::Tab));
    assert_eq!(app.current_tab, Tab::Pools);
}

#[test]
fn back_tab_cycles_backward() {
    let mut app = app_with(sample_stats(), None);
    app.current_tab = Tab::Overview;
    app.on_key(key(KeyCode::BackTab));
    assert_eq!(app.current_tab, Tab::Arc);
}

#[test]
fn q_still_quits() {
    let mut app = app_with(sample_stats(), None);
    app.on_key(key(KeyCode::Char('q')));
    assert!(app.should_quit);
}

#[test]
fn ctrl_c_still_quits() {
    let mut app = app_with(sample_stats(), None);
    app.on_key(KeyEvent::new(KeyCode::Char('c'), KeyModifiers::control()));
    assert!(app.should_quit);
}

fn test_pool(name: &str, health: PoolHealth, size: u64, alloc: u64) -> PoolInfo {
    PoolInfo {
        name: name.into(),
        health,
        allocated_bytes: alloc,
        size_bytes: size,
        free_bytes: size.saturating_sub(alloc),
        fragmentation_pct: Some(10),
        scrub: ScrubState::Never,
        errors: ErrorCounts::default(),
        root_vdev: VdevNode {
            name: name.into(),
            kind: VdevKind::Root,
            state: VdevState::Online,
            size_bytes: Some(size),
            errors: ErrorCounts::default(),
            children: vec![],
            device_path: None,
        },
    }
}

fn app_with_pools(pools: Vec<PoolInfo>) -> TestApp {
    let mut app = app_with(sample_stats(), None);
    app.pools_source = Some(FakePools::new(pools.clone()));
    app.pools_snapshot = pools;
    app
}

#[test]
fn refresh_pools_populates_snapshot_from_source() {
    let pools = vec![test_pool("tank", PoolHealth::Online, 1_000, 500)];
    let mut app = app_with(sample_stats(), None);
    app.pools_source = Some(FakePools::new(pools.clone()));
    app.refresh_pools();
    assert_eq!(app.pools_snapshot.len(), 1);
    assert_eq!(app.pools_snapshot[0].name, "tank");
    assert!(app.pools_refresh_error.is_none());
}

#[test]
fn refresh_pools_error_preserves_stale_snapshot() {
    let initial = vec![test_pool("tank", PoolHealth::Online, 1_000, 500)];
    let mut app = app_with_pools(initial);
    // Swap the source for one that errors on the next refresh.
    app.pools_source = Some(FakePools::new(vec![]).fail_next_refresh("transient libzfs fail"));
    app.refresh_pools();
    assert!(app.pools_refresh_error.is_some());
    assert_eq!(app.pools_snapshot.len(), 1, "snapshot should be preserved");
}

#[test]
fn pools_degraded_count_sums_non_online() {
    let app = app_with_pools(vec![
        test_pool("a", PoolHealth::Online, 100, 50),
        test_pool("b", PoolHealth::Degraded, 100, 50),
        test_pool("c", PoolHealth::Faulted, 100, 50),
    ]);
    assert_eq!(app.pools_degraded_count(), 2);
}

#[test]
fn pools_totals_sum_correctly() {
    let app = app_with_pools(vec![
        test_pool("a", PoolHealth::Online, 1000, 400),
        test_pool("b", PoolHealth::Online, 2000, 800),
    ]);
    assert_eq!(app.pools_total_capacity(), 3000);
    assert_eq!(app.pools_total_allocated(), 1200);
}

#[test]
fn selection_clamps_when_pools_shrink() {
    let mut app = app_with_pools(vec![
        test_pool("a", PoolHealth::Online, 100, 50),
        test_pool("b", PoolHealth::Online, 100, 50),
        test_pool("c", PoolHealth::Online, 100, 50),
    ]);
    app.pools_view = PoolsView::Tree {
        expanded: NameSet::new(),
        selected: 2,
    };
    // Shrink the underlying source to one pool and refresh.
    app.pools_source = Some(FakePools::new(vec![test_pool(
        "a",
        PoolHealth::Online,
        100,
        50,
    )]));
    app.refresh_pools();
    // After refresh: snapshot = [a], selected clamps to last visible row.
    // The first paint expands "a", but it has no vdevs.
    if let PoolsView::Tree { selected, .. } = &app.pools_view {
        assert_eq!(*selected, 0);
    } else {
        panic!("expected Tree view, got {:?}", app.pools_view);
    }
}

#[test]
fn pools_down_advances_selection() {
    let mut app = app_with_pools(vec![
        test_pool("a", PoolHealth::Online, 100, 50),
        test_pool("b", PoolHealth::Online, 100, 50),
        test_pool("c", PoolHealth::Online, 100, 50),
    ]);
    app.current_tab = Tab::Pools;
    app.on_key(key(KeyCode::Down));
    assert_eq!(
        app.pools_view,
        PoolsView::Tree {
            expanded: NameSet::new(),
            selected: 1,
        }
    );
    app.on_key(key(KeyCode::Char('j')));
    assert_eq!(
        app.pools_view,
        PoolsView::Tree {
            expanded: NameSet::new(),
            selected: 2,
        }
    );
}

#[test]
fn pools_down_clamps_at_last() {
    let mut app = app_with_pools(vec![
        test_pool("a", PoolHealth::Online, 100, 50),
        test_pool("b", PoolHealth::Online, 100, 50),
    ]);
    app.current_tab = Tab::Pools;
    app.pools_view = PoolsView::Tree {
        expanded: NameSet::new(),
        selected: 1,
    };
    app.on_key(key(KeyCode::Down));
    assert_eq!(
        app.pools_view,
        PoolsView::Tree {
            expanded: NameSet::new(),
            selected: 1,
        }
    );
}

#[test]
fn pools_up_at_first_is_noop() {
    let mut app = app_with_pools(vec![
        test_pool("a", PoolHealth::Online, 100, 50),
        test_pool("b", PoolHealth::Online, 100, 50),
    ]);
    app.current_tab = Tab::Pools;
    app.on_key(key(KeyCode::Up));
    assert_eq!(
        app.pools_view,
        PoolsView::Tree {
            expanded: NameSet::new(),
            selected: 0,
        }
    );
}

#[test]
fn pools_home_end_jump() {
    let mut app = app_with_pools(vec![
        test_pool("a", PoolHealth::Online, 100, 50),
        test_pool("b", PoolHealth::Online, 100, 50),
        test_pool("c", PoolHealth::Online, 100, 50),
    ]);
    app.current_tab = Tab::Pools;
    app.on_key(key(KeyCode::End));
    assert_eq!(
        app.pools_view,
        PoolsView::Tree {
            expanded: NameSet::new(),
            selected: 2,
        }
    );
    app.on_key(key(KeyCode::Home));
    assert_eq!(
        app.pools_view,
        PoolsView::Tree {
            expanded: NameSet::new(),
            selected: 0,
        }
    );
}

#[test]
fn pools_enter_drills_into_detail() {
    let mut app = app_with_pools(vec![
        test_pool("a", PoolHealth::Online, 100, 50),
        test_pool("b", PoolHealth::Online, 100, 50),
    ]);
    app.current_tab = Tab::Pools;
    app.pools_view = PoolsView::Tree {
        expanded: NameSet::new(),
        selected: 1,
    };
    app.on_key(key(KeyCode::Enter));
    assert_eq!(
        app.pools_view,
        PoolsView::Detail {
            pool_index: 1,
            expanded: NameSet::new(),
        }
    );
}

#[test]
fn pools_enter_with_empty_list_is_noop() {
    let mut app = app_with_pools(vec![]);
    app.current_tab = Tab::Pools;
    app.on_key(key(KeyCode::Enter));
    assert!(matches!(app.pools_view, PoolsView::Tree { .. }));
}

/// Leaving the Pools tab while drilled into a specific pool must
/// collapse the drilldown so that returning to Pools lands on the
/// tree. Exercises every tab-change key: 1, 3, Tab, BackTab.
#[test]
fn leaving_pools_while_in_detail_collapses_to_list_via_overview_key() {
    let mut app = app_with_pools(vec![
        test_pool("a", PoolHealth::Online, 100, 50),
        test_pool("b", PoolHealth::Online, 100, 50),
        test_pool("c", PoolHealth::Online, 100, 50),
    ]);
    app.current_tab = Tab::Pools;
    app.pools_view = PoolsView::Detail {
        pool_index: 2,
        expanded: NameSet::new(),
    };
    app.on_key(key(KeyCode::Char('1')));
    assert_eq!(app.current_tab, Tab::Overview);
    assert!(
        matches!(app.pools_view, PoolsView::Tree { .. }),
        "leaving Pools via '1' should have collapsed Detail to Tree"
    );
}

#[test]
fn leaving_pools_while_in_detail_collapses_to_list_via_arc_key() {
    let mut app = app_with_pools(vec![
        test_pool("a", PoolHealth::Online, 100, 50),
        test_pool("b", PoolHealth::Online, 100, 50),
    ]);
    app.current_tab = Tab::Pools;
    app.pools_view = PoolsView::Detail {
        pool_index: 1,
        expanded: NameSet::new(),
    };
    app.on_key(key(KeyCode::Char('4')));
    assert_eq!(app.current_tab, Tab::Arc);
    assert!(matches!(app.pools_view, PoolsView::Tree { .. }));
}

#[test]
fn leaving_pools_while_in_detail_collapses_to_list_via_tab_key() {
    let mut app = app_with_pools(vec![
        test_pool("a", PoolHealth::Online, 100, 50),
        test_pool("b", PoolHealth::Online, 100, 50),
    ]);
    app.current_tab = Tab::Pools;
    app.pools_view = PoolsView::Detail {
        pool_index: 0,
        expanded: NameSet::new(),
    };
    app.on_key(key(KeyCode::Tab));
    // Pools → Datasets (next in Tab::ALL order).
    assert_eq!(app.current_tab, Tab::Datasets);
    assert!(matches!(app.pools_view, PoolsView::Tree { .. }));
}

#[test]
fn leaving_pools_while_in_detail_collapses_to_list_via_backtab_key() {
    let mut app = app_with_pools(vec![
        test_pool("a", PoolHealth::Online, 100, 50),
        test_pool("b", PoolHealth::Online, 100, 50),
    ]);
    app.current_tab = Tab::Pools;
    app.pools_view = PoolsView::Detail {
        pool_index: 1,
        expanded: NameSet::new(),
    };
    app.on_key(key(KeyCode::BackTab));
    // Pools ← Overview (previous in Tab::ALL order).
    assert_eq!(app.current_tab, Tab::Overview);
    assert!(matches!(app.pools_view, PoolsView::Tree { .. }));
}

/// Pressing `2` while already on the Pools tab must NOT collapse an
/// in-progress drilldown — that's a no-op switch. Only switching
/// *away* and back should reset the sub-view.
#[test]
fn pressing_pools_key_while_already_on_pools_preserves_detail() {
    let mut app = app_with_pools(vec![
        test_pool("a", PoolHealth::Online, 100, 50),
        test_pool("b", PoolHealth::Online, 100, 50),
    ]);
    app.current_tab = Tab::Pools;
    app.pools_view = PoolsView::Detail {
        pool_index: 1,
        expanded: NameSet::new(),
    };
    app.on_key(key(KeyCode::Char('2')));
    assert_eq!(app.current_tab, Tab::Pools);
    assert!(
        matches!(app.pools_view, PoolsView::Detail { pool_index: 1, .. }),
        "no-op tab switch should not disturb the sub-view"
    );
}

/// End-to-end round trip: drill in, tab out, tab back → tree view.
#[test]
fn pools_detail_round_trip_ends_on_list() {
    let mut app = app_with_pools(vec![
        test_pool("a", PoolHealth::Online, 100, 50),
        test_pool("b", PoolHealth::Online, 100, 50),
        test_pool("c", PoolHealth::Online, 100, 50),
    ]);
    app.current_tab = Tab::Pools;
    app.pools_view = PoolsView::Tree {
        expanded: NameSet::new(),
        selected: 2,
    };
    // Drill in
    app.on_key(key(KeyCode::Enter));
    assert!(matches!(
        app.pools_view,
        PoolsView::Detail { pool_index: 2, .. }
    ));
    // Tab out to Overview
    app.on_key(key(KeyCode::Char('1')));
    assert_eq!(app.current_tab, Tab::Overview);
    // Return to Pools
    app.on_key(key(KeyCode::Char('2')));
    assert_eq!(app.current_tab, Tab::Pools);
    assert!(
        matches!(app.pools_view, PoolsView::Tree { .. }),
        "returning to Pools after a drill-in + tab-out should land on the tree"
    );
}

#[test]
fn pools_esc_returns_to_list_with_same_index() {
    let mut app = app_with_pools(vec![
        test_pool("a", PoolHealth::Online, 100, 50),
        test_pool("b", PoolHealth::Online, 100, 50),
    ]);
    app.current_tab = Tab::Pools;
    app.pools_view = PoolsView::Detail {
        pool_index: 1,
        expanded: NameSet::new(),
    };
    app.on_key(key(KeyCode::Esc));
    assert!(matches!(app.pools_view, PoolsView::Tree { .. }));
}

#[test]
fn pools_keys_ignored_when_not_on_pools_tab() {
    let mut app = app_with_pools(vec![
        test_pool("a", PoolHealth::Online, 100, 50),
        test_pool("b", PoolHealth::Online, 100, 50),
    ]);
    app.current_tab = Tab::Overview;
    app.on_key(key(KeyCode::Down));
    // Selection unchanged because we're not on the Pools tab.
    assert_eq!(
        app.pools_view,
        PoolsView::Tree {
            expanded: NameSet::new(),
            selected: 0,
        }
    );
}

#[test]
fn detail_view_drops_to_list_when_pool_vanishes() {
    let mut app = app_with_pools(vec![
        test_pool("a", PoolHealth::Online, 100, 50),
        test_pool("b", PoolHealth::Online, 100, 50),
    ]);
    app.pools_view = PoolsView::Detail {
        pool_index: 1,
        expanded: NameSet::new(),
    };
    app.pools_source = Some(FakePools::new(vec![test_pool(
        "a",
        PoolHealth::Online,
        100,
        50,
    )]));
    app.refresh_pools();
    assert!(matches!(app.pools_view, PoolsView::Tree { selected: 0, .. }));
}

fn ds(name: &str, kind: DatasetKind, children: Vec<DatasetNode>) -> DatasetNode {
    DatasetNode {
        name: name.into(),
        kind,
        used_bytes: 100,
        refer_bytes: 100,
        available_bytes: 1000,
        compression_ratio: 100,
        properties: DatasetProperties::default(),
        children,
    }
}

fn ds_fs(name: &str, children: Vec<DatasetNode>) -> DatasetNode {
    ds(name, DatasetKind::Filesystem, children)
}

fn app_with_datasets(roots: Vec<DatasetNode>) -> TestApp {
    let mut app = app_with(sample_stats(), None);
    app.datasets_source = Some(FakeDatasets::new(roots.clone()));
    app.datasets_snapshot = roots.clone();
    // Seed expanded with the root names like App::new does.
    if let DatasetsView::Tree { expanded, .. } = &mut app.datasets_view {
        for r in &roots {
            expanded.insert(r.name.clone());
        }
    }
    app
}

#[test]
fn refresh_datasets_populates_snapshot_from_source() {
    let roots = vec![ds_fs("tank", vec![])];
    let mut app = app_with(sample_stats(), None);
    app.datasets_source = Some(FakeDatasets::new(roots.clone()));
    app.refresh_datasets();
    assert_eq!(app.datasets_snapshot.len(), 1);
    assert_eq!(app.datasets_snapshot[0].name, "tank");
    assert!(app.datasets_refresh_error.is_none());
}

#[test]
fn refresh_datasets_error_preserves_stale_snapshot() {
    let initial = vec![ds_fs("tank", vec![])];
    let mut app = app_with_datasets(initial);
    app.datasets_source = Some(FakeDatasets::new(vec![]).fail_next_refresh("transient libzfs fail"));
    app.refresh_datasets();
    assert!(app.datasets_refresh_error.is_some());
    assert_eq!(app.datasets_snapshot.len(), 1, "snapshot should be preserved");
}

#[test]
fn prune_expanded_set_removes_vanished_names() {
    let initial = vec![ds_fs("tank", vec![ds_fs("tank/home", vec![])])];
    let mut app = app_with_datasets(initial);
    if let DatasetsView::Tree { expanded, .. } = &mut app.datasets_view {
        expanded.insert("tank/home".to_string());
    }
    // Swap in a snapshot that no longer has tank/home.
    app.datasets_source =
        Some(FakeDatasets::new(vec![ds_fs("tank", vec![])]));
    app.refresh_datasets();
    if let DatasetsView::Tree { expanded, .. } = &app.datasets_view {
        assert!(expanded.contains("tank"), "tank should still be expanded");
        assert!(
            !expanded.contains("tank/home"),
            "tank/home should be pruned"
        );
    } else {
        panic!("expected Tree view");
    }
}

#[test]
fn detail_view_falls_back_to_tree_when_dataset_vanishes() {
    let initial = vec![ds_fs("tank", vec![ds_fs("tank/home", vec![])])];
    let mut app = app_with_datasets(initial);
    let mut expanded_clone = NameSet::new();
    expanded_clone.insert("tank".to_string());
    app.datasets_view = DatasetsView::Detail {
        name: "tank/home".into(),
        expanded: expanded_clone,
    };
    // tank/home gets destroyed.
    app.datasets_source =
        Some(FakeDatasets::new(vec![ds_fs("tank", vec![])]));
    app.refresh_datasets();
    assert!(matches!(app.datasets_view, DatasetsView::Tree { .. }));
}

#[test]
fn detail_view_survives_when_dataset_still_exists() {
    let initial = vec![ds_fs("tank", vec![ds_fs("tank/home", vec![])])];
    let mut app = app_with_datasets(initial);
    let mut expanded_clone = NameSet::new();
    expanded_clone.insert("tank".to_string());
    app.datasets_view = DatasetsView::Detail {
        name: "tank/home".into(),
        expanded: expanded_clone,
    };
    // Snapshot unchanged; refresh shouldn't disturb the detail view.
    app.refresh_datasets();
    assert!(matches!(app.datasets_view, DatasetsView::Detail { .. }));
}

#[test]
fn app_passes_two_arc_segments_size_and_overhead() {
    // The RAM bar should get TWO adjacent ARC sub-segments: primary `size`
    // in the familiar magenta, and `overhead_size` (ABD scatter waste,
    // compression bookkeeping — real RAM not counted in `size`) in a
    // darker purple so the extra footprint is visible but visually tied
    // to ARC. Both segments must arrive through MemSource::snapshot so
    // meminfo stays agnostic about what counts as ARC.
    let stats = sample_stats();

    let reader = StubReader { stats: Some(sample_stats()) };
    let app: TestApp = App::new(reader, Some(StubMem::Echo), None, None, None, None)
        .expect("App::new should succeed");
    let snap = app.mem_snapshot.expect("snapshot should be present");

    assert_eq!(
        snap.segments.len(),
        2,
        "App should pass two ARC sub-segments (size + overhead_size)"
    );

    assert_eq!(snap.segments[0].label, "ARC");
    assert_eq!(snap.segments[0].bytes, stats.size);
    assert_eq!(snap.segments[0].color, arc_size_color());

    assert_eq!(snap.segments[1].label, "ARC ovh");
    assert_eq!(snap.segments[1].bytes, stats.overhead_size);
    assert_eq!(snap.segments[1].color, arc_overhead_color());

    // Darker-purple guard: overhead must NOT reuse the primary ARC colour,
    // or the split would be invisible to the user.
    assert_ne!(
        snap.segments[0].color, snap.segments[1].color,
        "ARC and ARC ovh must use visually distinct colours"
    );
}

#[test]
fn flatten_visible_returns_only_pool_roots_when_nothing_expanded() {
    let mut app = app_with_datasets(vec![
        ds_fs("tank", vec![ds_fs("tank/home", vec![])]),
        ds_fs("scratch", vec![]),
    ]);
    // Override the seed-from-app_with_datasets — start fully collapsed.
    app.datasets_view = DatasetsView::Tree {
        expanded: NameSet::new(),
        selected: 0,
    };
    let rows = app.flatten_visible_dataset_rows();
    let names: Vec<&str> = rows.iter().map(|(_, n)| n.name.as_str()).collect();
    assert_eq!(names, vec!["tank", "scratch"]);
}

#[test]
fn flatten_visible_descends_only_into_expanded() {
    let mut app = app_with_datasets(vec![ds_fs(
        "tank",
        vec![
            ds_fs("tank/home", vec![ds_fs("tank/home/alice", vec![])]),
            ds_fs("tank/srv", vec![]),
        ],
    )]);
    let mut expanded = NameSet::new();
    expanded.insert("tank".to_string()); // expand pool root only
    app.datasets_view = DatasetsView::Tree {
        expanded,
        selected: 0,
    };
    let rows = app.flatten_visible_dataset_rows();
    let names: Vec<&str> = rows.iter().map(|(_, n)| n.name.as_str()).collect();
    assert_eq!(names, vec!["tank", "tank/home", "tank/srv"]);
    // tank/home/alice hidden because tank/home not expanded.
}

#[test]
fn flatten_visible_descends_into_nested_expanded() {
    let mut app = app_with_datasets(vec![ds_fs(
        "tank",
        vec![ds_fs("tank/home", vec![ds_fs("tank/home/alice", vec![])])],
    )]);
    let mut expanded = NameSet::new();
    expanded.insert("tank".to_string());
    expanded.insert("tank/home".to_string());
    app.datasets_view = DatasetsView::Tree {
        expanded,
        selected: 0,
    };
    let rows = app.flatten_visible_dataset_rows();
    let names: Vec<&str> = rows.iter().map(|(_, n)| n.name.as_str()).collect();
    assert_eq!(names, vec!["tank", "tank/home", "tank/home/alice"]);
}

#[test]
fn flatten_visible_depth_tags_match_tree_depth() {
    let mut app = app_with_datasets(vec![ds_fs(
        "tank",
        vec![ds_fs("tank/home", vec![ds_fs("tank/home/alice", vec![])])],
    )]);
    let mut expanded = NameSet::new();
    expanded.insert("tank".to_string());
    expanded.insert("tank/home".to_string());
    app.datasets_view = DatasetsView::Tree {
        expanded,
        selected: 0,
    };
    let depths: Vec<usize> = app
        .flatten_visible_dataset_rows()
        .iter()
        .map(|(d, _)| *d)
        .collect();
    assert_eq!(depths, vec![0, 1, 2]);
}

#[test]
fn flatten_visible_returns_empty_in_detail_view() {
    let app = app_with_datasets(vec![ds_fs("tank", vec![])]);
    let app = {
        let mut a = app;
        a.datasets_view = DatasetsView::Detail {
            name: "tank".into(),
            expanded: NameSet::new(),
        };
        a
    };
    assert_eq!(app.flatten_visible_dataset_rows().len(), 0);
}

#[test]
fn datasets_down_advances_selection() {
    let mut app = app_with_datasets(vec![ds_fs(
        "tank",
        vec![ds_fs("tank/home", vec![]), ds_fs("tank/srv", vec![])],
    )]);
    app.current_tab = Tab::Datasets;
    // After app_with_datasets, expanded contains "tank" so visible rows
    // are: tank, tank/home, tank/srv. Selection starts at 0.
    app.on_key(key(KeyCode::Down));
    if let DatasetsView::Tree { selected, .. } = &app.datasets_view {
        assert_eq!(*selected, 1);
    } else {
        panic!("expected Tree view");
    }
}

#[test]
fn datasets_down_clamps_at_last() {
    let mut app = app_with_datasets(vec![ds_fs("tank", vec![])]);
    app.current_tab = Tab::Datasets;
    app.on_key(key(KeyCode::Down));
    if let DatasetsView::Tree { selected, .. } = &app.datasets_view {
        assert_eq!(*selected, 0);
    } else {
        panic!("expected Tree view");
    }
}

#[test]
fn datasets_right_expands_selected_node() {
    let mut app = app_with_datasets(vec![ds_fs(
        "tank",
        vec![ds_fs("tank/home", vec![ds_fs("tank/home/alice", vec![])])],
    )]);
    app.current_tab = Tab::Datasets;
    if let DatasetsView::Tree { selected, .. } = &mut app.datasets_view {
        *selected = 1; // tank/home
    }
    app.on_key(key(KeyCode::Right));
    if let DatasetsView::Tree { expanded, .. } = &app.datasets_view {
        assert!(expanded.contains("tank/home"));
    } else {
        panic!("expected Tree view");
    }
}

#[test]
fn datasets_right_on_leaf_is_noop() {
    let mut app = app_with_datasets(vec![ds_fs("tank", vec![])]);
    app.current_tab = Tab::Datasets;
    let before = app.datasets_view.clone();
    app.on_key(key(KeyCode::Right));
    assert_eq!(app.datasets_view, before);
}

#[test]
fn datasets_left_collapses_expanded_node() {
    let mut app = app_with_datasets(vec![ds_fs(
        "tank",
        vec![ds_fs("tank/home", vec![])],
    )]);
    app.current_tab = Tab::Datasets;
    app.on_key(key(KeyCode::Left));
    if let DatasetsView::Tree { expanded, .. } = &app.datasets_view {
        assert!(!expanded.contains("tank"));
    } else {
        panic!("expected Tree view");
    }
}

#[test]
fn datasets_left_on_collapsed_jumps_to_parent() {
    let mut app = app_with_datasets(vec![ds_fs(
        "tank",
        vec![ds_fs("tank/home", vec![ds_fs("tank/home/alice", vec![])])],
    )]);
    app.current_tab = Tab::Datasets;
    if let DatasetsView::Tree { selected, .. } = &mut app.datasets_view {
        *selected = 1;
    }
    app.on_key(key(KeyCode::Left));
    if let DatasetsView::Tree { selected, .. } = &app.datasets_view {
        assert_eq!(*selected, 0);
    } else {
        panic!("expected Tree view");
    }
}

#[test]
fn datasets_left_on_pool_root_is_noop() {
    let mut app = app_with_datasets(vec![ds_fs("tank", vec![])]);
    app.current_tab = Tab::Datasets;
    if let DatasetsView::Tree { expanded, .. } = &mut app.datasets_view {
        expanded.clear();
    }
    let before = app.datasets_view.clone();
    app.on_key(key(KeyCode::Left));
    assert_eq!(app.datasets_view, before);
}

#[test]
fn datasets_enter_drills_into_detail() {
    let mut app = app_with_datasets(vec![ds_fs("tank", vec![])]);
    app.current_tab = Tab::Datasets;
    app.on_key(key(KeyCode::Enter));
    if let DatasetsView::Detail { name, .. } = &app.datasets_view {
        assert_eq!(name, "tank");
    } else {
        panic!("expected Detail view");
    }
}

#[test]
fn datasets_esc_returns_to_tree_with_same_selection() {
    let mut app = app_with_datasets(vec![ds_fs(
        "tank",
        vec![ds_fs("tank/home", vec![])],
    )]);
    app.current_tab = Tab::Datasets;
    let mut expanded = NameSet::new();
    expanded.insert("tank".to_string());
    app.datasets_view = DatasetsView::Detail {
        name: "tank/home".into(),
        expanded,
    };
    app.on_key(key(KeyCode::Esc));
    if let DatasetsView::Tree { selected, expanded } = &app.datasets_view {
        assert!(expanded.contains("tank"));
        assert_eq!(*selected, 1);
    } else {
        panic!("expected Tree view");
    }
}

#[test]
fn datasets_keys_ignored_when_not_on_datasets_tab() {
    let mut app = app_with_datasets(vec![ds_fs(
        "tank",
        vec![ds_fs("tank/home", vec![])],
    )]);
    app.current_tab = Tab::Pools;
    let before = app.datasets_view.clone();
    app.on_key(key(KeyCode::Down));
    assert_eq!(app.datasets_view, before);
}

#[test]
fn datasets_mouse_scroll_moves_selection() {
    let mut app = app_with_datasets(vec![ds_fs(
        "tank",
        vec![ds_fs("tank/home", vec![])],
    )]);
    app.current_tab = Tab::Datasets;
    let scroll_down = MouseEvent {
        kind: MouseEventKind::ScrollDown,
        column: 0,
        row: 0,
        modifiers: KeyModifiers::none(),
    };
    app.on_mouse(scroll_down);
    if let DatasetsView::Tree { selected, .. } = &app.datasets_view {
        assert_eq!(*selected, 1);
    } else {
        panic!("expected Tree view");
    }
}

#[test]
fn leaving_datasets_while_in_detail_collapses_to_tree_via_overview_key() {
    let mut app = app_with_datasets(vec![ds_fs(
        "tank",
        vec![ds_fs("tank/home", vec![])],
    )]);
    app.current_tab = Tab::Datasets;
    let mut expanded = NameSet::new();
    expanded.insert("tank".to_string());
    app.datasets_view = DatasetsView::Detail {
        name: "tank/home".into(),
        expanded,
    };
    app.on_key(key(KeyCode::Char('1')));
    assert_eq!(app.current_tab, Tab::Overview);
    assert!(matches!(app.datasets_view, DatasetsView::Tree { .. }));
}

#[test]
fn leaving_datasets_while_in_detail_collapses_to_tree_via_arc_key() {
    let mut app = app_with_datasets(vec![ds_fs(
        "tank",
        vec![ds_fs("tank/home", vec![])],
    )]);
    app.current_tab = Tab::Datasets;
    let mut expanded = NameSet::new();
    expanded.insert("tank".to_string());
    app.datasets_view = DatasetsView::Detail {
        name: "tank/home".into(),
        expanded,
    };
    app.on_key(key(KeyCode::Char('4')));
    assert_eq!(app.current_tab, Tab::Arc);
    assert!(matches!(app.datasets_view, DatasetsView::Tree { .. }));
}

#[test]
fn pressing_datasets_key_while_already_on_datasets_preserves_detail() {
    let mut app = app_with_datasets(vec![ds_fs(
        "tank",
        vec![ds_fs("tank/home", vec![])],
    )]);
    app.current_tab = Tab::Datasets;
    let mut expanded = NameSet::new();
    expanded.insert("tank".to_string());
    app.datasets_view = DatasetsView::Detail {
        name: "tank/home".into(),
        expanded,
    };
    app.on_key(key(KeyCode::Char('3')));
    assert_eq!(app.current_tab, Tab::Datasets);
    assert!(
        matches!(app.datasets_view, DatasetsView::Detail { .. }),
        "no-op tab switch should not disturb the sub-view"
    );
}

fn pool_with_vdevs(name: &str, leaf_names: &[&str]) -> PoolInfo {
    let leaves: Vec<VdevNode> = leaf_names
        .iter()
        .map(|n| VdevNode {
            name: (*n).into(),
            kind: VdevKind::Disk,
            state: VdevState::Online,
            size_bytes: Some(1 << 30),
            errors: ErrorCounts::default(),
            children: vec![],
            device_path: Some(format!("/dev/{n}")),
        })
        .collect();
    let raidz = VdevNode {
        name: "raidz1-0".into(),
        kind: VdevKind::Raidz { parity: 1 },
        state: VdevState::Online,
        size_bytes: Some(4 << 30),
        errors: ErrorCounts::default(),
        children: leaves,
        device_path: None,
    };
    PoolInfo {
        name: name.into(),
        health: PoolHealth::Online,
        allocated_bytes: 1 << 30,
        size_bytes: 4 << 30,
        free_bytes: 3 << 30,
        fragmentation_pct: Some(5),
        scrub: ScrubState::Never,
        errors: ErrorCounts::default(),
        root_vdev: VdevNode {
            name: name.into(),
            kind: VdevKind::Root,
            state: VdevState::Online,
            size_bytes: Some(4 << 30),
            errors: ErrorCounts::default(),
            children: vec![raidz],
            device_path: None,
        },
    }
}

fn app_via_new_with_pools(pools: Vec<PoolInfo>) -> TestApp {
    let reader = StubReader { stats: Some(sample_stats()) };
    let mem = Some(StubMem::Linux(LinuxMemSource::new(Some(MEMINFO))));
    let mut app = App::new(reader, mem, Some(FakePools::new(pools)), None, None, None)
        .expect("App::new should succeed");
    app.current_tab = Tab::Pools;
    app
}

#[test]
fn tree_selection_moves_within_visible_rows() {
    let mut app = app_via_new_with_pools(vec![pool_with_vdevs("tank", &["sda", "sdb"])]);
    // tank is auto-expanded after first paint, so visible rows are:
    // 0: tank (Pool), 1: raidz1-0 (Vdev), 2: sda, 3: sdb.
    app.on_key(key(KeyCode::Down));
    let PoolsView::Tree { selected, .. } = &app.pools_view else { panic!() };
    assert_eq!(*selected, 1);
    app.on_key(key(KeyCode::Down));
    app.on_key(key(KeyCode::Down));
    let PoolsView::Tree { selected, .. } = &app.pools_view else { panic!() };
    assert_eq!(*selected, 3);
    app.on_key(key(KeyCode::Down)); // off the end → no-op
    let PoolsView::Tree { selected, .. } = &app.pools_view else { panic!() };
    assert_eq!(*selected, 3);
    app.on_key(key(KeyCode::Up));
    let PoolsView::Tree { selected, .. } = &app.pools_view else { panic!() };
    assert_eq!(*selected, 2);
}

#[test]
fn right_arrow_expands_collapsed_pool() {
    let mut app = app_via_new_with_pools(vec![pool_with_vdevs("tank", &["sda"])]);
    // Force collapsed state (override default-expanded behavior).
    if let PoolsView::Tree { expanded, selected } = &mut app.pools_view {
        expanded.clear();
        *selected = 0;
    }
    assert_eq!(app.flatten_visible_pool_rows().len(), 1); // pool only
    app.on_key(key(KeyCode::Right));
    // Now expanded → raidz + sda visible.
    assert!(app.flatten_visible_pool_rows().len() >= 2);
    let PoolsView::Tree { expanded, .. } = &app.pools_view else { panic!() };
    assert!(expanded.contains("tank"));
}

#[test]
fn right_arrow_on_already_expanded_pool_is_no_op() {
    let mut app = app_via_new_with_pools(vec![pool_with_vdevs("tank", &["sda"])]);
    // tank is auto-expanded by default-expand.
    let before = app.flatten_visible_pool_rows().len();
    app.on_key(key(KeyCode::Right));
    let after = app.flatten_visible_pool_rows().len();
    assert_eq!(before, after);
}

#[test]
fn right_arrow_on_vdev_row_is_no_op() {
    let mut app = app_via_new_with_pools(vec![pool_with_vdevs("tank", &["sda"])]);
    // Move to row 1 (raidz1-0).
    app.on_key(key(KeyCode::Down));
    let before = app.flatten_visible_pool_rows().len();
    app.on_key(key(KeyCode::Right));
    let after = app.flatten_visible_pool_rows().len();
    assert_eq!(before, after);
}

#[test]
fn left_arrow_collapses_expanded_pool_when_on_pool_row() {
    let mut app = app_via_new_with_pools(vec![pool_with_vdevs("tank", &["sda"])]);
    // Default-expanded.
    let PoolsView::Tree { expanded, .. } = &app.pools_view else { panic!() };
    assert!(expanded.contains("tank"));
    // Selected starts at 0 (the pool row).
    app.on_key(key(KeyCode::Left));
    let PoolsView::Tree { expanded, .. } = &app.pools_view else { panic!() };
    assert!(!expanded.contains("tank"));
}

#[test]
fn left_arrow_jumps_to_parent_pool_when_on_vdev_row() {
    let mut app = app_via_new_with_pools(vec![pool_with_vdevs("tank", &["sda"])]);
    // Move to sda (row 2: pool, raidz, sda).
    app.on_key(key(KeyCode::Down));
    app.on_key(key(KeyCode::Down));
    let PoolsView::Tree { selected, .. } = &app.pools_view else { panic!() };
    assert_eq!(*selected, 2);
    app.on_key(key(KeyCode::Left));
    let PoolsView::Tree { selected, .. } = &app.pools_view else { panic!() };
    assert_eq!(*selected, 0); // jumped to the tank pool row
}

#[test]
fn enter_on_pool_row_drills_to_pool_detail() {
    let mut app = app_via_new_with_pools(vec![pool_with_vdevs("tank", &["sda"])]);
    app.on_key(key(KeyCode::Enter));
    match &app.pools_view {
        PoolsView::Detail { pool_index, .. } => assert_eq!(*pool_index, 0),
        other => panic!("expected Detail, got {other:?}"),
    }
}

#[test]
fn enter_on_vdev_row_drills_to_containing_pool_detail() {
    let mut app = app_via_new_with_pools(vec![
        pool_with_vdevs("tank", &["sda"]),
        pool_with_vdevs("rpool", &["nvme0n1"]),
    ]);
    // Visible rows after default-expand: 0 tank, 1 raidz1-0, 2 sda,
    // 3 rpool, 4 raidz1-0, 5 nvme0n1. Move to row 5 (nvme0n1 under rpool).
    for _ in 0..5 {
        app.on_key(key(KeyCode::Down));
    }
    app.on_key(key(KeyCode::Enter));
    match &app.pools_view {
        PoolsView::Detail { pool_index, .. } => assert_eq!(*pool_index, 1),
        other => panic!("expected Detail, got {other:?}"),
    }
}

#[test]
fn esc_from_detail_returns_to_tree_with_same_selection() {
    let mut app = app_via_new_with_pools(vec![pool_with_vdevs("tank", &["sda"])]);
    // Move to row 2 (sda), drill, then esc.
    app.on_key(key(KeyCode::Down));
    app.on_key(key(KeyCode::Down));
    app.on_key(key(KeyCode::Enter));
    assert!(matches!(app.pools_view, PoolsView::Detail { .. }));
    app.on_key(key(KeyCode::Esc));
    match &app.pools_view {
        PoolsView::Tree { selected, .. } => {
            // After esc + clamp, the selection lands on something valid.
            // The exact value isn't load-bearing — just that we're back
            // in Tree and `selected` is in-range.
            assert!(*selected < app.flatten_visible_pool_rows().len());
        }
        other => panic!("expected Tree, got {other:?}"),
    }
}

#[test]
fn expand_state_survives_drill_and_return() {
    let mut app = app_via_new_with_pools(vec![
        pool_with_vdevs("tank", &["sda"]),
        pool_with_vdevs("rpool", &["nvme0n1"]),
    ]);
    // Collapse rpool manually.
    if let PoolsView::Tree { expanded, .. } = &mut app.pools_view {
        expanded.remove("rpool");
    }
    let before: NameSet = match &app.pools_view {
        PoolsView::Tree { expanded, .. } => expanded.clone(),
        _ => panic!(),
    };
    app.on_key(key(KeyCode::Enter)); // drill on tank
    app.on_key(key(KeyCode::Esc));   // back
    let after: NameSet = match &app.pools_view {
        PoolsView::Tree { expanded, .. } => expanded.clone(),
        _ => panic!(),
    };
    assert_eq!(before, after);
}

#[test]
fn prune_expanded_pools_drops_vanished_pools() {
    let mut app = app_via_new_with_pools(vec![pool_with_vdevs("tank", &["sda"])]);
    // Manually add an extra entry that doesn't correspond to any pool.
    if let PoolsView::Tree { expanded, .. } = &mut app.pools_view {
        expanded.insert("ghost".into());
    }
    // Refresh — prune should drop "ghost" but keep "tank".
    let _ = app.refresh();
    let PoolsView::Tree { expanded, .. } = &app.pools_view else { panic!() };
    assert!(expanded.contains("tank"));
    assert!(!expanded.contains("ghost"));
}

#[test]
fn default_expanded_only_runs_once() {
    let mut app = app_via_new_with_pools(vec![pool_with_vdevs("tank", &["sda"])]);
    // After construction, tank is auto-expanded.
    assert!(matches!(&app.pools_view,
        PoolsView::Tree { expanded, .. } if expanded.contains("tank")));
    // User collapses tank.
    if let PoolsView::Tree { expanded, .. } = &mut app.pools_view {
        expanded.remove("tank");
    }
    // Refresh — first-paint logic must NOT re-add tank, because
    // pools_first_paint was set to false on the first refresh.
    let _ = app.refresh();
    let PoolsView::Tree { expanded, .. } = &app.pools_view else { panic!() };
    assert!(!expanded.contains("tank"),
        "default-expand re-fired after user collapse — pools_first_paint logic broken");
}

#[test]
fn empty_snapshot_clamps_selection_to_zero() {
    let mut app = app_via_new_with_pools(vec![]);
    // No pools → no visible rows.
    assert_eq!(app.flatten_visible_pool_rows().len(), 0);
    let PoolsView::Tree { selected, .. } = &app.pools_view else { panic!() };
    assert_eq!(*selected, 0);
    // j/k on empty are no-ops.
    app.on_key(key(KeyCode::Down));
    let PoolsView::Tree { selected, .. } = &app.pools_view else { panic!() };
    assert_eq!(*selected, 0);
}

#[test]
fn switch_tab_collapses_detail_to_tree() {
    let mut app = app_via_new_with_pools(vec![pool_with_vdevs("tank", &["sda"])]);
    app.on_key(key(KeyCode::Enter));
    assert!(matches!(app.pools_view, PoolsView::Detail { .. }));
    // Tab switch → cycle next, then back.
    app.cycle_tab(1);
    // We've left Pools; pools_view should already be Tree.
    assert!(matches!(app.pools_view, PoolsView::Tree { .. }));
    // Coming back via hotkey '2' should land on Tree.
    app.on_key(key(KeyCode::Char('2')));
    assert!(matches!(app.pools_view, PoolsView::Tree { .. }));
}
/// A dashboard over live fakes, on the given tab.
fn live_app(pools: Vec<PoolInfo>, roots: Vec<DatasetNode>, tab: Tab) -> TestApp {
    let reader = StubReader { stats: Some(sample_stats()) };
    let mut app = App::new(
        reader,
        Some(StubMem::Echo),
        Some(FakePools::new(pools)),
        None,
        Some(FakeDatasets::new(roots)),
        None,
    )
    .expect("App::new should succeed");
    app.current_tab = tab;
    app
}

fn selected_pool_row(app: &TestApp) -> usize {
    match &app.pools_view {
        PoolsView::Tree { selected, .. } => *selected,
        PoolsView::Detail { .. } => panic!("expected Tree view"),
    }
}

fn selected_dataset_row(app: &TestApp) -> usize {
    match &app.datasets_view {
        DatasetsView::Tree { selected, .. } => *selected,
        DatasetsView::Detail { .. } => panic!("expected Tree view"),
    }
}

#[test]
fn start_fails_where_the_arc_cannot_be_read() {
    let r: Result<TestApp, ArcStatsError> =
        App::new(StubReader { stats: None }, None, None, None, None, None);
    match r {
        Err(e) => assert_eq!(e.describe(), "no counters"),
        Ok(_) => panic!("expected an error"),
    }
}

#[test]
fn start_keeps_the_errors_of_missing_sources() {
    let app: TestApp = App::new(
        StubReader { stats: Some(sample_stats()) },
        None,
        None,
        Some("no libzfs".to_string()),
        None,
        Some("none either".to_string()),
    )
    .expect("App::new should succeed");
    assert_eq!(app.pools_init_error.as_deref(), Some("no libzfs"));
    assert_eq!(app.datasets_init_error.as_deref(), Some("none either"));
    assert!(app.pools_refresh_error.is_none());
    assert!(app.mem_snapshot.is_none());
    assert!(app.ram_segments().is_none());
    assert_eq!(app.current_tab, Tab::Overview);
    assert!(app.previous.is_none());
}

#[test]
fn start_expands_the_roots_only() {
    let app = live_app(
        vec![],
        vec![
            ds_fs("tank", vec![ds_fs("tank/home", vec![ds_fs("tank/home/a", vec![])])]),
            ds_fs("rpool", vec![]),
        ],
        Tab::Datasets,
    );
    let names: Vec<&str> = app
        .flatten_visible_dataset_rows()
        .iter()
        .map(|(_, n)| n.name.as_str())
        .collect();
    assert_eq!(names, vec!["tank", "tank/home", "rpool"]);
}

#[test]
fn refresh_shifts_the_readings() {
    let mut app = live_app(vec![], vec![], Tab::Overview);
    let mut next = sample_stats();
    next.hits = 9500;
    next.misses = 900;
    next.iohits = 101;
    app.arc_reader.stats = Some(next);
    assert!(app.refresh().is_ok());
    assert_eq!(app.current, next);
    assert_eq!(app.previous, Some(sample_stats()));
    assert_eq!(app.throughput_hits(), Some(500));
    assert_eq!(app.throughput_misses(), Some(0));
    assert_eq!(app.throughput_iohits(), Some(1));
    let (total, segments) = app.ram_segments().unwrap();
    assert_eq!(total, 100 * 1024 * 1024 * 1024);
    assert_eq!(segments[0].bytes, next.size);
}

#[test]
fn failed_refresh_changes_nothing() {
    let mut app = live_app(
        vec![test_pool("a", PoolHealth::Online, 100, 50)],
        vec![],
        Tab::Pools,
    );
    app.arc_reader.stats = None;
    app.pools_source = Some(FakePools::new(vec![]));
    assert!(app.refresh().is_err());
    assert_eq!(app.current, sample_stats());
    assert!(app.previous.is_none());
    assert_eq!(app.pools_snapshot.len(), 1);
}

#[test]
fn r_refreshes_and_ignores_failure() {
    let mut app = live_app(vec![], vec![], Tab::Overview);
    app.on_key(key(KeyCode::Char('r')));
    assert!(app.previous.is_some());
    app.arc_reader.stats = None;
    app.on_key(key(KeyCode::Char('r')));
    assert_eq!(app.current, sample_stats());
    assert!(!app.should_quit);
}

#[test]
fn errors_of_a_refresh_are_cleared_by_the_next() {
    let mut app = live_app(vec![], vec![], Tab::Overview);
    app.pools_source = Some(FakePools::new(vec![]).fail_next_refresh("first"));
    app.datasets_source = Some(FakeDatasets::new(vec![]).fail_next_refresh("second"));
    assert!(app.refresh().is_ok());
    assert_eq!(app.pools_refresh_error.as_deref(), Some("first"));
    assert_eq!(app.datasets_refresh_error.as_deref(), Some("second"));
    assert!(app.refresh().is_ok());
    assert!(app.pools_refresh_error.is_none());
    assert!(app.datasets_refresh_error.is_none());
}

#[test]
fn events_are_passed_on() {
    let mut app = live_app(
        vec![pool_with_vdevs("tank", &["sda"])],
        vec![],
        Tab::Pools,
    );
    let scroll = |kind: MouseEventKind| {
        Event::Mouse(MouseEvent {
            kind,
            column: 0,
            row: 0,
            modifiers: KeyModifiers::none(),
        })
    };
    assert!(!app.handle(scroll(MouseEventKind::ScrollDown)));
    assert!(!app.handle(scroll(MouseEventKind::Other)));
    assert_eq!(selected_pool_row(&app), 1);
    assert!(!app.handle(scroll(MouseEventKind::ScrollUp)));
    assert!(!app.handle(scroll(MouseEventKind::ScrollUp)));
    assert_eq!(selected_pool_row(&app), 0);
    assert!(!app.handle(Event::Other));
    assert!(app.previous.is_none());
    assert!(!app.handle(Event::Timeout));
    assert!(app.previous.is_some());
    assert!(app.handle(Event::Key(key(KeyCode::Char('q')))));
}

#[test]
fn c_without_control_does_not_quit() {
    let mut app = live_app(vec![], vec![], Tab::Pools);
    app.on_key(key(KeyCode::Char('c')));
    assert!(!app.should_quit);
    app.on_key(KeyEvent::new(KeyCode::Char('c'), KeyModifiers { bits: 1 }));
    assert!(!app.should_quit);
    app.on_key(KeyEvent::new(KeyCode::Char('c'), KeyModifiers { bits: 3 }));
    assert!(app.should_quit);
}

#[test]
fn leaving_the_details_of_a_pool_selects_it() {
    let mut app = live_app(
        vec![
            pool_with_vdevs("tank", &["sda"]),
            pool_with_vdevs("rpool", &["nvme0n1"]),
        ],
        vec![],
        Tab::Pools,
    );
    app.pools_view = match &app.pools_view {
        PoolsView::Tree { expanded, .. } => PoolsView::Detail {
            pool_index: 1,
            expanded: expanded.clone(),
        },
        other => panic!("expected Tree, got {other:?}"),
    };
    app.on_key(key(KeyCode::Char('1')));
    // Rows: tank, raidz1-0, sda, rpool.
    assert_eq!(selected_pool_row(&app), 3);
}

#[test]
fn esc_from_the_details_of_a_pool_selects_the_first_row() {
    let mut app = app_with_pools(vec![
        test_pool("a", PoolHealth::Online, 100, 50),
        test_pool("b", PoolHealth::Online, 100, 50),
    ]);
    app.current_tab = Tab::Pools;
    app.pools_view = PoolsView::Detail {
        pool_index: 1,
        expanded: NameSet::new(),
    };
    app.on_key(key(KeyCode::Down));
    assert!(matches!(app.pools_view, PoolsView::Detail { pool_index: 1, .. }));
    app.on_key(key(KeyCode::Backspace));
    assert_eq!(selected_pool_row(&app), 0);
}

#[test]
fn collapsing_and_expanding_a_pool_restores_the_tree() {
    let mut app = live_app(
        vec![
            pool_with_vdevs("tank", &["sda"]),
            pool_with_vdevs("rpool", &["nvme0n1"]),
        ],
        vec![],
        Tab::Pools,
    );
    for _ in 0..3 {
        app.on_key(key(KeyCode::Char('j')));
    }
    let before = app.pools_view.clone();
    app.on_key(key(KeyCode::Char('h')));
    assert_eq!(app.flatten_visible_pool_rows().len(), 4);
    app.on_key(key(KeyCode::Char('l')));
    assert_eq!(app.pools_view, before);
}

#[test]
fn collapsing_and_expanding_a_dataset_restores_the_tree() {
    let mut app = live_app(
        vec![],
        vec![ds_fs("tank", vec![ds_fs("tank/home", vec![ds_fs("tank/home/a", vec![])])])],
        Tab::Datasets,
    );
    app.on_key(key(KeyCode::Char('j')));
    app.on_key(key(KeyCode::Char('l')));
    let before = app.datasets_view.clone();
    app.on_key(key(KeyCode::Char('h')));
    assert_ne!(app.datasets_view, before);
    app.on_key(key(KeyCode::Char('l')));
    assert_eq!(app.datasets_view, before);
}

#[test]
fn details_of_a_dataset_and_back_restore_the_tree() {
    let mut app = live_app(
        vec![],
        vec![ds_fs("tank", vec![ds_fs("tank/home", vec![]), ds_fs("tank/srv", vec![])])],
        Tab::Datasets,
    );
    app.on_key(key(KeyCode::End));
    assert_eq!(selected_dataset_row(&app), 2);
    let before = app.datasets_view.clone();
    app.on_key(key(KeyCode::Enter));
    assert!(matches!(&app.datasets_view, DatasetsView::Detail { name, .. } if name == "tank/srv"));
    app.on_key(key(KeyCode::Backspace));
    assert_eq!(app.datasets_view, before);
    app.on_key(key(KeyCode::Home));
    assert_eq!(selected_dataset_row(&app), 0);
    app.on_key(key(KeyCode::Up));
    assert_eq!(selected_dataset_row(&app), 0);
}

#[test]
fn left_goes_from_a_grandchild_to_its_parent() {
    let mut app = live_app(
        vec![],
        vec![ds_fs(
            "tank",
            vec![
                ds_fs("tank/a", vec![ds_fs("tank/a/x", vec![])]),
                ds_fs("tank/b", vec![ds_fs("tank/b/y", vec![])]),
            ],
        )],
        Tab::Datasets,
    );
    if let DatasetsView::Tree { expanded, selected } = &mut app.datasets_view {
        expanded.insert("tank/a".to_string());
        expanded.insert("tank/b".to_string());
        *selected = 4;
    }
    app.on_key(key(KeyCode::Left));
    assert_eq!(selected_dataset_row(&app), 3);
    app.on_key(key(KeyCode::Left));
    app.on_key(key(KeyCode::Left));
    assert_eq!(selected_dataset_row(&app), 0);
}

#[test]
fn selection_stays_on_a_row_where_a_name_occurs_twice() {
    let twice = || ds_fs("tank", vec![ds_fs("tank/x", vec![])]);
    let mut app = live_app(vec![], vec![twice(), twice()], Tab::Datasets);
    // Rows: tank, tank/x, tank, tank/x. Collapsing the second collapses both.
    if let DatasetsView::Tree { selected, .. } = &mut app.datasets_view {
        *selected = 2;
    }
    app.on_key(key(KeyCode::Left));
    assert_eq!(app.flatten_visible_dataset_rows().len(), 2);
    assert_eq!(selected_dataset_row(&app), 1);
}

#[test]
fn wheel_stops_at_both_ends() {
    let mut app = live_app(
        vec![],
        vec![ds_fs("a", vec![]), ds_fs("b", vec![]), ds_fs("c", vec![])],
        Tab::Datasets,
    );
    app.scroll(100);
    assert_eq!(selected_dataset_row(&app), 2);
    app.scroll(-1);
    assert_eq!(selected_dataset_row(&app), 1);
    app.scroll(i32::MIN);
    assert_eq!(selected_dataset_row(&app), 0);
    app.scroll(i32::MAX);
    assert_eq!(selected_dataset_row(&app), 2);
    app.current_tab = Tab::Overview;
    app.scroll(-1);
    assert_eq!(selected_dataset_row(&app), 2);
}

#[test]
fn wheel_does_nothing_without_rows() {
    let mut app = live_app(vec![], vec![], Tab::Pools);
    app.scroll(1);
    assert_eq!(selected_pool_row(&app), 0);
    app.current_tab = Tab::Datasets;
    app.scroll(1);
    assert_eq!(selected_dataset_row(&app), 0);
}

#[test]
fn tabs_go_round_by_any_number() {
    let mut app = live_app(vec![], vec![], Tab::Pools);
    app.cycle_tab(-5);
    assert_eq!(app.current_tab, Tab::Overview);
    app.cycle_tab(4);
    assert_eq!(app.current_tab, Tab::Overview);
    app.cycle_tab(7);
    assert_eq!(app.current_tab, Tab::Arc);
    app.cycle_tab(i32::MIN);
    assert_eq!(app.current_tab, Tab::Arc);
}

#[test]
fn first_pools_are_expanded_when_they_arrive_late() {
    let mut app = live_app(vec![], vec![], Tab::Pools);
    app.pools_source = Some(FakePools::new(vec![pool_with_vdevs("tank", &["sda"])]));
    assert!(app.refresh().is_ok());
    assert_eq!(app.flatten_visible_pool_rows().len(), 3);
    app.pools_source = Some(FakePools::new(vec![
        pool_with_vdevs("tank", &["sda"]),
        pool_with_vdevs("rpool", &["sdb"]),
    ]));
    assert!(app.refresh().is_ok());
    assert_eq!(app.flatten_visible_pool_rows().len(), 4);
}

#[test]
fn figures_without_anything_to_divide_by() {
    let mut stats = sample_stats();
    stats.hits = 0;
    stats.misses = 0;
    stats.c_max = 0;
    stats.compressed_size = 0;
    stats.size = 0;
    let app = app_with(stats, None);
    assert_eq!(app.hit_ratio_overall(), Ratio { part: 0, whole: 1 });
    assert_eq!(app.arc_usage_pct(), Ratio { part: 0, whole: 1 });
    assert!(app.arc_compression_ratio().is_none());
    for row in app.arc_breakdown() {
        assert_eq!(row.share, Ratio { part: 0, whole: 1 });
    }
}

#[test]
fn exact_figures() {
    let app = app_with(sample_stats(), None);
    assert_eq!(app.hit_ratio_overall(), Ratio { part: 9000, whole: 10000 });
    assert_eq!(app.hit_ratio_demand(), Ratio { part: 8000, whole: 8800 });
    assert_eq!(app.hit_ratio_prefetch(), Ratio { part: 1000, whole: 1200 });
    let r = app.arc_compression_ratio().unwrap();
    assert!((value(r) - 1.6).abs() < 1e-9);
    let rows = app.arc_breakdown();
    assert_eq!(rows.len(), 9);
    assert_eq!(rows[1].label, "MFU meta");
    assert_eq!(rows[1].bytes, 1024 * 1024 * 1024);
    assert!((percent(rows[1].share) - 10.0).abs() < 1e-9);
    assert_eq!(rows[8].label, "Bonus");
}

#[test]
fn input_leaves_data_alone() {
    let mut app = live_app(
        vec![pool_with_vdevs("tank", &["sda"])],
        vec![ds_fs("tank", vec![])],
        Tab::Pools,
    );
    app.pools_refresh_error = Some("stale".to_string());
    for code in [
        KeyCode::Down,
        KeyCode::Left,
        KeyCode::Enter,
        KeyCode::Esc,
        KeyCode::Tab,
        KeyCode::Enter,
        KeyCode::Char('4'),
        KeyCode::Other,
    ] {
        app.on_key(key(code));
    }
    assert_eq!(app.current, sample_stats());
    assert!(app.previous.is_none());
    assert_eq!(app.pools_snapshot.len(), 1);
    assert_eq!(app.datasets_snapshot.len(), 1);
    assert_eq!(app.pools_refresh_error.as_deref(), Some("stale"));
}

#[test]
fn wish_to_quit_stays() {
    let mut app = live_app(vec![], vec![], Tab::Datasets);
    app.on_key(key(KeyCode::Char('q')));
    app.on_key(key(KeyCode::Char('1')));
    app.on_key(key(KeyCode::Esc));
    assert!(app.refresh().is_ok());
    assert!(app.should_quit);
    assert_eq!(app.current_tab, Tab::Overview);
}

#[test]
fn trees_are_as_before_after_a_visit_elsewhere() {
    let mut app = live_app(
        vec![pool_with_vdevs("tank", &["sda", "sdb"])],
        vec![ds_fs("tank", vec![ds_fs("tank/home", vec![])])],
        Tab::Pools,
    );
    app.on_key(key(KeyCode::End));
    let pools = app.pools_view.clone();
    let datasets = app.datasets_view.clone();
    for t in ['3', '1', '4', '2'] {
        app.on_key(key(KeyCode::Char(t)));
    }
    assert_eq!(app.current_tab, Tab::Pools);
    assert_eq!(app.pools_view, pools);
    assert_eq!(app.datasets_view, datasets);
}

#[test]
fn datasets_that_come_later_are_not_expanded() {
    let mut app = live_app(vec![], vec![ds_fs("tank", vec![])], Tab::Datasets);
    app.datasets_source = Some(FakeDatasets::new(vec![
        ds_fs("rpool", vec![ds_fs("rpool/root", vec![])]),
        ds_fs("tank", vec![]),
    ]));
    assert!(app.refresh().is_ok());
    let names: Vec<&str> = app
        .flatten_visible_dataset_rows()
        .iter()
        .map(|(_, n)| n.name.as_str())
        .collect();
    assert_eq!(names, vec!["rpool", "tank"]);
}

#[test]
fn refresh_with_the_same_answers_keeps_both_trees() {
    let mut app = live_app(
        vec![pool_with_vdevs("tank", &["sda"])],
        vec![ds_fs("tank", vec![ds_fs("tank/home", vec![])])],
        Tab::Pools,
    );
    app.on_key(key(KeyCode::Down));
    let pools = app.pools_view.clone();
    let datasets = app.datasets_view.clone();
    assert!(app.refresh().is_ok());
    assert_eq!(app.pools_view, pools);
    assert_eq!(app.datasets_view, datasets);
}

#[test]
fn errors_of_missing_sources_stay() {
    let mut app = live_app(vec![], vec![], Tab::Overview);
    app.pools_init_error = Some("no libzfs".to_string());
    app.datasets_init_error = Some("none either".to_string());
    app.on_key(key(KeyCode::Char('r')));
    app.on_key(key(KeyCode::Tab));
    assert_eq!(app.pools_init_error.as_deref(), Some("no libzfs"));
    assert_eq!(app.datasets_init_error.as_deref(), Some("none either"));
}

#[test]
fn expanding_and_collapsing_a_pool_restores_the_tree() {
    let mut app = live_app(
        vec![
            pool_with_vdevs("tank", &["sda"]),
            pool_with_vdevs("rpool", &["nvme0n1"]),
        ],
        vec![],
        Tab::Pools,
    );
    if let PoolsView::Tree { expanded, selected } = &mut app.pools_view {
        expanded.remove("rpool");
        *selected = 3;
    }
    let before = app.pools_view.clone();
    app.on_key(key(KeyCode::Right));
    let opened = app.pools_view.clone();
    assert_ne!(opened, before);
    app.on_key(key(KeyCode::Right));
    assert_eq!(app.pools_view, opened);
    app.on_key(key(KeyCode::Left));
    assert_eq!(app.pools_view, before);
}

#[test]
fn expanding_and_collapsing_a_dataset_restores_the_tree() {
    let mut app = live_app(
        vec![],
        vec![ds_fs("tank", vec![ds_fs("tank/home", vec![ds_fs("tank/home/a", vec![])])])],
        Tab::Datasets,
    );
    app.on_key(key(KeyCode::Down));
    let before = app.datasets_view.clone();
    app.on_key(key(KeyCode::Right));
    let opened = app.datasets_view.clone();
    assert_ne!(opened, before);
    app.on_key(key(KeyCode::Right));
    assert_eq!(app.datasets_view, opened);
    app.on_key(key(KeyCode::Left));
    assert_eq!(app.datasets_view, before);
}

#[test]
fn details_stay_through_other_keys() {
    for back in [KeyCode::Esc, KeyCode::Backspace] {
        let mut app = live_app(
            vec![pool_with_vdevs("tank", &["sda"])],
            vec![ds_fs("tank", vec![ds_fs("tank/home", vec![])])],
            Tab::Datasets,
        );
        app.on_key(key(KeyCode::Down));
        let tree = app.datasets_view.clone();
        app.on_key(key(KeyCode::Enter));
        let details = app.datasets_view.clone();
        for other in [KeyCode::Left, KeyCode::End, KeyCode::Char('j'), KeyCode::Enter] {
            app.on_key(key(other));
            assert_eq!(app.datasets_view, details);
        }
        app.on_key(key(back));
        assert_eq!(app.datasets_view, tree);

        app.current_tab = Tab::Pools;
        app.on_key(key(KeyCode::Down));
        app.on_key(key(KeyCode::Enter));
        let details = app.pools_view.clone();
        for other in [KeyCode::Left, KeyCode::End, KeyCode::Char('j'), KeyCode::Enter] {
            app.on_key(key(other));
            assert_eq!(app.pools_view, details);
        }
        app.on_key(key(back));
        match &app.pools_view {
            PoolsView::Tree { expanded, selected } => {
                assert!(expanded.contains("tank"));
                assert!(*selected < app.flatten_visible_pool_rows().len());
            }
            other => panic!("expected Tree, got {other:?}"),
        }
    }
}
