//! What the dashboard holds, and what each event makes of it.
use vstd::prelude::*;

use crate::app::input::{KeyCode, KeyEvent, KeyModifiers, MouseEventKind};
use crate::app::tab::Tab;
use crate::app::view;
use crate::arcstats::ArcStats;
use crate::datasets;
use crate::datasets::DatasetNode;
use crate::meminfo::MemSnapshot;
use crate::pools::rows;
use crate::pools::types::PoolInfo;

verus! {

/// What an `App` holds, but for its sources.
pub ghost struct AppModel {
    pub current: ArcStats,
    pub previous: Option<ArcStats>,
    pub mem: Option<MemSnapshot>,
    pub should_quit: bool,
    pub tab: Tab,
    pub pools: Seq<PoolInfo>,
    pub pools_error: Option<Seq<char>>,
    pub pools_init_error: Option<Seq<char>>,
    pub pools_view: view::PoolsModel,
    pub first_paint: bool,
    pub datasets: Seq<DatasetNode>,
    pub datasets_error: Option<Seq<char>>,
    pub datasets_init_error: Option<Seq<char>>,
    pub datasets_view: view::DatasetsModel,
}

/// `selected` where that is one of `n` rows, else the last of them, or 0 where there is none.
pub open spec fn clamp(selected: int, n: int) -> int {
    if n == 0 {
        0
    } else if selected >= n {
        n - 1
    } else {
        selected
    }
}

/// The names of all pools.
pub open spec fn pool_names(pools: Seq<PoolInfo>) -> Set<Seq<char>> {
    Seq::new(pools.len(), |i: int| pools[i].name@).to_set()
}

/// The Pools tab with all pools expanded, if the tree is shown.
pub open spec fn pools_opened(v: view::PoolsModel, pools: Seq<PoolInfo>) -> view::PoolsModel {
    match v {
        view::PoolsModel::Tree { expanded, selected } => view::PoolsModel::Tree {
            expanded: expanded.union(pool_names(pools)),
            selected,
        },
        v => v,
    }
}

/// The Pools tab without the names of pools that are gone.
pub open spec fn pools_pruned(v: view::PoolsModel, pools: Seq<PoolInfo>) -> view::PoolsModel {
    match v {
        view::PoolsModel::Tree { expanded, selected } => view::PoolsModel::Tree {
            expanded: expanded.intersect(pool_names(pools)),
            selected,
        },
        view::PoolsModel::Detail { pool_index, expanded } => view::PoolsModel::Detail {
            pool_index,
            expanded: expanded.intersect(pool_names(pools)),
        },
    }
}

/// The Pools tab with the selection on a visible row, and with the tree in place of the details
/// of a pool that is gone.
pub open spec fn pools_clamped(v: view::PoolsModel, pools: Seq<PoolInfo>) -> view::PoolsModel {
    match v {
        view::PoolsModel::Tree { expanded, selected } => view::PoolsModel::Tree {
            expanded,
            selected: clamp(selected, rows::pool_rows(pools, expanded).len() as int),
        },
        view::PoolsModel::Detail { pool_index, expanded } => if pool_index >= pools.len() {
            view::PoolsModel::Tree { expanded, selected: 0 }
        } else {
            v
        },
    }
}

/// The Pools tab once `pools` were taken over. On the first paint all pools are expanded. Names
/// of pools that are gone are dropped, and the selection stays on a visible row. The details of
/// a pool that is gone give way to the tree.
pub open spec fn pools_view_taken(
    v: view::PoolsModel,
    pools: Seq<PoolInfo>,
    paint: bool,
) -> view::PoolsModel {
    let names = pool_names(pools);
    match v {
        view::PoolsModel::Tree { expanded, selected } => {
            let kept = if paint {
                names
            } else {
                expanded.intersect(names)
            };
            view::PoolsModel::Tree {
                expanded: kept,
                selected: clamp(selected, rows::pool_rows(pools, kept).len() as int),
            }
        },
        view::PoolsModel::Detail { pool_index, expanded } => {
            let kept = expanded.intersect(names);
            if pool_index >= pools.len() {
                view::PoolsModel::Tree { expanded: kept, selected: 0 }
            } else {
                view::PoolsModel::Detail { pool_index, expanded: kept }
            }
        },
    }
}

/// After the source of pools was asked: its pools are taken over, or its error is kept beside
/// the pools of before.
pub open spec fn pools_ticked(s: AppModel, outcome: Result<Seq<PoolInfo>, Seq<char>>) -> AppModel {
    match outcome {
        Ok(pools) => AppModel {
            pools,
            pools_error: None,
            pools_view: pools_view_taken(s.pools_view, pools, s.first_paint && pools.len() > 0),
            first_paint: s.first_paint && pools.len() == 0,
            ..s
        },
        Err(e) => AppModel { pools_error: Some(e), ..s },
    }
}

/// The Datasets tab without the names of datasets that are gone from the tree.
pub open spec fn datasets_pruned(
    v: view::DatasetsModel,
    roots: Seq<DatasetNode>,
) -> view::DatasetsModel {
    match v {
        view::DatasetsModel::Tree { expanded, selected } => view::DatasetsModel::Tree {
            expanded: expanded.intersect(datasets::forest_names(roots)),
            selected,
        },
        v => v,
    }
}

/// The Datasets tab with the selection on a visible row.
pub open spec fn datasets_clamped(
    v: view::DatasetsModel,
    roots: Seq<DatasetNode>,
) -> view::DatasetsModel {
    match v {
        view::DatasetsModel::Tree { expanded, selected } => view::DatasetsModel::Tree {
            expanded,
            selected: clamp(selected, datasets::dataset_rows(roots, expanded).len() as int),
        },
        v => v,
    }
}

/// The Datasets tab with the tree in place of the details of a dataset that is gone.
pub open spec fn datasets_fallen_back(
    v: view::DatasetsModel,
    roots: Seq<DatasetNode>,
) -> view::DatasetsModel {
    match v {
        view::DatasetsModel::Detail { name, expanded } if !datasets::forest_names(roots).contains(
            name,
        ) => view::DatasetsModel::Tree { expanded, selected: 0 },
        v => v,
    }
}

/// The Datasets tab once the trees under `roots` were taken over. In the tree, names of datasets
/// that are gone are dropped, and the selection stays on a visible row. The details of a dataset
/// that is gone give way to the tree.
pub open spec fn datasets_view_taken(
    v: view::DatasetsModel,
    roots: Seq<DatasetNode>,
) -> view::DatasetsModel {
    let names = datasets::forest_names(roots);
    match v {
        view::DatasetsModel::Tree { expanded, selected } => {
            let kept = expanded.intersect(names);
            view::DatasetsModel::Tree {
                expanded: kept,
                selected: clamp(selected, datasets::dataset_rows(roots, kept).len() as int),
            }
        },
        view::DatasetsModel::Detail { name, expanded } => if names.contains(name) {
            v
        } else {
            view::DatasetsModel::Tree { expanded, selected: 0 }
        },
    }
}

/// After the source of datasets was asked: its datasets are taken over, or its error is kept
/// beside the datasets of before.
pub open spec fn datasets_ticked(
    s: AppModel,
    outcome: Result<Seq<DatasetNode>, Seq<char>>,
) -> AppModel {
    match outcome {
        Ok(roots) => AppModel {
            datasets: roots,
            datasets_error: None,
            datasets_view: datasets_view_taken(s.datasets_view, roots),
            ..s
        },
        Err(e) => AppModel { datasets_error: Some(e), ..s },
    }
}

/// What a source answered, if there is one to ask.
pub open spec fn pools_asked(
    s: AppModel,
    outcome: Option<Result<Seq<PoolInfo>, Seq<char>>>,
) -> AppModel {
    match outcome {
        Some(o) => pools_ticked(s, o),
        None => s,
    }
}

/// What a source answered, if there is one to ask.
pub open spec fn datasets_asked(
    s: AppModel,
    outcome: Option<Result<Seq<DatasetNode>, Seq<char>>>,
) -> AppModel {
    match outcome {
        Some(o) => datasets_ticked(s, o),
        None => s,
    }
}

/// After a new reading of the ARC and of memory.
pub open spec fn reading_taken(s: AppModel, next: ArcStats, mem: Option<MemSnapshot>) -> AppModel {
    AppModel { current: next, previous: Some(s.current), mem, ..s }
}

/// After a refresh in which the ARC was read.
pub open spec fn refreshed(
    s: AppModel,
    next: ArcStats,
    mem: Option<MemSnapshot>,
    pools: Option<Result<Seq<PoolInfo>, Seq<char>>>,
    roots: Option<Result<Seq<DatasetNode>, Seq<char>>>,
) -> AppModel {
    datasets_asked(pools_asked(reading_taken(s, next, mem), pools), roots)
}

/// The names of the trees' roots.
pub open spec fn root_names(roots: Seq<DatasetNode>) -> Set<Seq<char>> {
    Seq::new(roots.len(), |i: int| roots[i].name@).to_set()
}

/// With the children of all roots shown, if the tree is.
pub open spec fn roots_expanded(s: AppModel) -> AppModel {
    AppModel {
        datasets_view: match s.datasets_view {
            view::DatasetsModel::Tree { expanded, selected } => view::DatasetsModel::Tree {
                expanded: expanded.union(root_names(s.datasets)),
                selected,
            },
            v => v,
        },
        ..s
    }
}

/// Before any source was asked for pools or datasets.
pub open spec fn blank(
    current: ArcStats,
    mem: Option<MemSnapshot>,
    pools_init_error: Option<Seq<char>>,
    datasets_init_error: Option<Seq<char>>,
) -> AppModel {
    AppModel {
        current,
        previous: None,
        mem,
        should_quit: false,
        tab: Tab::Overview,
        pools: Seq::empty(),
        pools_error: None,
        pools_init_error,
        pools_view: view::PoolsModel::Tree { expanded: Set::empty(), selected: 0 },
        first_paint: true,
        datasets: Seq::empty(),
        datasets_error: None,
        datasets_init_error,
        datasets_view: view::DatasetsModel::Tree { expanded: Set::empty(), selected: 0 },
    }
}

/// At the start, once the sources were asked for the first time.
pub open spec fn started(
    blank: AppModel,
    pools: Option<Result<Seq<PoolInfo>, Seq<char>>>,
    roots: Option<Result<Seq<DatasetNode>, Seq<char>>>,
) -> AppModel {
    roots_expanded(datasets_asked(pools_asked(blank, pools), roots))
}

/// A row number, or 0.
pub open spec fn or_first(i: Option<int>) -> int {
    match i {
        Some(i) => i,
        None => 0,
    }
}

/// The tree after details were left: the expanded set is as it was, and the dataset that was
/// looked at is selected if it is visible.
pub open spec fn back_to_tree(
    roots: Seq<DatasetNode>,
    name: Seq<char>,
    expanded: Set<Seq<char>>,
) -> view::DatasetsModel {
    view::DatasetsModel::Tree {
        expanded,
        selected: or_first(datasets::row_named(datasets::dataset_rows(roots, expanded), name)),
    }
}

/// The Pools tab when another tab is switched to: details give way to the tree, with the pool
/// that was looked at selected.
pub open spec fn pools_left(pools: Seq<PoolInfo>, v: view::PoolsModel) -> view::PoolsModel {
    match v {
        view::PoolsModel::Detail { pool_index, expanded } => view::PoolsModel::Tree {
            expanded,
            selected: or_first(rows::pool_row(rows::pool_rows(pools, expanded), pool_index)),
        },
        v => v,
    }
}

/// The Datasets tab when another tab is switched to.
pub open spec fn datasets_left(
    roots: Seq<DatasetNode>,
    v: view::DatasetsModel,
) -> view::DatasetsModel {
    match v {
        view::DatasetsModel::Detail { name, expanded } => back_to_tree(roots, name, expanded),
        v => v,
    }
}

/// After a switch to `target`. Nothing happens where that tab is shown already.
pub open spec fn switched(s: AppModel, target: Tab) -> AppModel {
    if target == s.tab {
        s
    } else {
        AppModel {
            tab: target,
            pools_view: if s.tab == Tab::Pools {
                pools_left(s.pools, s.pools_view)
            } else {
                s.pools_view
            },
            datasets_view: if s.tab == Tab::Datasets {
                datasets_left(s.datasets, s.datasets_view)
            } else {
                s.datasets_view
            },
            ..s
        }
    }
}

/// Where a key that moves the selection leads to among `n` rows, `None` for any other key.
pub open spec fn moved(code: KeyCode, selected: int, n: int) -> Option<int> {
    match code {
        KeyCode::Down | KeyCode::Char('j') => Some(
            if selected + 1 < n {
                selected + 1
            } else {
                selected
            },
        ),
        KeyCode::Up | KeyCode::Char('k') => Some(
            if selected > 0 {
                selected - 1
            } else {
                selected
            },
        ),
        KeyCode::Home => Some(0),
        KeyCode::End => Some(
            if n > 0 {
                n - 1
            } else {
                0
            },
        ),
        _ => None,
    }
}

/// The selected pool's vdevs shown, if a pool with vdevs is selected.
pub open spec fn pool_expanded(
    pools: Seq<PoolInfo>,
    expanded: Set<Seq<char>>,
    selected: int,
) -> view::PoolsModel {
    let all = rows::pool_rows(pools, expanded);
    let pool = pools[all[selected].pool];
    view::PoolsModel::Tree {
        expanded: if 0 <= selected < all.len() && all[selected].vdev is None
            && pool.root_vdev.children@.len() > 0 {
            expanded.insert(pool.name@)
        } else {
            expanded
        },
        selected,
    }
}

/// The selected pool's vdevs hidden, or, from a vdev, its pool selected.
pub open spec fn pool_collapsed(
    pools: Seq<PoolInfo>,
    expanded: Set<Seq<char>>,
    selected: int,
) -> view::PoolsModel {
    let all = rows::pool_rows(pools, expanded);
    let name = pools[all[selected].pool].name@;
    if !(0 <= selected < all.len()) {
        view::PoolsModel::Tree { expanded, selected }
    } else if all[selected].vdev is Some {
        view::PoolsModel::Tree { expanded, selected: rows::head_row(all, selected) }
    } else if expanded.contains(name) {
        let rest = expanded.remove(name);
        view::PoolsModel::Tree {
            expanded: rest,
            selected: clamp(selected, rows::pool_rows(pools, rest).len() as int),
        }
    } else {
        view::PoolsModel::Tree { expanded, selected }
    }
}

/// The details of the pool that the selected row belongs to.
pub open spec fn pool_entered(
    pools: Seq<PoolInfo>,
    expanded: Set<Seq<char>>,
    selected: int,
) -> view::PoolsModel {
    let all = rows::pool_rows(pools, expanded);
    if 0 <= selected < all.len() {
        match rows::first_named(pools, pools[all[selected].pool].name@) {
            Some(pool_index) => view::PoolsModel::Detail { pool_index, expanded },
            None => view::PoolsModel::Tree { expanded, selected },
        }
    } else {
        view::PoolsModel::Tree { expanded, selected }
    }
}

/// The Pools tab after a key.
pub open spec fn pools_pressed(
    pools: Seq<PoolInfo>,
    v: view::PoolsModel,
    code: KeyCode,
) -> view::PoolsModel {
    match v {
        view::PoolsModel::Tree { expanded, selected } => match moved(
            code,
            selected,
            rows::pool_rows(pools, expanded).len() as int,
        ) {
            Some(selected) => view::PoolsModel::Tree { expanded, selected },
            None => match code {
                KeyCode::Right | KeyCode::Char('l') => pool_expanded(pools, expanded, selected),
                KeyCode::Left | KeyCode::Char('h') => pool_collapsed(pools, expanded, selected),
                KeyCode::Enter => pool_entered(pools, expanded, selected),
                _ => v,
            },
        },
        view::PoolsModel::Detail { pool_index: _, expanded } => match code {
            KeyCode::Esc | KeyCode::Backspace => view::PoolsModel::Tree { expanded, selected: 0 },
            _ => v,
        },
    }
}

/// The selected dataset's children shown, if it has any.
pub open spec fn dataset_expanded(
    roots: Seq<DatasetNode>,
    expanded: Set<Seq<char>>,
    selected: int,
) -> view::DatasetsModel {
    let all = datasets::dataset_rows(roots, expanded);
    let node = all[selected].node;
    view::DatasetsModel::Tree {
        expanded: if 0 <= selected < all.len() && node.children@.len() > 0 {
            expanded.insert(node.name@)
        } else {
            expanded
        },
        selected,
    }
}

/// The selected dataset's children hidden where they are shown, else the dataset selected that
/// it hangs from. A root that shows no children stays as it is.
pub open spec fn dataset_collapsed(
    roots: Seq<DatasetNode>,
    expanded: Set<Seq<char>>,
    selected: int,
) -> view::DatasetsModel {
    let all = datasets::dataset_rows(roots, expanded);
    let node = all[selected].node;
    if !(0 <= selected < all.len()) {
        view::DatasetsModel::Tree { expanded, selected }
    } else if expanded.contains(node.name@) && node.children@.len() > 0 {
        let rest = expanded.remove(node.name@);
        view::DatasetsModel::Tree {
            expanded: rest,
            selected: clamp(selected, datasets::dataset_rows(roots, rest).len() as int),
        }
    } else {
        match datasets::parent_row(all, selected) {
            Some(parent) => view::DatasetsModel::Tree { expanded, selected: parent },
            None => view::DatasetsModel::Tree { expanded, selected },
        }
    }
}

/// The details of the selected dataset.
pub open spec fn dataset_entered(
    roots: Seq<DatasetNode>,
    expanded: Set<Seq<char>>,
    selected: int,
) -> view::DatasetsModel {
    let all = datasets::dataset_rows(roots, expanded);
    if 0 <= selected < all.len() {
        view::DatasetsModel::Detail { name: all[selected].node.name@, expanded }
    } else {
        view::DatasetsModel::Tree { expanded, selected }
    }
}

/// The Datasets tab after a key.
pub open spec fn datasets_pressed(
    roots: Seq<DatasetNode>,
    v: view::DatasetsModel,
    code: KeyCode,
) -> view::DatasetsModel {
    match v {
        view::DatasetsModel::Tree { expanded, selected } => match moved(
            code,
            selected,
            datasets::dataset_rows(roots, expanded).len() as int,
        ) {
            Some(selected) => view::DatasetsModel::Tree { expanded, selected },
            None => match code {
                KeyCode::Right | KeyCode::Char('l') => dataset_expanded(roots, expanded, selected),
                KeyCode::Left | KeyCode::Char('h') => dataset_collapsed(roots, expanded, selected),
                KeyCode::Enter => dataset_entered(roots, expanded, selected),
                _ => v,
            },
        },
        view::DatasetsModel::Detail { name, expanded } => match code {
            KeyCode::Esc | KeyCode::Backspace => back_to_tree(roots, name, expanded),
            _ => v,
        },
    }
}

/// The control key is held down.
pub open spec fn with_control(m: KeyModifiers) -> bool {
    m.includes(KeyModifiers { bits: crate::app::input::CONTROL_BIT })
}

/// After a key that asks no source: any but the one that refreshes.
pub open spec fn pressed(s: AppModel, key: KeyEvent) -> AppModel {
    match key.code {
        KeyCode::Char('q') => AppModel { should_quit: true, ..s },
        KeyCode::Char('1') => switched(s, Tab::Overview),
        KeyCode::Char('2') => switched(s, Tab::Pools),
        KeyCode::Char('3') => switched(s, Tab::Datasets),
        KeyCode::Char('4') => switched(s, Tab::Arc),
        KeyCode::Tab => switched(s, s.tab.offset(1)),
        KeyCode::BackTab => switched(s, s.tab.offset(-1)),
        code => if code == KeyCode::Char('c') && with_control(key.modifiers) {
            AppModel { should_quit: true, ..s }
        } else if s.tab == Tab::Pools {
            AppModel { pools_view: pools_pressed(s.pools, s.pools_view, code), ..s }
        } else if s.tab == Tab::Datasets {
            AppModel { datasets_view: datasets_pressed(s.datasets, s.datasets_view, code), ..s }
        } else {
            s
        },
    }
}

/// `selected` moved on by `delta`, but no farther than to the first or the last of `n` rows.
/// Without rows it stays.
pub open spec fn slid(selected: int, delta: int, n: int) -> int {
    if n == 0 {
        selected
    } else if selected + delta < 0 {
        0
    } else if selected + delta >= n {
        n - 1
    } else {
        selected + delta
    }
}

/// After the selection of the tree on the screen, if there is one, was moved by `delta`.
pub open spec fn scrolled(s: AppModel, delta: int) -> AppModel {
    if s.tab == Tab::Pools {
        AppModel {
            pools_view: match s.pools_view {
                view::PoolsModel::Tree { expanded, selected } => view::PoolsModel::Tree {
                    expanded,
                    selected: slid(
                        selected,
                        delta,
                        rows::pool_rows(s.pools, expanded).len() as int,
                    ),
                },
                v => v,
            },
            ..s
        }
    } else if s.tab == Tab::Datasets {
        AppModel {
            datasets_view: match s.datasets_view {
                view::DatasetsModel::Tree { expanded, selected } => view::DatasetsModel::Tree {
                    expanded,
                    selected: slid(
                        selected,
                        delta,
                        datasets::dataset_rows(s.datasets, expanded).len() as int,
                    ),
                },
                v => v,
            },
            ..s
        }
    } else {
        s
    }
}

/// After the mouse did something.
pub open spec fn moused(s: AppModel, kind: MouseEventKind) -> AppModel {
    match kind {
        MouseEventKind::ScrollDown => scrolled(s, 1),
        MouseEventKind::ScrollUp => scrolled(s, -1),
        MouseEventKind::Other => s,
    }
}

} // verus!
