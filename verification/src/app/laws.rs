//! What holds of the dashboard whatever happens to it.
use vstd::prelude::*;

use crate::app::input::{KeyCode, KeyEvent, KeyModifiers, MouseEventKind};
use crate::app::model;
use crate::app::state::App;
use crate::app::tab;
use crate::app::tab::Tab;
use crate::app::view;
use crate::arcstats::{ArcReader, ArcStats, ArcStatsError};
use crate::datasets;
use crate::datasets::{DatasetNode, DatasetsSource};
use crate::meminfo::{MemSnapshot, MemSource};
use crate::pools::rows;
use crate::pools::types::{PoolInfo, PoolsSource};

verus! {

/// A row of `n` is selected, or the first where there is none.
pub open spec fn on_a_row(selected: int, n: int) -> bool {
    0 <= selected < n || (n == 0 && selected == 0)
}

/// The Pools tab has a visible row selected, or shows the details of a pool that is there.
pub open spec fn pools_settled(pools: Seq<PoolInfo>, v: view::PoolsModel) -> bool {
    match v {
        view::PoolsModel::Tree { expanded, selected } => on_a_row(
            selected,
            rows::pool_rows(pools, expanded).len() as int,
        ),
        view::PoolsModel::Detail { pool_index, .. } => 0 <= pool_index < pools.len(),
    }
}

/// The Datasets tab has a visible row selected, or shows the details of a dataset that is there.
pub open spec fn datasets_settled(roots: Seq<DatasetNode>, v: view::DatasetsModel) -> bool {
    match v {
        view::DatasetsModel::Tree { expanded, selected } => on_a_row(
            selected,
            datasets::dataset_rows(roots, expanded).len() as int,
        ),
        view::DatasetsModel::Detail { name, .. } => datasets::forest_names(roots).contains(name),
    }
}

/// Both tabs with trees show something that is there.
pub open spec fn settled(s: model::AppModel) -> bool {
    pools_settled(s.pools, s.pools_view) && datasets_settled(s.datasets, s.datasets_view)
}

/// A key on the Pools tab keeps a visible row selected.
pub proof fn pools_keys_settle(pools: Seq<PoolInfo>, v: view::PoolsModel, code: KeyCode)
    requires
        pools_settled(pools, v),
    ensures
        pools_settled(pools, model::pools_pressed(pools, v, code)),
{
    match v {
        view::PoolsModel::Tree { expanded, selected } => {
            let all = rows::pool_rows(pools, expanded);
            if 0 <= selected < all.len() {
                let name = pools[all[selected].pool].name@;
                rows::pool_rows_grow(pools, expanded, expanded.insert(name));
                rows::head_row_owns(pools, expanded, selected);
                rows::first_named_is_first(pools, name);
                rows::rows_in_range(pools, expanded);
            }
        },
        view::PoolsModel::Detail { pool_index: _, expanded } => {
            rows::rows_in_range(pools, expanded);
        },
    }
}

/// A key on the Datasets tab keeps a visible row selected.
pub proof fn datasets_keys_settle(roots: Seq<DatasetNode>, v: view::DatasetsModel, code: KeyCode)
    requires
        datasets_settled(roots, v),
    ensures
        datasets_settled(roots, model::datasets_pressed(roots, v, code)),
{
    match v {
        view::DatasetsModel::Tree { expanded, selected } => {
            let all = datasets::dataset_rows(roots, expanded);
            if 0 <= selected < all.len() {
                let name = all[selected].node.name@;
                datasets::dataset_rows_grow(roots, 0, expanded, expanded.insert(name));
                datasets::rows_hang_from_parents(roots, expanded);
                assert(datasets::hangs(all, selected, expanded));
                datasets::rows_are_named(roots, 0, expanded);
            }
        },
        view::DatasetsModel::Detail { name, expanded } => {
            back_to_tree_settles(roots, name, expanded);
        },
    }
}

/// Going back from the details of a dataset selects a visible row.
proof fn back_to_tree_settles(roots: Seq<DatasetNode>, name: Seq<char>, expanded: Set<Seq<char>>)
    ensures
        datasets_settled(roots, model::back_to_tree(roots, name, expanded)),
{
    datasets::row_named_is_first(datasets::dataset_rows(roots, expanded), name);
}

/// Switching tabs keeps a visible row selected.
pub proof fn switching_settles(s: model::AppModel, target: Tab)
    requires
        settled(s),
    ensures
        settled(model::switched(s, target)),
{
    if let view::PoolsModel::Detail { pool_index, expanded } = s.pools_view {
        rows::pool_row_finds(s.pools, expanded, pool_index);
    }
    if let view::DatasetsModel::Detail { name, expanded } = s.datasets_view {
        back_to_tree_settles(s.datasets, name, expanded);
    }
}

/// Every key that asks no source keeps a visible row selected.
pub proof fn keys_settle(s: model::AppModel, key: KeyEvent)
    requires
        settled(s),
    ensures
        settled(model::pressed(s, key)),
{
    pools_keys_settle(s.pools, s.pools_view, key.code);
    datasets_keys_settle(s.datasets, s.datasets_view, key.code);
    switching_settles(s, Tab::Overview);
    switching_settles(s, Tab::Pools);
    switching_settles(s, Tab::Datasets);
    switching_settles(s, Tab::Arc);
    switching_settles(s, s.tab.offset(1));
    switching_settles(s, s.tab.offset(-1));
}

/// The mouse keeps a visible row selected.
pub proof fn mouse_settles(s: model::AppModel, kind: MouseEventKind)
    requires
        settled(s),
    ensures
        settled(model::moused(s, kind)),
{
}

/// The answer of a source of pools, whatever it is, leaves a visible row selected.
pub proof fn pools_answers_settle(s: model::AppModel, outcome: Result<Seq<PoolInfo>, Seq<char>>)
    requires
        settled(s),
    ensures
        settled(model::pools_ticked(s, outcome)),
{
    if let Ok(pools) = outcome {
        if let view::PoolsModel::Detail { pool_index: _, expanded } = s.pools_view {
            rows::rows_in_range(pools, expanded.intersect(model::pool_names(pools)));
        }
    }
}

/// The answer of a source of datasets, whatever it is, leaves a visible row selected.
pub proof fn datasets_answers_settle(
    s: model::AppModel,
    outcome: Result<Seq<DatasetNode>, Seq<char>>,
)
    requires
        settled(s),
    ensures
        settled(model::datasets_ticked(s, outcome)),
{
}

/// A refresh, whatever the sources answer, leaves a visible row selected.
pub proof fn refreshing_settles(
    s: model::AppModel,
    next: ArcStats,
    mem: Option<MemSnapshot>,
    pools: Option<Result<Seq<PoolInfo>, Seq<char>>>,
    roots: Option<Result<Seq<DatasetNode>, Seq<char>>>,
)
    requires
        settled(s),
    ensures
        settled(model::refreshed(s, next, mem, pools, roots)),
{
    let read = model::reading_taken(s, next, mem);
    if let Some(o) = pools {
        pools_answers_settle(read, o);
    }
    if let Some(o) = roots {
        datasets_answers_settle(model::pools_asked(read, pools), o);
    }
}

/// Whatever the sources are and answer, a refresh of the dashboard leaves a visible row selected.
pub proof fn refresh_settles<R: ArcReader, M: MemSource, P: PoolsSource, D: DatasetsSource>(
    before: App<R, M, P, D>,
    after: App<R, M, P, D>,
    r: Result<(), ArcStatsError>,
)
    requires
        settled(before@),
        before.refreshes_to(after, r),
    ensures
        settled(after@),
{
    if r is Ok {
        let (next, mem, pools, roots) = choose|
            next: ArcStats,
            mem: Option<MemSnapshot>,
            pools: Option<Result<Seq<PoolInfo>, Seq<char>>>,
            roots: Option<Result<Seq<DatasetNode>, Seq<char>>>,
        | after@ == #[trigger] model::refreshed(before@, next, mem, pools, roots);
        refreshing_settles(before@, next, mem, pools, roots);
    }
}

/// At the start a visible row is selected.
pub proof fn start_settles(
    current: ArcStats,
    mem: Option<MemSnapshot>,
    pools_init_error: Option<Seq<char>>,
    datasets_init_error: Option<Seq<char>>,
    pools: Option<Result<Seq<PoolInfo>, Seq<char>>>,
    roots: Option<Result<Seq<DatasetNode>, Seq<char>>>,
)
    ensures
        settled(
            model::started(
                model::blank(current, mem, pools_init_error, datasets_init_error),
                pools,
                roots,
            ),
        ),
{
    let blank = model::blank(current, mem, pools_init_error, datasets_init_error);
    assert(settled(blank));
    if let Some(o) = pools {
        pools_answers_settle(blank, o);
    }
    let asked = model::pools_asked(blank, pools);
    if let Some(o) = roots {
        datasets_answers_settle(asked, o);
    }
    let s = model::datasets_asked(asked, roots);
    if let view::DatasetsModel::Tree { expanded, selected: _ } = s.datasets_view {
        let more = expanded.union(model::root_names(s.datasets));
        datasets::dataset_rows_grow(s.datasets, 0, expanded, more);
        datasets::roots_are_visible(s.datasets, 0, expanded);
    }
}

/// A key or the mouse changes neither what was read nor what the sources answered.
pub proof fn input_keeps_data(s: model::AppModel, key: KeyEvent, kind: MouseEventKind)
    ensures
        ({
            let a = model::pressed(s, key);
            let b = model::moused(s, kind);
            &&& a.current == s.current && b.current == s.current
            &&& a.previous == s.previous && b.previous == s.previous
            &&& a.mem == s.mem && b.mem == s.mem
            &&& a.pools == s.pools && b.pools == s.pools
            &&& a.datasets == s.datasets && b.datasets == s.datasets
            &&& a.pools_error == s.pools_error && b.pools_error == s.pools_error
            &&& a.datasets_error == s.datasets_error && b.datasets_error == s.datasets_error
            &&& a.first_paint == s.first_paint && b.first_paint == s.first_paint
        }),
{
}

/// What a tab shows is changed by input on that tab only.
pub proof fn input_stays_on_its_tab(s: model::AppModel, key: KeyEvent, kind: MouseEventKind)
    ensures
        s.tab != Tab::Pools ==> model::pressed(s, key).pools_view == s.pools_view && model::moused(
            s,
            kind,
        ).pools_view == s.pools_view,
        s.tab != Tab::Datasets ==> model::pressed(s, key).datasets_view == s.datasets_view
            && model::moused(s, kind).datasets_view == s.datasets_view,
{
}

/// No key and no mouse takes back the wish to quit, and only `q` and Ctrl+C utter it.
pub proof fn quitting_is_final(s: model::AppModel, key: KeyEvent, kind: MouseEventKind)
    ensures
        s.should_quit ==> model::pressed(s, key).should_quit,
        model::moused(s, kind).should_quit == s.should_quit,
        !s.should_quit && model::pressed(s, key).should_quit ==> key.code == KeyCode::Char('q') || (
        key.code == KeyCode::Char('c') && model::with_control(key.modifiers)),
{
}

/// A refresh changes neither the tab shown nor the wish to quit.
pub proof fn refresh_keeps_tab_and_wish(
    s: model::AppModel,
    next: ArcStats,
    mem: Option<MemSnapshot>,
    pools: Option<Result<Seq<PoolInfo>, Seq<char>>>,
    roots: Option<Result<Seq<DatasetNode>, Seq<char>>>,
)
    ensures
        model::refreshed(s, next, mem, pools, roots).should_quit == s.should_quit,
        model::refreshed(s, next, mem, pools, roots).tab == s.tab,
{
}

/// Switching to the tab that is shown changes nothing; it does not leave details.
pub proof fn switching_to_itself(s: model::AppModel)
    ensures
        model::switched(s, s.tab) == s,
{
}

/// The tab switched to is shown, and the tab that was left shows its tree.
pub proof fn switching_leaves_details(s: model::AppModel, target: Tab)
    requires
        target != s.tab,
    ensures
        model::switched(s, target).tab == target,
        s.tab == Tab::Pools ==> model::switched(s, target).pools_view is Tree,
        s.tab == Tab::Datasets ==> model::switched(s, target).datasets_view is Tree,
{
}

/// Away to another tab and back, a tree is as it was.
pub proof fn trees_survive_switching(s: model::AppModel, target: Tab)
    ensures
        s.pools_view is Tree ==> model::switched(model::switched(s, target), s.tab).pools_view
            == s.pools_view,
        s.datasets_view is Tree ==> model::switched(
            model::switched(s, target),
            s.tab,
        ).datasets_view == s.datasets_view,
        model::switched(model::switched(s, target), s.tab).tab == s.tab,
{
}

/// Leaving the details of a pool by switching tabs selects that pool in the tree, and the
/// expanded set is as it was.
pub proof fn leaving_pool_selects_it(
    pools: Seq<PoolInfo>,
    pool_index: int,
    expanded: Set<Seq<char>>,
)
    requires
        0 <= pool_index < pools.len(),
    ensures
        model::pools_left(
            pools,
            view::PoolsModel::Detail { pool_index, expanded },
        ) matches view::PoolsModel::Tree { expanded: e, selected } && e == expanded
            && rows::pool_rows(pools, expanded)[selected] == (rows::PoolRow {
            pool: pool_index,
            vdev: None,
        }),
{
    rows::pool_row_finds(pools, expanded, pool_index);
}

/// The tab keys go round: forth and back again ends on the same tab, and so do four steps.
pub proof fn tab_keys_go_round(s: model::AppModel)
    ensures
        ({
            let forth = model::switched(s, s.tab.offset(1));
            let back = model::switched(s, s.tab.offset(-1));
            &&& model::switched(forth, forth.tab.offset(-1)).tab == s.tab
            &&& model::switched(back, back.tab.offset(1)).tab == s.tab
        }),
        s.tab.offset(1).offset(1).offset(1).offset(1) == s.tab,
{
    tab::offset_goes_round(s.tab);
    tab::offset_adds(s.tab, 1, 1);
    tab::offset_adds(s.tab, 2, 1);
    tab::offset_adds(s.tab, 3, 1);
}

/// A key that leads from details back to the tree.
pub open spec fn leads_back(code: KeyCode) -> bool {
    code == KeyCode::Esc || code == KeyCode::Backspace
}

/// No key of `codes` leads back to the tree.
pub open spec fn stays_in_details(codes: Seq<KeyCode>) -> bool {
    forall|i: int| 0 <= i < codes.len() ==> !leads_back(#[trigger] codes[i])
}

/// The Pools tab after one key after another.
pub open spec fn pools_pressed_all(
    pools: Seq<PoolInfo>,
    v: view::PoolsModel,
    codes: Seq<KeyCode>,
) -> view::PoolsModel
    decreases codes.len(),
{
    if codes.len() == 0 {
        v
    } else {
        model::pools_pressed(pools, pools_pressed_all(pools, v, codes.drop_last()), codes.last())
    }
}

/// The Datasets tab after one key after another.
pub open spec fn datasets_pressed_all(
    roots: Seq<DatasetNode>,
    v: view::DatasetsModel,
    codes: Seq<KeyCode>,
) -> view::DatasetsModel
    decreases codes.len(),
{
    if codes.len() == 0 {
        v
    } else {
        model::datasets_pressed(
            roots,
            datasets_pressed_all(roots, v, codes.drop_last()),
            codes.last(),
        )
    }
}

/// Details stay through any number of keys that do not lead back to the tree.
pub proof fn details_outlast_other_keys(
    pools: Seq<PoolInfo>,
    p: view::PoolsModel,
    roots: Seq<DatasetNode>,
    d: view::DatasetsModel,
    codes: Seq<KeyCode>,
)
    requires
        stays_in_details(codes),
    ensures
        p is Detail ==> pools_pressed_all(pools, p, codes) == p,
        d is Detail ==> datasets_pressed_all(roots, d, codes) == d,
    decreases codes.len(),
{
    if codes.len() > 0 {
        let init = codes.drop_last();
        assert(forall|i: int| 0 <= i < init.len() ==> (#[trigger] init[i]) == codes[i]);
        details_outlast_other_keys(pools, p, roots, d, init);
        assert(!leads_back(codes[codes.len() - 1]));
    }
}

/// Enter on a visible row shows details, which stay whatever other keys are pressed; either key
/// that leads back gives the tree with the expanded set as it was and a visible row selected.
pub proof fn pool_details_keep_expanded(
    pools: Seq<PoolInfo>,
    expanded: Set<Seq<char>>,
    selected: int,
    between: Seq<KeyCode>,
    back: KeyCode,
)
    requires
        0 <= selected < rows::pool_rows(pools, expanded).len(),
        stays_in_details(between),
        leads_back(back),
    ensures
        ({
            let entered = model::pools_pressed(
                pools,
                view::PoolsModel::Tree { expanded, selected },
                KeyCode::Enter,
            );
            &&& entered is Detail
            &&& pools_pressed_all(pools, entered, between) == entered
            &&& model::pools_pressed(
                pools,
                pools_pressed_all(pools, entered, between),
                back,
            ) matches view::PoolsModel::Tree { expanded: e, selected: s } && e == expanded && 0 <= s
                < rows::pool_rows(pools, expanded).len()
        }),
{
    let tree = view::PoolsModel::Tree { expanded, selected };
    let entered = model::pools_pressed(pools, tree, KeyCode::Enter);
    enter_shows_the_rows_pool(pools, expanded, selected);
    let any = view::DatasetsModel::Tree { expanded, selected: 0 };
    details_outlast_other_keys(pools, entered, Seq::empty(), any, between);
}

/// Enter on a row, of a pool or of a vdev, shows the pool that the row belongs to, or the first
/// of the same name.
pub proof fn enter_shows_the_rows_pool(
    pools: Seq<PoolInfo>,
    expanded: Set<Seq<char>>,
    selected: int,
)
    requires
        0 <= selected < rows::pool_rows(pools, expanded).len(),
    ensures
        model::pool_entered(pools, expanded, selected) matches view::PoolsModel::Detail {
            pool_index,
            expanded: e,
        } && e == expanded && 0 <= pool_index <= rows::pool_rows(pools, expanded)[selected].pool
            && pools[pool_index].name@ == pools[rows::pool_rows(
            pools,
            expanded,
        )[selected].pool].name@,
{
    rows::rows_in_range(pools, expanded);
    let k = rows::pool_rows(pools, expanded)[selected].pool;
    rows::first_named_is_first(pools, pools[k].name@);
}

/// Enter on a visible row shows details, which stay whatever other keys are pressed; either key
/// that leads back gives the tree as it was, if no row above the selected one has the same
/// name.
pub proof fn dataset_details_keep_tree(
    roots: Seq<DatasetNode>,
    expanded: Set<Seq<char>>,
    selected: int,
    between: Seq<KeyCode>,
    back: KeyCode,
)
    requires
        ({
            let all = datasets::dataset_rows(roots, expanded);
            0 <= selected < all.len() && datasets::first_at(
                all,
                selected,
                all[selected].node.name@,
            )
        }),
        stays_in_details(between),
        leads_back(back),
    ensures
        ({
            let tree = view::DatasetsModel::Tree { expanded, selected };
            let entered = model::datasets_pressed(roots, tree, KeyCode::Enter);
            &&& entered is Detail
            &&& datasets_pressed_all(roots, entered, between) == entered
            &&& model::datasets_pressed(
                roots,
                datasets_pressed_all(roots, entered, between),
                back,
            ) == tree
        }),
{
    let all = datasets::dataset_rows(roots, expanded);
    let tree = view::DatasetsModel::Tree { expanded, selected };
    let entered = model::datasets_pressed(roots, tree, KeyCode::Enter);
    datasets::row_named_is_first(all, all[selected].node.name@);
    let any = view::PoolsModel::Tree { expanded, selected: 0 };
    details_outlast_other_keys(Seq::empty(), any, roots, entered, between);
}

/// Collapsing a pool and expanding it again restores the tree, if no pool before it has the
/// same name.
pub proof fn expanding_undoes_collapsing_pool(
    pools: Seq<PoolInfo>,
    expanded: Set<Seq<char>>,
    selected: int,
)
    requires
        ({
            let all = rows::pool_rows(pools, expanded);
            let k = all[selected].pool;
            &&& 0 <= selected < all.len()
            &&& all[selected].vdev is None
            &&& expanded.contains(pools[k].name@)
            &&& pools[k].root_vdev.children@.len() > 0
            &&& forall|j: int| 0 <= j < k ==> (#[trigger] pools[j]).name@ != pools[k].name@
        }),
    ensures
        ({
            let tree = view::PoolsModel::Tree { expanded, selected };
            let collapsed = model::pools_pressed(pools, tree, KeyCode::Left);
            collapsed == (view::PoolsModel::Tree {
                expanded: expanded.remove(
                    pools[rows::pool_rows(pools, expanded)[selected].pool].name@,
                ),
                selected,
            }) && model::pools_pressed(pools, collapsed, KeyCode::Right) == tree
        }),
{
    let all = rows::pool_rows(pools, expanded);
    let k = all[selected].pool;
    let name = pools[k].name@;
    let rest = expanded.remove(name);
    rows::rows_in_range(pools, expanded);
    rows::pool_row_finds(pools, expanded, k);
    rows::own_row_once(pools, expanded, selected);
    rows::rows_above_stay(pools, expanded, rest, k);
    let fewer = rows::pool_rows(pools, rest);
    assert(fewer.take(selected + 1)[selected] == all.take(selected + 1)[selected]);
    assert(rest.insert(name) =~= expanded);
}

/// Collapsing a dataset and expanding it again restores the tree, if no row above it has the
/// same name.
pub proof fn expanding_undoes_collapsing_dataset(
    roots: Seq<DatasetNode>,
    expanded: Set<Seq<char>>,
    selected: int,
)
    requires
        ({
            let all = datasets::dataset_rows(roots, expanded);
            let node = all[selected].node;
            &&& datasets::first_at(all, selected, node.name@)
            &&& expanded.contains(node.name@)
            &&& node.children@.len() > 0
        }),
    ensures
        ({
            let tree = view::DatasetsModel::Tree { expanded, selected };
            let collapsed = model::datasets_pressed(roots, tree, KeyCode::Left);
            collapsed == (view::DatasetsModel::Tree {
                expanded: expanded.remove(
                    datasets::dataset_rows(roots, expanded)[selected].node.name@,
                ),
                selected,
            }) && model::datasets_pressed(roots, collapsed, KeyCode::Right) == tree
        }),
{
    let all = datasets::dataset_rows(roots, expanded);
    let name = all[selected].node.name@;
    let rest = expanded.remove(name);
    datasets::rows_above_stay(roots, 0, expanded, rest, name);
    let fewer = datasets::dataset_rows(roots, rest);
    assert(fewer.take(selected + 1)[selected] == all.take(selected + 1)[selected]);
    assert(rest.insert(name) =~= expanded);
}

/// The right key on a pool with vdevs adds its name to the expanded set. If no pool before it
/// has the same name, a second right key changes nothing, and where the pool was not expanded
/// the left key restores the tree.
pub proof fn collapsing_undoes_expanding_pool(
    pools: Seq<PoolInfo>,
    expanded: Set<Seq<char>>,
    selected: int,
)
    requires
        ({
            let all = rows::pool_rows(pools, expanded);
            &&& 0 <= selected < all.len()
            &&& all[selected].vdev is None
            &&& pools[all[selected].pool].root_vdev.children@.len() > 0
        }),
    ensures
        ({
            let tree = view::PoolsModel::Tree { expanded, selected };
            let k = rows::pool_rows(pools, expanded)[selected].pool;
            let name = pools[k].name@;
            let opened = model::pools_pressed(pools, tree, KeyCode::Right);
            &&& opened == (view::PoolsModel::Tree { expanded: expanded.insert(name), selected })
            &&& (forall|j: int| 0 <= j < k ==> (#[trigger] pools[j]).name@ != name) ==> {
                &&& model::pools_pressed(pools, opened, KeyCode::Right) == opened
                &&& !expanded.contains(name) ==> model::pools_pressed(pools, opened, KeyCode::Left)
                    == tree
            }
        }),
{
    let all = rows::pool_rows(pools, expanded);
    let k = all[selected].pool;
    let name = pools[k].name@;
    let more = expanded.insert(name);
    if forall|j: int| 0 <= j < k ==> (#[trigger] pools[j]).name@ != name {
        rows::rows_in_range(pools, expanded);
        rows::own_row_once(pools, expanded, selected);
        rows::rows_above_stay(pools, expanded, more, k);
        let wider = rows::pool_rows(pools, more);
        assert(wider.take(selected + 1)[selected] == all.take(selected + 1)[selected]);
        assert(more.insert(name) =~= more);
        if !expanded.contains(name) {
            assert(more.remove(name) =~= expanded);
        }
    }
}

/// The right key on a dataset with children adds its name to the expanded set. If no row above
/// it has the same name, a second right key changes nothing, and where the dataset was not
/// expanded the left key restores the tree.
pub proof fn collapsing_undoes_expanding_dataset(
    roots: Seq<DatasetNode>,
    expanded: Set<Seq<char>>,
    selected: int,
)
    requires
        ({
            let all = datasets::dataset_rows(roots, expanded);
            0 <= selected < all.len() && all[selected].node.children@.len() > 0
        }),
    ensures
        ({
            let all = datasets::dataset_rows(roots, expanded);
            let name = all[selected].node.name@;
            let tree = view::DatasetsModel::Tree { expanded, selected };
            let opened = model::datasets_pressed(roots, tree, KeyCode::Right);
            &&& opened == (view::DatasetsModel::Tree { expanded: expanded.insert(name), selected })
            &&& datasets::first_at(all, selected, name) ==> {
                &&& model::datasets_pressed(roots, opened, KeyCode::Right) == opened
                &&& !expanded.contains(name) ==> model::datasets_pressed(
                    roots,
                    opened,
                    KeyCode::Left,
                ) == tree
            }
        }),
{
    let all = datasets::dataset_rows(roots, expanded);
    let name = all[selected].node.name@;
    let more = expanded.insert(name);
    if datasets::first_at(all, selected, name) {
        datasets::rows_above_stay(roots, 0, expanded, more, name);
        let wider = datasets::dataset_rows(roots, more);
        assert(wider.take(selected + 1)[selected] == all.take(selected + 1)[selected]);
        assert(more.insert(name) =~= more);
        if !expanded.contains(name) {
            assert(more.remove(name) =~= expanded);
        }
    }
}

/// A source that fails changes nothing but the error that is kept of it.
pub proof fn failure_keeps_snapshots(s: model::AppModel, e: Seq<char>)
    ensures
        model::pools_ticked(s, Err(e)) == (model::AppModel { pools_error: Some(e), ..s }),
        model::datasets_ticked(s, Err(e)) == (model::AppModel { datasets_error: Some(e), ..s }),
{
}

/// The set of names that the Pools tab has expanded.
pub open spec fn pools_expanded(v: view::PoolsModel) -> Set<Seq<char>> {
    match v {
        view::PoolsModel::Tree { expanded, .. } => expanded,
        view::PoolsModel::Detail { expanded, .. } => expanded,
    }
}

/// The set of names that the Datasets tab has expanded.
pub open spec fn datasets_expanded(v: view::DatasetsModel) -> Set<Seq<char>> {
    match v {
        view::DatasetsModel::Tree { expanded, .. } => expanded,
        view::DatasetsModel::Detail { expanded, .. } => expanded,
    }
}

/// Pools are expanded of themselves once only, when the first ones arrive: then the tree shows
/// all their vdevs, and from then on no refresh adds a name to the expanded set. In any case no
/// name is kept that no pool has.
pub proof fn pools_expand_once(s: model::AppModel, pools: Seq<PoolInfo>)
    ensures
        ({
            let t = model::pools_ticked(s, Ok(pools));
            &&& pools.len() > 0 ==> !t.first_paint
            &&& !s.first_paint ==> !t.first_paint
            &&& !s.first_paint ==> pools_expanded(t.pools_view).subset_of(
                pools_expanded(s.pools_view),
            )
            &&& s.first_paint && pools.len() > 0 && s.pools_view is Tree ==> pools_expanded(
                t.pools_view,
            ) == model::pool_names(pools)
            &&& pools_expanded(t.pools_view).subset_of(model::pool_names(pools))
        }),
{
}

/// No refresh adds a name to the expanded datasets, and in the tree no name is kept that no
/// dataset has.
pub proof fn datasets_never_expand_themselves(s: model::AppModel, roots: Seq<DatasetNode>)
    ensures
        ({
            let t = model::datasets_ticked(s, Ok(roots));
            &&& datasets_expanded(t.datasets_view).subset_of(datasets_expanded(s.datasets_view))
            &&& s.datasets_view is Tree ==> datasets_expanded(t.datasets_view).subset_of(
                datasets::forest_names(roots),
            )
        }),
{
}

/// A refresh that brings the same datasets again changes nothing about a settled tab whose
/// expanded names are all there.
pub proof fn same_datasets_change_nothing(s: model::AppModel)
    requires
        settled(s),
        datasets_expanded(s.datasets_view).subset_of(datasets::forest_names(s.datasets)),
    ensures
        model::datasets_ticked(s, Ok(s.datasets)) == (model::AppModel { datasets_error: None, ..s }),
{
    let e = datasets_expanded(s.datasets_view);
    assert(e.intersect(datasets::forest_names(s.datasets)) =~= e);
}

/// A refresh that brings the same pools again changes nothing about a settled tab whose expanded
/// names are all there, once pools were expanded for the first time.
pub proof fn same_pools_change_nothing(s: model::AppModel)
    requires
        settled(s),
        !s.first_paint,
        pools_expanded(s.pools_view).subset_of(model::pool_names(s.pools)),
    ensures
        model::pools_ticked(s, Ok(s.pools)) == (model::AppModel { pools_error: None, ..s }),
{
    let e = pools_expanded(s.pools_view);
    assert(e.intersect(model::pool_names(s.pools)) =~= e);
}

/// The hotkey of a tab switches to it.
pub proof fn hotkeys_switch(s: model::AppModel, t: Tab, modifiers: KeyModifiers)
    ensures
        model::pressed(s, KeyEvent { code: KeyCode::Char(t.key()), modifiers }) == model::switched(
            s,
            t,
        ),
{
}

/// Why a source could not be opened is known from the start on, and stays known.
pub proof fn init_errors_stay(
    s: model::AppModel,
    key: KeyEvent,
    kind: MouseEventKind,
    next: ArcStats,
    mem: Option<MemSnapshot>,
    pools: Option<Result<Seq<PoolInfo>, Seq<char>>>,
    roots: Option<Result<Seq<DatasetNode>, Seq<char>>>,
)
    ensures
        ({
            let a = model::pressed(s, key);
            let b = model::moused(s, kind);
            let c = model::refreshed(s, next, mem, pools, roots);
            &&& a.pools_init_error == s.pools_init_error
            &&& b.pools_init_error == s.pools_init_error
            &&& c.pools_init_error == s.pools_init_error
            &&& a.datasets_init_error == s.datasets_init_error
            &&& b.datasets_init_error == s.datasets_init_error
            &&& c.datasets_init_error == s.datasets_init_error
        }),
{
}

/// Details ignore every key but those that lead back to the tree.
pub proof fn details_ignore_other_keys(
    pools: Seq<PoolInfo>,
    p: view::PoolsModel,
    roots: Seq<DatasetNode>,
    d: view::DatasetsModel,
    code: KeyCode,
)
    requires
        code != KeyCode::Esc,
        code != KeyCode::Backspace,
    ensures
        p is Detail ==> model::pools_pressed(pools, p, code) == p,
        d is Detail ==> model::datasets_pressed(roots, d, code) == d,
{
}

/// The right key changes nothing where no row is selected, on a vdev, and on a pool without
/// vdevs.
pub proof fn only_pools_with_vdevs_expand(
    pools: Seq<PoolInfo>,
    expanded: Set<Seq<char>>,
    selected: int,
)
    requires
        ({
            let all = rows::pool_rows(pools, expanded);
            ||| !(0 <= selected < all.len())
            ||| all[selected].vdev is Some
            ||| pools[all[selected].pool].root_vdev.children@.len() == 0
        }),
    ensures
        ({
            let tree = view::PoolsModel::Tree { expanded, selected };
            model::pools_pressed(pools, tree, KeyCode::Right) == tree
        }),
{
}

/// From the row of a vdev, the left key selects the row of the pool that the vdev belongs to.
pub proof fn left_from_vdev_selects_its_pool(
    pools: Seq<PoolInfo>,
    expanded: Set<Seq<char>>,
    selected: int,
)
    requires
        0 <= selected < rows::pool_rows(pools, expanded).len(),
        rows::pool_rows(pools, expanded)[selected].vdev is Some,
    ensures
        model::pools_pressed(
            pools,
            view::PoolsModel::Tree { expanded, selected },
            KeyCode::Left,
        ) matches view::PoolsModel::Tree { expanded: e, selected: head } && e == expanded
            && rows::pool_rows(pools, expanded)[head] == (rows::PoolRow {
            pool: rows::pool_rows(pools, expanded)[selected].pool,
            vdev: None,
        }),
{
    rows::head_row_owns(pools, expanded, selected);
}

/// From a dataset that shows no children, the left key selects the dataset that it is a child
/// of; on a root it does nothing.
pub proof fn left_selects_the_parent(
    roots: Seq<DatasetNode>,
    expanded: Set<Seq<char>>,
    selected: int,
)
    requires
        ({
            let all = datasets::dataset_rows(roots, expanded);
            let node = all[selected].node;
            &&& 0 <= selected < all.len()
            &&& !expanded.contains(node.name@) || node.children@.len() == 0
        }),
    ensures
        ({
            let all = datasets::dataset_rows(roots, expanded);
            let tree = view::DatasetsModel::Tree { expanded, selected };
            let after = model::datasets_pressed(roots, tree, KeyCode::Left);
            if all[selected].depth == 0 {
                after == tree
            } else {
                after matches view::DatasetsModel::Tree { expanded: e, selected: parent } && e
                    == expanded && 0 <= parent < selected
                    && all[parent].node.children@.contains(all[selected].node)
            }
        }),
{
    let all = datasets::dataset_rows(roots, expanded);
    datasets::rows_hang_from_parents(roots, expanded);
    assert(datasets::hangs(all, selected, expanded));
}

/// Every way back from details, by a key or by another tab, restores the expanded set.
pub proof fn expanded_sets_are_restored(
    pools: Seq<PoolInfo>,
    p: view::PoolsModel,
    roots: Seq<DatasetNode>,
    d: view::DatasetsModel,
)
    requires
        p is Detail,
        d is Detail,
    ensures
        model::pools_pressed(pools, p, KeyCode::Esc) is Tree,
        model::pools_pressed(pools, p, KeyCode::Backspace) is Tree,
        pools_expanded(model::pools_pressed(pools, p, KeyCode::Esc)) == pools_expanded(p),
        pools_expanded(model::pools_pressed(pools, p, KeyCode::Backspace)) == pools_expanded(p),
        pools_expanded(model::pools_left(pools, p)) == pools_expanded(p),
        model::datasets_pressed(roots, d, KeyCode::Esc) is Tree,
        model::datasets_pressed(roots, d, KeyCode::Backspace) is Tree,
        datasets_expanded(model::datasets_pressed(roots, d, KeyCode::Esc)) == datasets_expanded(d),
        datasets_expanded(model::datasets_pressed(roots, d, KeyCode::Backspace))
            == datasets_expanded(d),
        datasets_expanded(model::datasets_left(roots, d)) == datasets_expanded(d),
{
}

/// The details of a dataset stay as long as a dataset of that name is there, wherever it has
/// moved; those of a pool stay as long as there is a pool at its place.
pub proof fn details_outlive_refresh(
    s: model::AppModel,
    pools: Seq<PoolInfo>,
    roots: Seq<DatasetNode>,
)
    ensures
        s.datasets_view matches view::DatasetsModel::Detail { name, .. } ==> (
        datasets::forest_names(roots).contains(name) ==> model::datasets_ticked(
            s,
            Ok(roots),
        ).datasets_view == s.datasets_view),
        s.pools_view matches view::PoolsModel::Detail { pool_index, .. } ==> (pool_index
            < pools.len() ==> (model::pools_ticked(
            s,
            Ok(pools),
        ).pools_view matches view::PoolsModel::Detail { pool_index: i, .. } && i == pool_index)),
{
}

/// A name that was dropped because nothing had it any more does not come back by itself.
pub proof fn dropped_names_stay_dropped(
    s: model::AppModel,
    pools: Seq<PoolInfo>,
    later_pools: Seq<PoolInfo>,
    roots: Seq<DatasetNode>,
    later_roots: Seq<DatasetNode>,
)
    ensures
        !model::pools_ticked(s, Ok(pools)).first_paint ==> pools_expanded(
            model::pools_ticked(model::pools_ticked(s, Ok(pools)), Ok(later_pools)).pools_view,
        ).subset_of(model::pool_names(pools)),
        s.datasets_view is Tree ==> datasets_expanded(
            model::datasets_ticked(
                model::datasets_ticked(s, Ok(roots)),
                Ok(later_roots),
            ).datasets_view,
        ).subset_of(datasets::forest_names(roots)),
{
    let t = model::pools_ticked(s, Ok(pools));
    pools_expand_once(s, pools);
    pools_expand_once(t, later_pools);
    let u = model::datasets_ticked(s, Ok(roots));
    datasets_never_expand_themselves(s, roots);
    datasets_never_expand_themselves(u, later_roots);
}

} // verus!
