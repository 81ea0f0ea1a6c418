//! Laws of what keys and the mouse do to the dashboard.
use vstd::prelude::*;

use crate::app::input::{Event, KeyCode, KeyEvent, KeyModifiers, MouseEvent, MouseEventKind};
use crate::app::state::App;
use crate::app::tab::Tab;
use crate::app::view::{DatasetsView, PoolsView};
use crate::arcstats::{ArcReader, ArcStatsError};
use crate::dataset_laws;
use crate::datasets;
use crate::datasets::{DatasetsSource, LinkedRow};
use crate::meminfo::MemSource;
use crate::names::NameSet;
use crate::pools::row_laws;
use crate::pools::rows;
use crate::pools::rows::RowKey;
use crate::pools::types::PoolsSource;

verus! {

/// Both are missing, or both read the same.
pub open spec fn same_words(a: Option<String>, b: Option<String>) -> bool {
    match (a, b) {
        (None, None) => true,
        (Some(x), Some(y)) => x@ == y@,
        _ => false,
    }
}

/// The Pools tab shows the tree, with these pools expanded and this row selected.
pub open spec fn pools_tree(v: PoolsView, e: Set<Seq<char>>, row: int) -> bool {
    v matches PoolsView::Tree { expanded, selected } && expanded@ == e && selected == row
}

/// The Pools tab shows this pool, with these pools expanded in the tree.
pub open spec fn pools_detail(v: PoolsView, pool: int, e: Set<Seq<char>>) -> bool {
    v matches PoolsView::Detail { pool_index, expanded } && expanded@ == e && pool_index == pool
}

/// The Datasets tab shows the tree, with these datasets expanded and this row selected.
pub open spec fn datasets_tree(v: DatasetsView, e: Set<Seq<char>>, row: int) -> bool {
    v matches DatasetsView::Tree { expanded, selected } && expanded@ == e && selected == row
}

/// The Datasets tab shows this dataset, with these datasets expanded in the tree.
pub open spec fn datasets_detail(v: DatasetsView, of: Seq<char>, e: Set<Seq<char>>) -> bool {
    v matches DatasetsView::Detail { name, expanded } && expanded@ == e && name@ == of
}

/// The Pools tab shows the same.
pub open spec fn same_pools_view(a: PoolsView, b: PoolsView) -> bool {
    match b {
        PoolsView::Tree { expanded, selected } => pools_tree(a, expanded@, selected as int),
        PoolsView::Detail { pool_index, expanded } => pools_detail(
            a,
            pool_index as int,
            expanded@,
        ),
    }
}

/// The Datasets tab shows the same.
pub open spec fn same_datasets_view(a: DatasetsView, b: DatasetsView) -> bool {
    match b {
        DatasetsView::Tree { expanded, selected } => datasets_tree(a, expanded@, selected as int),
        DatasetsView::Detail { name, expanded } => datasets_detail(a, name@, expanded@),
    }
}

/// What was read and answered is the same, and so are the sources.
pub open spec fn same_data<R, M, P, D>(a: App<R, M, P, D>, b: App<R, M, P, D>) -> bool {
    &&& a.current == b.current
    &&& a.previous == b.previous
    &&& a.mem_snapshot == b.mem_snapshot
    &&& a.pools_snapshot@ == b.pools_snapshot@
    &&& same_words(a.pools_refresh_error, b.pools_refresh_error)
    &&& same_words(a.pools_init_error, b.pools_init_error)
    &&& a.pools_first_paint == b.pools_first_paint
    &&& a.datasets_snapshot@ == b.datasets_snapshot@
    &&& same_words(a.datasets_refresh_error, b.datasets_refresh_error)
    &&& same_words(a.datasets_init_error, b.datasets_init_error)
    &&& a.arc_reader == b.arc_reader
    &&& a.mem_source == b.mem_source
    &&& a.pools_source == b.pools_source
    &&& a.datasets_source == b.datasets_source
}

/// All but what the Pools tab shows is the same.
pub open spec fn same_but_pools<R, M, P, D>(a: App<R, M, P, D>, b: App<R, M, P, D>) -> bool {
    &&& same_data(a, b)
    &&& a.should_quit == b.should_quit
    &&& a.current_tab == b.current_tab
    &&& same_datasets_view(a.datasets_view, b.datasets_view)
}

/// All but what the Datasets tab shows is the same.
pub open spec fn same_but_datasets<R, M, P, D>(a: App<R, M, P, D>, b: App<R, M, P, D>) -> bool {
    &&& same_data(a, b)
    &&& a.should_quit == b.should_quit
    &&& a.current_tab == b.current_tab
    &&& same_pools_view(a.pools_view, b.pools_view)
}

/// The two are in the same state.
pub open spec fn same_state<R, M, P, D>(a: App<R, M, P, D>, b: App<R, M, P, D>) -> bool {
    same_but_pools(a, b) && same_pools_view(a.pools_view, b.pools_view)
}

proof fn lemma_same<R, M, P, D>(a: App<R, M, P, D>, b: App<R, M, P, D>)
    requires
        a.same_sources(b),
        a@ == b@,
    ensures
        same_state(a, b),
{
    assert(a@.pools_view == b@.pools_view);
    assert(a@.datasets_view == b@.datasets_view);
}

/// In the tree of pools, the arrows and the letters beside them select the next row up or down,
/// as far as there is one, and Home and End the first and the last. Which pools are expanded
/// does not change, nor does anything else.
pub proof fn keys_move_among_pools<R: ArcReader, M: MemSource, P: PoolsSource, D: DatasetsSource>(
    x: &mut App<R, M, P, D>,
    key: KeyEvent,
    e: NameSet,
    s: usize,
    n: int,
)
    requires
        old(x).current_tab == Tab::Pools,
        old(x).pools_view == (PoolsView::Tree { expanded: e, selected: s }),
        n == row_laws::pools_size(old(x).pools_snapshot@, e@),
        call_ensures(App::<R, M, P, D>::on_key, (x, key), ()),
    ensures
        key.code == KeyCode::Up || key.code == KeyCode::Char('k') ==> same_but_pools(
            *final(x),
            *old(x),
        ) && (if s > 0 {
            pools_tree(final(x).pools_view, e@, s - 1)
        } else {
            pools_tree(final(x).pools_view, e@, 0)
        }),
        key.code == KeyCode::Down || key.code == KeyCode::Char('j') ==> same_but_pools(
            *final(x),
            *old(x),
        ) && (if s + 1 < n {
            pools_tree(final(x).pools_view, e@, s + 1)
        } else {
            pools_tree(final(x).pools_view, e@, s as int)
        }),
        key.code == KeyCode::Home ==> same_but_pools(*final(x), *old(x)) && pools_tree(
            final(x).pools_view,
            e@,
            0,
        ),
        key.code == KeyCode::End ==> same_but_pools(*final(x), *old(x)) && pools_tree(
            final(x).pools_view,
            e@,
            if n > 0 {
                n - 1
            } else {
                0
            },
        ),
{
    row_laws::rows_are_counted(old(x).pools_snapshot@, e@);
}

/// In the tree of datasets, the arrows and the letters beside them select the next row up or
/// down, as far as there is one, and Home and End the first and the last. Which datasets are
/// expanded does not change, nor does anything else.
pub proof fn keys_move_among_datasets<
    R: ArcReader,
    M: MemSource,
    P: PoolsSource,
    D: DatasetsSource,
>(x: &mut App<R, M, P, D>, key: KeyEvent, e: NameSet, s: usize, n: int)
    requires
        old(x).current_tab == Tab::Datasets,
        old(x).datasets_view == (DatasetsView::Tree { expanded: e, selected: s }),
        n == dataset_laws::forest_size(old(x).datasets_snapshot@, e@),
        call_ensures(App::<R, M, P, D>::on_key, (x, key), ()),
    ensures
        key.code == KeyCode::Up || key.code == KeyCode::Char('k') ==> same_but_datasets(
            *final(x),
            *old(x),
        ) && (if s > 0 {
            datasets_tree(final(x).datasets_view, e@, s - 1)
        } else {
            datasets_tree(final(x).datasets_view, e@, 0)
        }),
        key.code == KeyCode::Down || key.code == KeyCode::Char('j') ==> same_but_datasets(
            *final(x),
            *old(x),
        ) && (if s + 1 < n {
            datasets_tree(final(x).datasets_view, e@, s + 1)
        } else {
            datasets_tree(final(x).datasets_view, e@, s as int)
        }),
        key.code == KeyCode::Home ==> same_but_datasets(*final(x), *old(x)) && datasets_tree(
            final(x).datasets_view,
            e@,
            0,
        ),
        key.code == KeyCode::End ==> same_but_datasets(*final(x), *old(x)) && datasets_tree(
            final(x).datasets_view,
            e@,
            if n > 0 {
                n - 1
            } else {
                0
            },
        ),
{
    dataset_laws::rows_are_counted(old(x).datasets_snapshot@, e@);
}

/// Each letter does what the arrow in its direction does, on every tab.
pub proof fn letters_act_as_arrows<R: ArcReader, M: MemSource, P: PoolsSource, D: DatasetsSource>(
    x: &mut App<R, M, P, D>,
    y: &mut App<R, M, P, D>,
    letter: KeyEvent,
    arrow: KeyEvent,
)
    requires
        *old(x) == *old(y),
        ({
            ||| letter.code == KeyCode::Char('h') && arrow.code == KeyCode::Left
            ||| letter.code == KeyCode::Char('j') && arrow.code == KeyCode::Down
            ||| letter.code == KeyCode::Char('k') && arrow.code == KeyCode::Up
            ||| letter.code == KeyCode::Char('l') && arrow.code == KeyCode::Right
        }),
        call_ensures(App::<R, M, P, D>::on_key, (x, letter), ()),
        call_ensures(App::<R, M, P, D>::on_key, (y, arrow), ()),
    ensures
        same_state(*final(x), *final(y)),
{
    lemma_same(*final(x), *final(y));
}

/// Up undoes Down wherever Down went on, and Down undoes Up, in both trees.
pub proof fn up_and_down_are_opposite<
    R: ArcReader,
    M: MemSource,
    P: PoolsSource,
    D: DatasetsSource,
>(x: &mut App<R, M, P, D>, y: &mut App<R, M, P, D>, first: KeyEvent, second: KeyEvent)
    requires
        old(x).current_tab == Tab::Pools || old(x).current_tab == Tab::Datasets,
        *old(y) == *final(x),
        ({
            ||| first.code == KeyCode::Down && second.code == KeyCode::Up
            ||| first.code == KeyCode::Up && second.code == KeyCode::Down
            ||| first.code == KeyCode::Char('j') && second.code == KeyCode::Char('k')
            ||| first.code == KeyCode::Char('k') && second.code == KeyCode::Char('j')
        }),
        call_ensures(App::<R, M, P, D>::on_key, (x, first), ()),
        call_ensures(App::<R, M, P, D>::on_key, (y, second), ()),
        old(x).current_tab == Tab::Pools ==> (old(x).pools_view matches PoolsView::Tree {
            expanded,
            selected,
        } && selected < row_laws::pools_size(old(x).pools_snapshot@, expanded@)
            && !same_pools_view(final(x).pools_view, old(x).pools_view)),
        old(x).current_tab == Tab::Datasets ==> (old(x).datasets_view matches DatasetsView::Tree {
            expanded,
            selected,
        } && selected < dataset_laws::forest_size(old(x).datasets_snapshot@, expanded@)
            && !same_datasets_view(final(x).datasets_view, old(x).datasets_view)),
    ensures
        same_state(*final(y), *old(x)),
{
    if let PoolsView::Tree { expanded, .. } = old(x).pools_view {
        row_laws::rows_are_counted(old(x).pools_snapshot@, expanded@);
    }
    if let DatasetsView::Tree { expanded, .. } = old(x).datasets_view {
        dataset_laws::rows_are_counted(old(x).datasets_snapshot@, expanded@);
    }
    lemma_same(*final(y), *old(x));
}

proof fn lemma_head_row(keys: Seq<RowKey>, all: Seq<rows::PoolRow>, i: int)
    requires
        rows::keys_match(keys, all),
        0 <= i < keys.len(),
    ensures
        ({
            let p = rows::head_row(all, i);
            &&& 0 <= p <= i
            &&& p == 0 || keys[p].head
            &&& forall|k: int| p < k <= i ==> !(#[trigger] keys[k]).head
        }),
    decreases i,
{
    if i > 0 && !keys[i].head {
        lemma_head_row(keys, all, i - 1);
    }
}

proof fn lemma_first_row_has_a_pool(pools: Seq<crate::pools::types::PoolInfo>, e: Set<Seq<char>>)
    ensures
        rows::pool_rows(pools, e).len() > 0 ==> rows::pool_rows(pools, e)[0].vdev is None,
    decreases pools.len(),
{
    if pools.len() > 0 {
        lemma_first_row_has_a_pool(pools.drop_last(), e);
    }
}

/// In the tree of pools: Right on a pool that has vdevs expands it. Left on an expanded pool
/// collapses it, and from a vdev goes to the nearest pool above. Enter on either shows the first
/// pool of that name. Nothing else happens, and nothing at all where no row is selected.
pub proof fn keys_open_and_close_pools<
    R: ArcReader,
    M: MemSource,
    P: PoolsSource,
    D: DatasetsSource,
>(x: &mut App<R, M, P, D>, key: KeyEvent, e: NameSet, s: usize, keys: Vec<RowKey>)
    requires
        old(x).current_tab == Tab::Pools,
        old(x).pools_view == (PoolsView::Tree { expanded: e, selected: s }),
        call_ensures(rows::row_keys, (&old(x).pools_snapshot, &e), keys),
        call_ensures(App::<R, M, P, D>::on_key, (x, key), ()),
        key.code == KeyCode::Right || key.code == KeyCode::Left || key.code == KeyCode::Enter,
    ensures
        same_but_pools(*final(x), *old(x)),
        s >= keys@.len() ==> pools_tree(final(x).pools_view, e@, s as int),
        s < keys@.len() ==> {
            let pools = old(x).pools_snapshot@;
            let pool = pools[keys@[s as int].pool as int];
            let v = final(x).pools_view;
            &&& keys@[s as int].pool < pools.len()
            &&& key.code == KeyCode::Right && keys@[s as int].head
                && pool.root_vdev.children@.len() > 0 ==> pools_tree(
                v,
                e@.insert(pool.name@),
                s as int,
            )
            &&& key.code == KeyCode::Right && !(keys@[s as int].head
                && pool.root_vdev.children@.len() > 0) ==> pools_tree(v, e@, s as int)
            &&& key.code == KeyCode::Left && keys@[s as int].head && e@.contains(pool.name@) ==> {
                let n = row_laws::pools_size(pools, e@.remove(pool.name@));
                pools_tree(
                    v,
                    e@.remove(pool.name@),
                    if s < n {
                        s as int
                    } else {
                        n - 1
                    },
                )
            }
            &&& key.code == KeyCode::Left && keys@[s as int].head && !e@.contains(pool.name@)
                ==> pools_tree(v, e@, s as int)
            &&& key.code == KeyCode::Left && !keys@[s as int].head ==> exists|p: int|
                #![trigger keys@[p]]
                0 <= p < s && keys@[p].head && pools_tree(v, e@, p) && forall|k: int|
                    p < k < s ==> !(#[trigger] keys@[k]).head
            &&& key.code == KeyCode::Enter ==> exists|i: int|
                #![trigger pools[i]]
                0 <= i < pools.len() && pools[i].name@ == pool.name@ && pools_detail(v, i, e@)
                    && forall|j: int| 0 <= j < i ==> (#[trigger] pools[j]).name@ != pool.name@
        },
{
    let pools = old(x).pools_snapshot@;
    let all = rows::pool_rows(pools, e@);
    rows::rows_in_range(pools, e@);
    if s < keys@.len() {
        let k = keys@[s as int].pool as int;
        let name = pools[k].name@;
        assert(all[s as int].pool == k);
        row_laws::rows_are_counted(pools, e@.remove(name));
        rows::rows_in_range(pools, e@.remove(name));
        lemma_head_row(keys@, all, s as int);
        lemma_first_row_has_a_pool(pools, e@);
        rows::first_named_is_first(pools, name);
        let p = rows::head_row(all, s as int);
        assert(keys@[p].head);
    }
}

/// While a pool's details are shown, Esc and Backspace lead back to the tree, to its first row,
/// with the same pools expanded. Other keys that are bound to nothing on every tab do nothing.
pub proof fn details_of_pools_are_left<
    R: ArcReader,
    M: MemSource,
    P: PoolsSource,
    D: DatasetsSource,
>(x: &mut App<R, M, P, D>, key: KeyEvent, e: NameSet, i: usize)
    requires
        old(x).current_tab == Tab::Pools,
        old(x).pools_view == (PoolsView::Detail { pool_index: i, expanded: e }),
        call_ensures(App::<R, M, P, D>::on_key, (x, key), ()),
        bound_nowhere_else(key),
    ensures
        same_but_pools(*final(x), *old(x)),
        if key.code == KeyCode::Esc || key.code == KeyCode::Backspace {
            pools_tree(final(x).pools_view, e@, 0)
        } else {
            pools_detail(final(x).pools_view, i as int, e@)
        },
{
}

/// The key is not one of those that are bound on every tab.
pub open spec fn bound_nowhere_else(key: KeyEvent) -> bool {
    &&& key.code != KeyCode::Char('q')
    &&& key.code != KeyCode::Char('r')
    &&& key.code != KeyCode::Char('1')
    &&& key.code != KeyCode::Char('2')
    &&& key.code != KeyCode::Char('3')
    &&& key.code != KeyCode::Char('4')
    &&& key.code != KeyCode::Tab
    &&& key.code != KeyCode::BackTab
    &&& key.code == KeyCode::Char('c') ==> key.modifiers.bits & 2 != 2
}

/// The key is bound in a tree.
pub open spec fn bound_in_trees(code: KeyCode) -> bool {
    ||| code == KeyCode::Up
    ||| code == KeyCode::Down
    ||| code == KeyCode::Left
    ||| code == KeyCode::Right
    ||| code == KeyCode::Home
    ||| code == KeyCode::End
    ||| code == KeyCode::Enter
    ||| code == KeyCode::Char('h')
    ||| code == KeyCode::Char('j')
    ||| code == KeyCode::Char('k')
    ||| code == KeyCode::Char('l')
}

/// A key that is bound to nothing does nothing; what is bound in trees does nothing on the tabs
/// that have none.
pub proof fn unbound_keys_do_nothing<
    R: ArcReader,
    M: MemSource,
    P: PoolsSource,
    D: DatasetsSource,
>(x: &mut App<R, M, P, D>, key: KeyEvent)
    requires
        call_ensures(App::<R, M, P, D>::on_key, (x, key), ()),
        bound_nowhere_else(key),
        ({
            ||| old(x).current_tab == Tab::Overview
            ||| old(x).current_tab == Tab::Arc
            ||| old(x).current_tab == Tab::Pools && old(x).pools_view is Tree && !bound_in_trees(
                key.code,
            )
            ||| old(x).current_tab == Tab::Datasets && old(x).datasets_view is Tree
                && !bound_in_trees(key.code)
        }),
    ensures
        same_state(*final(x), *old(x)),
{
    lemma_same(*final(x), *old(x));
}

/// In the tree of datasets: Right on a dataset that has children expands it. Left on an expanded
/// dataset with children collapses it, and from any other goes to its parent, if it has one.
/// Enter shows the dataset. Nothing else happens, and nothing at all where no row is selected.
pub proof fn keys_open_and_close_datasets<
    R: ArcReader,
    M: MemSource,
    P: PoolsSource,
    D: DatasetsSource,
>(x: &mut App<R, M, P, D>, key: KeyEvent, e: NameSet, s: usize, list: Vec<LinkedRow<'_>>)
    requires
        old(x).current_tab == Tab::Datasets,
        old(x).datasets_view == (DatasetsView::Tree { expanded: e, selected: s }),
        call_ensures(datasets::linked_rows, (&old(x).datasets_snapshot, &e), list),
        call_ensures(App::<R, M, P, D>::on_key, (x, key), ()),
        key.code == KeyCode::Right || key.code == KeyCode::Left || key.code == KeyCode::Enter,
    ensures
        same_but_datasets(*final(x), *old(x)),
        s >= list@.len() ==> datasets_tree(final(x).datasets_view, e@, s as int),
        s < list@.len() ==> {
            let row = list@[s as int];
            let name = row.node.name@;
            let v = final(x).datasets_view;
            let parent_of_some = row.node.children@.len() > 0;
            &&& key.code == KeyCode::Right && parent_of_some ==> datasets_tree(
                v,
                e@.insert(name),
                s as int,
            )
            &&& key.code == KeyCode::Right && !parent_of_some ==> datasets_tree(v, e@, s as int)
            &&& key.code == KeyCode::Left && parent_of_some && e@.contains(name) ==> {
                let n = dataset_laws::forest_size(old(x).datasets_snapshot@, e@.remove(name));
                datasets_tree(
                    v,
                    e@.remove(name),
                    if s < n {
                        s as int
                    } else if n > 0 {
                        n - 1
                    } else {
                        0
                    },
                )
            }
            &&& key.code == KeyCode::Left && !(parent_of_some && e@.contains(name))
                ==> datasets_tree(
                v,
                e@,
                match row.parent {
                    Some(p) => p as int,
                    None => s as int,
                },
            )
            &&& key.code == KeyCode::Enter ==> datasets_detail(v, name, e@)
        },
{
    let roots = old(x).datasets_snapshot@;
    let all = datasets::dataset_rows(roots, e@);
    if s < list@.len() {
        let row = list@[s as int];
        assert(*row.node == all[s as int].node);
        dataset_laws::rows_are_counted(roots, e@.remove(row.node.name@));
    }
}

/// The first of the rows that shows a dataset of this name, or the first row if there is none.
pub open spec fn row_to_return_to(list: Seq<LinkedRow<'_>>, name: Seq<char>, at: int) -> bool {
    ||| 0 <= at < list.len() && list[at].node.name@ == name && forall|k: int|
        0 <= k < at ==> (#[trigger] list[k]).node.name@ != name
    ||| at == 0 && forall|k: int|
        0 <= k < list.len() ==> (#[trigger] list[k]).node.name@ != name
}

proof fn lemma_row_named(list: Seq<LinkedRow<'_>>, all: Seq<datasets::DatasetRow>, name: Seq<char>)
    requires
        datasets::linked(list, all),
    ensures
        row_to_return_to(list, name, match datasets::row_named(all, name) {
            Some(i) => i,
            None => 0,
        }),
{
    datasets::row_named_is_first(all, name);
    assert forall|k: int| 0 <= k < list.len() implies (#[trigger] list[k]).node.name@
        == all[k].node.name@ by {
        assert(*list[k].node == all[k].node);
    }
}

/// While a dataset's details are shown, Esc and Backspace lead back to the tree, to the row of
/// the dataset, with the same datasets expanded. Other keys that are bound to nothing on every
/// tab do nothing.
pub proof fn details_of_datasets_are_left<
    R: ArcReader,
    M: MemSource,
    P: PoolsSource,
    D: DatasetsSource,
>(x: &mut App<R, M, P, D>, key: KeyEvent, e: NameSet, name: String, list: Vec<LinkedRow<'_>>)
    requires
        old(x).current_tab == Tab::Datasets,
        old(x).datasets_view == (DatasetsView::Detail { name, expanded: e }),
        call_ensures(datasets::linked_rows, (&old(x).datasets_snapshot, &e), list),
        call_ensures(App::<R, M, P, D>::on_key, (x, key), ()),
        bound_nowhere_else(key),
    ensures
        same_but_datasets(*final(x), *old(x)),
        if key.code == KeyCode::Esc || key.code == KeyCode::Backspace {
            on_row_of_dataset(final(x).datasets_view, e@, list@, name@)
        } else {
            datasets_detail(final(x).datasets_view, name@, e@)
        },
{
    let all = datasets::dataset_rows(old(x).datasets_snapshot@, e@);
    lemma_row_named(list@, all, name@);
}

/// How many tabs there are to the left of a tab.
pub open spec fn place(t: Tab) -> int {
    match t {
        Tab::Overview => 0,
        Tab::Pools => 1,
        Tab::Datasets => 2,
        Tab::Arc => 3,
    }
}

/// The tree of pools is shown, with the row of this one of `n` pools selected, or the first row
/// if there is no such pool.
pub open spec fn on_row_of_pool(
    v: PoolsView,
    e: Set<Seq<char>>,
    keys: Seq<RowKey>,
    pool: usize,
    n: int,
) -> bool {
    v matches PoolsView::Tree { expanded, selected } && expanded@ == e && if pool < n {
        selected < keys.len() && keys[selected as int].head && keys[selected as int].pool == pool
    } else {
        selected == 0
    }
}

proof fn lemma_pool_row(s: Seq<rows::PoolRow>, pool: int)
    ensures
        rows::pool_row(s, pool) matches Some(i) ==> 0 <= i < s.len() && s[i].pool == pool,
    decreases s.len(),
{
    if s.len() > 0 {
        lemma_pool_row(s.drop_last(), pool);
    }
}

/// The tree of datasets is shown, with the row selected that details of `name` give way to.
pub open spec fn on_row_of_dataset(
    v: DatasetsView,
    e: Set<Seq<char>>,
    list: Seq<LinkedRow<'_>>,
    name: Seq<char>,
) -> bool {
    v matches DatasetsView::Tree { expanded, selected } && expanded@ == e && row_to_return_to(
        list,
        name,
        selected as int,
    )
}

/// The state after `target` was switched to: of the tab that was left, details have given way
/// to the tree, on the row of what they showed.
pub open spec fn switched_to<R, M, P, D>(
    before: App<R, M, P, D>,
    after: App<R, M, P, D>,
    target: Tab,
) -> bool {
    &&& same_data(after, before)
    &&& after.should_quit == before.should_quit
    &&& after.current_tab == target
    &&& match before.pools_view {
        PoolsView::Detail { pool_index, expanded } if before.current_tab == Tab::Pools && target
            != Tab::Pools => forall|keys: Vec<RowKey>|
            #[trigger] call_ensures(rows::row_keys, (&before.pools_snapshot, &expanded), keys)
                ==> on_row_of_pool(
                after.pools_view,
                expanded@,
                keys@,
                pool_index,
                before.pools_snapshot@.len() as int,
            ),
        _ => same_pools_view(after.pools_view, before.pools_view),
    }
    &&& match before.datasets_view {
        DatasetsView::Detail { name, expanded } if before.current_tab == Tab::Datasets && target
            != Tab::Datasets => forall|list: Vec<LinkedRow<'_>>|
            #[trigger] call_ensures(
                datasets::linked_rows,
                (&before.datasets_snapshot, &expanded),
                list,
            ) ==> on_row_of_dataset(after.datasets_view, expanded@, list@, name@),
        _ => same_datasets_view(after.datasets_view, before.datasets_view),
    }
}

proof fn lemma_switched<R, M, P, D>(
    before: App<R, M, P, D>,
    after: App<R, M, P, D>,
    target: Tab,
)
    requires
        after.same_sources(before),
        after@ == crate::app::model::switched(before@, target),
    ensures
        switched_to(before, after, target),
{
    if target == before.current_tab {
        lemma_same(after, before);
    } else {
        assert(after@.pools_view == crate::app::model::switched(before@, target).pools_view);
        if let PoolsView::Detail { pool_index, expanded } = before.pools_view {
            let pools = before.pools_snapshot@;
            if pool_index < pools.len() {
                rows::pool_row_finds(pools, expanded@, pool_index as int);
            } else {
                rows::rows_in_range(pools, expanded@);
                lemma_pool_row(rows::pool_rows(pools, expanded@), pool_index as int);
            }
        }
        if let DatasetsView::Detail { name, expanded } = before.datasets_view {
            let all = datasets::dataset_rows(before.datasets_snapshot@, expanded@);
            assert forall|list: Vec<LinkedRow<'_>>|
                #[trigger] call_ensures(
                    datasets::linked_rows,
                    (&before.datasets_snapshot, &expanded),
                    list,
                ) implies row_to_return_to(list@, name@, match datasets::row_named(all, name@) {
                Some(i) => i,
                None => 0,
            }) by {
                lemma_row_named(list@, all, name@);
            }
        }
    }
}

/// The digits switch to the tabs in order, Tab to the next and BackTab to the one before, going
/// round at both ends.
pub proof fn keys_switch_tabs<R: ArcReader, M: MemSource, P: PoolsSource, D: DatasetsSource>(
    x: &mut App<R, M, P, D>,
    key: KeyEvent,
)
    requires
        call_ensures(App::<R, M, P, D>::on_key, (x, key), ()),
    ensures
        key.code == KeyCode::Char('1') ==> switched_to(*old(x), *final(x), Tab::Overview),
        key.code == KeyCode::Char('2') ==> switched_to(*old(x), *final(x), Tab::Pools),
        key.code == KeyCode::Char('3') ==> switched_to(*old(x), *final(x), Tab::Datasets),
        key.code == KeyCode::Char('4') ==> switched_to(*old(x), *final(x), Tab::Arc),
        key.code == KeyCode::Tab ==> switched_to(*old(x), *final(x), final(x).current_tab) && (
        place(final(x).current_tab) == place(old(x).current_tab) + 1 || old(x).current_tab
            == Tab::Arc && final(x).current_tab == Tab::Overview),
        key.code == KeyCode::BackTab ==> switched_to(*old(x), *final(x), final(x).current_tab) && (
        place(final(x).current_tab) == place(old(x).current_tab) - 1 || old(x).current_tab
            == Tab::Overview && final(x).current_tab == Tab::Arc),
{
    if key.code == KeyCode::Char('1') {
        lemma_switched(*old(x), *final(x), Tab::Overview);
    } else if key.code == KeyCode::Char('2') {
        lemma_switched(*old(x), *final(x), Tab::Pools);
    } else if key.code == KeyCode::Char('3') {
        lemma_switched(*old(x), *final(x), Tab::Datasets);
    } else if key.code == KeyCode::Char('4') {
        lemma_switched(*old(x), *final(x), Tab::Arc);
    } else if key.code == KeyCode::Tab {
        lemma_switched(*old(x), *final(x), old(x).current_tab.offset(1));
    } else if key.code == KeyCode::BackTab {
        lemma_switched(*old(x), *final(x), old(x).current_tab.offset(-1));
    }
}

/// `switch_tab` switches to the tab asked for.
pub proof fn tabs_are_switched_to<R, M, P, D>(x: &mut App<R, M, P, D>, target: Tab)
    requires
        call_ensures(App::<R, M, P, D>::switch_tab, (x, target), ()),
    ensures
        switched_to(*old(x), *final(x), target),
{
    lemma_switched(*old(x), *final(x), target);
}

/// `cycle_tab` goes on by as many places as asked, to the right or to the left, going round.
pub proof fn tabs_go_round<R, M, P, D>(x: &mut App<R, M, P, D>, delta: i32)
    requires
        call_ensures(App::<R, M, P, D>::cycle_tab, (x, delta), ()),
    ensures
        switched_to(*old(x), *final(x), final(x).current_tab),
        (place(old(x).current_tab) + delta - place(final(x).current_tab)) % 4 == 0,
{
    let target = old(x).current_tab.offset(delta as int);
    lemma_switched(*old(x), *final(x), target);
    let p = (place(old(x).current_tab) + delta) % 4;
    assert(p == 0 || p == 1 || p == 2 || p == 3);
}

/// `q` and Ctrl+C utter the wish to quit and do nothing else; no other key utters it, and none
/// takes it back.
pub proof fn keys_quit<R: ArcReader, M: MemSource, P: PoolsSource, D: DatasetsSource>(
    x: &mut App<R, M, P, D>,
    key: KeyEvent,
)
    requires
        call_ensures(App::<R, M, P, D>::on_key, (x, key), ()),
    ensures
        ({
            let quits = key.code == KeyCode::Char('q') || key.code == KeyCode::Char('c')
                && key.modifiers.bits & 2 == 2;
            &&& final(x).should_quit == (old(x).should_quit || quits)
            &&& quits ==> same_data(*final(x), *old(x)) && final(x).current_tab
                == old(x).current_tab && same_pools_view(final(x).pools_view, old(x).pools_view)
                && same_datasets_view(final(x).datasets_view, old(x).datasets_view)
        }),
{
    if key.code == KeyCode::Char('r') {
        let (z, r) = choose|z: &mut App<R, M, P, D>, r: Result<(), ArcStatsError>|
            *z == *old(x) && *final(z) == *final(x) && #[trigger] call_ensures(
                App::<R, M, P, D>::refresh,
                (z,),
                r,
            ) && old(x).refreshes_to(*final(x), r);
        assert(final(x)@.should_quit == old(x)@.should_quit);
    } else {
        assert(final(x)@.should_quit == crate::app::model::pressed(old(x)@, key).should_quit);
    }
}

/// Row `to` of `n` is where going on from `from` by `delta` leads to, or the end that is hit.
pub open spec fn stops_at(from: int, delta: int, n: int, to: int) -> bool {
    if n == 0 {
        to == from
    } else {
        &&& 0 <= to < n
        &&& to != from + delta ==> from + delta < 0 && to == 0 || from + delta >= n && to == n - 1
    }
}

/// `scroll` moves the selection of the tree that is shown by as many rows as asked, but not past
/// its ends; nothing else changes.
pub proof fn scrolling_stops_at_the_ends<R, M, P, D>(x: &mut App<R, M, P, D>, delta: i32)
    requires
        call_ensures(App::<R, M, P, D>::scroll, (x, delta), ()),
    ensures
        scrolled_by(*old(x), *final(x), delta as int),
{
    lemma_scrolled(*old(x), *final(x), delta as int);
}

/// The state after the selection of the tree that is shown was moved by `delta` rows.
pub open spec fn scrolled_by<R, M, P, D>(
    before: App<R, M, P, D>,
    after: App<R, M, P, D>,
    delta: int,
) -> bool {
    &&& same_data(after, before)
    &&& after.should_quit == before.should_quit
    &&& after.current_tab == before.current_tab
    &&& match before.pools_view {
        PoolsView::Tree { expanded, selected } if before.current_tab == Tab::Pools =>
            after.pools_view matches PoolsView::Tree { expanded: e, selected: s } && e@ == expanded@
                && stops_at(
                selected as int,
                delta,
                row_laws::pools_size(before.pools_snapshot@, expanded@) as int,
                s as int,
            ),
        _ => same_pools_view(after.pools_view, before.pools_view),
    }
    &&& match before.datasets_view {
        DatasetsView::Tree { expanded, selected } if before.current_tab == Tab::Datasets =>
            after.datasets_view matches DatasetsView::Tree { expanded: e, selected: s } && e@
                == expanded@ && stops_at(
                selected as int,
                delta,
                dataset_laws::forest_size(before.datasets_snapshot@, expanded@) as int,
                s as int,
            ),
        _ => same_datasets_view(after.datasets_view, before.datasets_view),
    }
}

proof fn lemma_scrolled<R, M, P, D>(before: App<R, M, P, D>, after: App<R, M, P, D>, delta: int)
    requires
        after.same_sources(before),
        after@ == crate::app::model::scrolled(before@, delta),
    ensures
        scrolled_by(before, after, delta),
{
    let t = crate::app::model::scrolled(before@, delta);
    assert(after@.pools_view == t.pools_view);
    assert(after@.datasets_view == t.datasets_view);
    if let PoolsView::Tree { expanded, .. } = before.pools_view {
        row_laws::rows_are_counted(before.pools_snapshot@, expanded@);
    }
    if let DatasetsView::Tree { expanded, .. } = before.datasets_view {
        dataset_laws::rows_are_counted(before.datasets_snapshot@, expanded@);
    }
}

/// The wheel moves the selection by one row, down or up; other things that the mouse does change
/// nothing.
pub proof fn wheel_moves_by_one<R, M, P, D>(x: &mut App<R, M, P, D>, mouse: MouseEvent)
    requires
        call_ensures(App::<R, M, P, D>::on_mouse, (x, mouse), ()),
    ensures
        mouse.kind == MouseEventKind::ScrollDown ==> scrolled_by(*old(x), *final(x), 1),
        mouse.kind == MouseEventKind::ScrollUp ==> scrolled_by(*old(x), *final(x), -1),
        mouse.kind == MouseEventKind::Other ==> same_state(*final(x), *old(x)),
{
    match mouse.kind {
        MouseEventKind::ScrollDown => lemma_scrolled(*old(x), *final(x), 1),
        MouseEventKind::ScrollUp => lemma_scrolled(*old(x), *final(x), -1),
        MouseEventKind::Other => lemma_same(*final(x), *old(x)),
    }
}

/// `handle` does what `on_key` does on a key, but for the one that refreshes, and what
/// `on_mouse` does on the mouse; other events change nothing. It tells to quit when the wish was
/// uttered.
pub proof fn events_are_passed_on<R: ArcReader, M: MemSource, P: PoolsSource, D: DatasetsSource>(
    x: &mut App<R, M, P, D>,
    y: &mut App<R, M, P, D>,
    event: Event,
    quit: bool,
)
    requires
        *old(x) == *old(y),
        call_ensures(App::<R, M, P, D>::handle, (x, event), quit),
        match event {
            Event::Key(key) => key.code != KeyCode::Char('r') && call_ensures(
                App::<R, M, P, D>::on_key,
                (y, key),
                (),
            ),
            Event::Mouse(mouse) => call_ensures(App::<R, M, P, D>::on_mouse, (y, mouse), ()),
            Event::Other => *final(y) == *old(y),
            Event::Timeout => false,
        },
    ensures
        same_state(*final(x), *final(y)),
        quit == final(x).should_quit,
{
    lemma_same(*final(x), *final(y));
}

/// The control key is told from other modifiers by its bit; without a modifier no bit is set.
pub proof fn control_is_one_of_the_modifiers(
    m: KeyModifiers,
    control: KeyModifiers,
    none: KeyModifiers,
    r: bool,
)
    requires
        call_ensures(KeyModifiers::control, (), control),
        call_ensures(KeyModifiers::none, (), none),
        call_ensures(KeyModifiers::contains, (&m, control), r),
    ensures
        r == (m.bits & 2 == 2),
        none.bits == 0,
{
}

/// The tabs, from left to right, with what they are called and the keys that switch to them.
pub proof fn tabs_are_named_and_numbered(t: Tab, title: &'static str, key: char, index: usize)
    requires
        call_ensures(Tab::title, (&t,), title),
        call_ensures(Tab::hotkey, (&t,), key),
        call_ensures(Tab::index, (&t,), index),
    ensures
        t is Overview ==> title@ == "Overview"@ && key == '1' && index == 0,
        t is Pools ==> title@ == "Pools"@ && key == '2' && index == 1,
        t is Datasets ==> title@ == "Datasets"@ && key == '3' && index == 2,
        t is Arc ==> title@ == "ARC"@ && key == '4' && index == 3,
{
}

/// The key that a tab is said to have is the one that switches to it.
pub proof fn hotkeys_switch_to_their_tabs<
    R: ArcReader,
    M: MemSource,
    P: PoolsSource,
    D: DatasetsSource,
>(x: &mut App<R, M, P, D>, t: Tab, c: char, modifiers: KeyModifiers)
    requires
        call_ensures(Tab::hotkey, (&t,), c),
        call_ensures(
            App::<R, M, P, D>::on_key,
            (x, (KeyEvent { code: KeyCode::Char(c), modifiers })),
            (),
        ),
    ensures
        final(x).current_tab == t,
        switched_to(*old(x), *final(x), t),
{
    lemma_switched(*old(x), *final(x), t);
}

/// A copy of what a tab shows is the same.
pub proof fn views_are_copied(
    p: PoolsView,
    pools: PoolsView,
    d: DatasetsView,
    datasets: DatasetsView,
)
    requires
        call_ensures(PoolsView::clone, (&p,), pools),
        call_ensures(DatasetsView::clone, (&d,), datasets),
    ensures
        same_pools_view(pools, p),
        same_datasets_view(datasets, d),
{
}

} // verus!
