//! What keys and the mouse do.
use vstd::prelude::*;

use crate::app::input::{Event, KeyCode, KeyEvent, KeyModifiers, MouseEvent, MouseEventKind};
use crate::app::model;
use crate::app::state::App;
use crate::app::tab::Tab;
use crate::app::view;
use crate::app::view::{DatasetsView, PoolsView};
use crate::arcstats::{ArcReader, ArcStatsError};
use crate::datasets;
use crate::datasets::{linked_rows, DatasetNode, DatasetsSource, LinkedRow};
use crate::meminfo::MemSource;
use crate::pools::rows;
use crate::pools::rows::{row_keys, RowKey};
use crate::pools::types::{PoolInfo, PoolsSource};

verus! {

/// Where a key that moves the selection leads to among `n` rows, `None` for any other key.
fn moved(code: KeyCode, selected: usize, n: usize) -> (r: Option<usize>)
    ensures
        datasets::opt_index(r) == model::moved(code, selected as int, n as int),
{
    match code {
        KeyCode::Down | KeyCode::Char('j') => if n > 0 && selected < n - 1 {
            Some(selected + 1)
        } else {
            Some(selected)
        },
        KeyCode::Up | KeyCode::Char('k') => if selected > 0 {
            Some(selected - 1)
        } else {
            Some(selected)
        },
        KeyCode::Home => Some(0),
        KeyCode::End => if n > 0 {
            Some(n - 1)
        } else {
            Some(0)
        },
        _ => None,
    }
}

/// `selected` moved on by `delta`, but no farther than to the first or the last of `n` rows.
fn slid(selected: usize, delta: i32, n: usize) -> (r: usize)
    ensures
        r == model::slid(selected as int, delta as int, n as int),
{
    if n == 0 {
        selected
    } else if delta < 0 {
        let back: usize = (-(delta as i64)) as usize;
        if selected < back {
            0
        } else if selected - back >= n {
            n - 1
        } else {
            selected - back
        }
    } else {
        let on: usize = delta as usize;
        if selected >= n || on >= n - selected {
            n - 1
        } else {
            selected + on
        }
    }
}

/// The first row that shows the pool at index `pool` itself.
fn find_pool_row(keys: &Vec<RowKey>, pool: usize, Ghost(all): Ghost<Seq<rows::PoolRow>>) -> (r:
    Option<usize>)
    requires
        rows::keys_match(keys@, all),
    ensures
        datasets::opt_index(r) == rows::pool_row(all, pool as int),
        r matches Some(i) ==> i < all.len(),
{
    let mut i: usize = 0;
    assert(all.take(0) =~= Seq::empty());
    while i < keys.len()
        invariant
            i <= keys.len(),
            rows::keys_match(keys@, all),
            rows::pool_row(all.take(i as int), pool as int) is None,
        decreases keys.len() - i,
    {
        proof {
            assert(all.take(i + 1).drop_last() =~= all.take(i as int));
            assert(all.take(i + 1).last() == all[i as int]);
        }
        if keys[i].pool == pool && keys[i].head {
            proof {
                lemma_pool_row_prefix(all, i + 1, pool as int);
            }
            return Some(i);
        }
        i = i + 1;
    }
    assert(all.take(i as int) =~= all);
    None
}

/// A row found among the first `n` is the one found among all.
proof fn lemma_pool_row_prefix(all: Seq<rows::PoolRow>, n: int, pool: int)
    requires
        0 <= n <= all.len(),
        rows::pool_row(all.take(n), pool) is Some,
    ensures
        rows::pool_row(all, pool) == rows::pool_row(all.take(n), pool),
    decreases all.len(),
{
    if n == all.len() {
        assert(all.take(n) =~= all);
    } else {
        assert(all.drop_last().take(n) =~= all.take(n));
        lemma_pool_row_prefix(all.drop_last(), n, pool);
    }
}

/// The first row of the dataset of that name.
fn find_row_named(
    list: &Vec<LinkedRow<'_>>,
    name: &String,
    Ghost(all): Ghost<Seq<datasets::DatasetRow>>,
) -> (r: Option<usize>)
    requires
        datasets::linked(list@, all),
    ensures
        datasets::opt_index(r) == datasets::row_named(all, name@),
        r matches Some(i) ==> i < all.len(),
{
    let mut i: usize = 0;
    assert(all.take(0) =~= Seq::empty());
    while i < list.len()
        invariant
            i <= list.len(),
            datasets::linked(list@, all),
            datasets::row_named(all.take(i as int), name@) is None,
        decreases list.len() - i,
    {
        proof {
            assert(all.take(i + 1).drop_last() =~= all.take(i as int));
            assert(all.take(i + 1).last() == all[i as int]);
        }
        if list[i].node.name == *name {
            proof {
                lemma_row_named_prefix(all, i + 1, name@);
            }
            return Some(i);
        }
        i = i + 1;
    }
    assert(all.take(i as int) =~= all);
    None
}

/// A row found among the first `n` is the one found among all.
proof fn lemma_row_named_prefix(all: Seq<datasets::DatasetRow>, n: int, name: Seq<char>)
    requires
        0 <= n <= all.len(),
        datasets::row_named(all.take(n), name) is Some,
    ensures
        datasets::row_named(all, name) == datasets::row_named(all.take(n), name),
    decreases all.len(),
{
    if n == all.len() {
        assert(all.take(n) =~= all);
    } else {
        assert(all.drop_last().take(n) =~= all.take(n));
        lemma_row_named_prefix(all.drop_last(), n, name);
    }
}

/// The index of the first pool of that name.
fn find_pool_named(pools: &Vec<PoolInfo>, name: &String) -> (r: Option<usize>)
    ensures
        datasets::opt_index(r) == rows::first_named(pools@, name@),
{
    let mut i: usize = 0;
    assert(pools@.take(0) =~= Seq::empty());
    while i < pools.len()
        invariant
            i <= pools.len(),
            rows::first_named(pools@.take(i as int), name@) is None,
        decreases pools.len() - i,
    {
        proof {
            assert(pools@.take(i + 1).drop_last() =~= pools@.take(i as int));
            assert(pools@.take(i + 1).last() == pools@[i as int]);
        }
        if pools[i].name == *name {
            proof {
                lemma_first_named_prefix(pools@, i + 1, name@);
            }
            return Some(i);
        }
        i = i + 1;
    }
    assert(pools@.take(i as int) =~= pools@);
    None
}

/// A pool found among the first `n` is the one found among all.
proof fn lemma_first_named_prefix(pools: Seq<PoolInfo>, n: int, name: Seq<char>)
    requires
        0 <= n <= pools.len(),
        rows::first_named(pools.take(n), name) is Some,
    ensures
        rows::first_named(pools, name) == rows::first_named(pools.take(n), name),
    decreases pools.len(),
{
    if n == pools.len() {
        assert(pools.take(n) =~= pools);
    } else {
        assert(pools.drop_last().take(n) =~= pools.take(n));
        lemma_first_named_prefix(pools.drop_last(), n, name);
    }
}

/// The pool row at or above row `i`.
fn find_head_row(keys: &Vec<RowKey>, i: usize, Ghost(all): Ghost<Seq<rows::PoolRow>>) -> (r: usize)
    requires
        rows::keys_match(keys@, all),
        i < all.len(),
    ensures
        r == rows::head_row(all, i as int),
        r <= i,
{
    let mut k: usize = i;
    while k > 0 && !keys[k].head
        invariant
            rows::keys_match(keys@, all),
            k <= i < all.len(),
            rows::head_row(all, k as int) == rows::head_row(all, i as int),
        decreases k,
    {
        k = k - 1;
    }
    k
}

impl<R, M, P, D> App<R, M, P, D> {
    /// Puts the tree in place of the details of a pool, with that pool selected.
    fn leave_pools(&mut self)
        ensures
            final(self).same_sources(*old(self)),
            final(self)@ == (model::AppModel {
                pools_view: model::pools_left(old(self)@.pools, old(self)@.pools_view),
                ..old(self)@
            }),
    {
        if let PoolsView::Detail { pool_index, expanded } = &self.pools_view {
            let keys = row_keys(&self.pools_snapshot, expanded);
            let ghost all = rows::pool_rows(self.pools_snapshot@, expanded@);
            let selected: usize = match find_pool_row(&keys, *pool_index, Ghost(all)) {
                Some(i) => i,
                None => 0,
            };
            let restored = expanded.clone();
            self.pools_view = PoolsView::Tree { expanded: restored, selected };
        }
    }

    /// Puts the tree in place of the details of a dataset, with that dataset selected if it is
    /// visible.
    fn leave_datasets(&mut self)
        ensures
            final(self).same_sources(*old(self)),
            final(self)@ == (model::AppModel {
                datasets_view: model::datasets_left(old(self)@.datasets, old(self)@.datasets_view),
                ..old(self)@
            }),
    {
        if let DatasetsView::Detail { name, expanded } = &self.datasets_view {
            let list = linked_rows(&self.datasets_snapshot, expanded);
            let ghost all = datasets::dataset_rows(self.datasets_snapshot@, expanded@);
            let selected: usize = match find_row_named(&list, name, Ghost(all)) {
                Some(i) => i,
                None => 0,
            };
            let restored = expanded.clone();
            self.datasets_view = DatasetsView::Tree { expanded: restored, selected };
        }
    }

    /// Switches to a tab. The tab that is left goes back from details to its tree. Nothing
    /// happens where the tab is shown already.
    pub fn switch_tab(&mut self, target: Tab)
        ensures
            final(self).same_sources(*old(self)),
            final(self)@ == model::switched(old(self)@, target),
    {
        if target == self.current_tab {
            return;
        }
        if self.current_tab == Tab::Pools {
            self.leave_pools();
        }
        if self.current_tab == Tab::Datasets {
            self.leave_datasets();
        }
        self.current_tab = target;
    }

    /// Switches to the tab `delta` positions to the right, going round at both ends.
    pub fn cycle_tab(&mut self, delta: i32)
        requires
            old(self)@.tab.position() + delta <= i32::MAX,
        ensures
            final(self).same_sources(*old(self)),
            final(self)@ == model::switched(old(self)@, old(self)@.tab.offset(delta as int)),
    {
        let all = Tab::ALL;
        let len: i32 = 4;
        let current: i32 = self.current_tab.index() as i32;
        let next: i32 = ((current + delta) % len + len) % len;
        self.switch_tab(all[next as usize]);
    }

    /// Shows the vdevs of the selected pool. Nothing happens on a vdev or on a pool without
    /// vdevs.
    fn expand_selected_pool(&mut self)
        ensures
            final(self).same_sources(*old(self)),
            final(self)@ == (model::AppModel {
                pools_view: match old(self)@.pools_view {
                    view::PoolsModel::Tree { expanded, selected } => model::pool_expanded(
                        old(self)@.pools,
                        expanded,
                        selected,
                    ),
                    v => v,
                },
                ..old(self)@
            }),
    {
        if let PoolsView::Tree { expanded, selected } = &mut self.pools_view {
            let keys = row_keys(&self.pools_snapshot, expanded);
            proof {
                rows::rows_in_range(self.pools_snapshot@, expanded@);
            }
            if *selected < keys.len() && keys[*selected].head {
                let pool: &PoolInfo = &self.pools_snapshot[keys[*selected].pool];
                if pool.root_vdev.children.len() > 0 {
                    expanded.insert(pool.name.clone());
                }
            }
        }
    }

    /// Hides the vdevs of the selected pool, or selects the pool of the selected vdev.
    fn collapse_or_jump_to_parent_pool(&mut self)
        ensures
            final(self).same_sources(*old(self)),
            final(self)@ == (model::AppModel {
                pools_view: match old(self)@.pools_view {
                    view::PoolsModel::Tree { expanded, selected } => model::pool_collapsed(
                        old(self)@.pools,
                        expanded,
                        selected,
                    ),
                    v => v,
                },
                ..old(self)@
            }),
    {
        if let PoolsView::Tree { expanded, selected } = &mut self.pools_view {
            let keys = row_keys(&self.pools_snapshot, expanded);
            let ghost all = rows::pool_rows(self.pools_snapshot@, expanded@);
            proof {
                rows::rows_in_range(self.pools_snapshot@, expanded@);
            }
            if *selected < keys.len() {
                let key: RowKey = keys[*selected];
                if !key.head {
                    *selected = find_head_row(&keys, *selected, Ghost(all));
                } else {
                    let name: &String = &self.pools_snapshot[key.pool].name;
                    if expanded.contains(name.as_str()) {
                        expanded.remove(name.as_str());
                        self.clamp_pools_selection();
                    }
                }
            }
        }
    }

    /// Shows the details of the pool that the selected row belongs to.
    fn drill_into_selected_pool(&mut self)
        ensures
            final(self).same_sources(*old(self)),
            final(self)@ == (model::AppModel {
                pools_view: match old(self)@.pools_view {
                    view::PoolsModel::Tree { expanded, selected } => model::pool_entered(
                        old(self)@.pools,
                        expanded,
                        selected,
                    ),
                    v => v,
                },
                ..old(self)@
            }),
    {
        if let PoolsView::Tree { expanded, selected } = &self.pools_view {
            if let Some(pool_index) = self.selected_pool_index_for_drill() {
                let restored = expanded.clone();
                self.pools_view = PoolsView::Detail { pool_index, expanded: restored };
            }
        }
    }

    /// The index of the pool that the selected row belongs to, `None` where no row is selected.
    fn selected_pool_index_for_drill(&self) -> (r: Option<usize>)
        ensures
            datasets::opt_index(r) == (match self@.pools_view {
                view::PoolsModel::Tree { expanded, selected } => {
                    let all = rows::pool_rows(self@.pools, expanded);
                    if selected < all.len() {
                        rows::first_named(self@.pools, self@.pools[all[selected].pool].name@)
                    } else {
                        None
                    }
                },
                view::PoolsModel::Detail { .. } => None,
            }),
    {
        if let PoolsView::Tree { expanded, selected } = &self.pools_view {
            let keys = row_keys(&self.pools_snapshot, expanded);
            proof {
                rows::rows_in_range(self.pools_snapshot@, expanded@);
            }
            if *selected < keys.len() {
                let name: &String = &self.pools_snapshot[keys[*selected].pool].name;
                return find_pool_named(&self.pools_snapshot, name);
            }
        }
        None
    }

    /// What a key does on the Pools tab.
    fn on_key_pools(&mut self, code: KeyCode)
        ensures
            final(self).same_sources(*old(self)),
            final(self)@ == (model::AppModel {
                pools_view: model::pools_pressed(old(self)@.pools, old(self)@.pools_view, code),
                ..old(self)@
            }),
    {
        match &mut self.pools_view {
            PoolsView::Detail { pool_index: _, expanded } => {
                if code == KeyCode::Esc || code == KeyCode::Backspace {
                    let restored = expanded.clone();
                    self.pools_view = PoolsView::Tree { expanded: restored, selected: 0 };
                    self.clamp_pools_selection();
                }
            },
            PoolsView::Tree { expanded, selected } => {
                let n: usize = row_keys(&self.pools_snapshot, expanded).len();
                if let Some(to) = moved(code, *selected, n) {
                    *selected = to;
                    return;
                }
                match code {
                    KeyCode::Right | KeyCode::Char('l') => self.expand_selected_pool(),
                    KeyCode::Left | KeyCode::Char('h') => self.collapse_or_jump_to_parent_pool(),
                    KeyCode::Enter => self.drill_into_selected_pool(),
                    _ => {},
                }
            },
        }
    }

    /// Shows the children of the selected dataset. Nothing happens on one without children.
    fn expand_selected_dataset(&mut self)
        ensures
            final(self).same_sources(*old(self)),
            final(self)@ == (model::AppModel {
                datasets_view: match old(self)@.datasets_view {
                    view::DatasetsModel::Tree { expanded, selected } => model::dataset_expanded(
                        old(self)@.datasets,
                        expanded,
                        selected,
                    ),
                    v => v,
                },
                ..old(self)@
            }),
    {
        if let DatasetsView::Tree { expanded, selected } = &mut self.datasets_view {
            let list = linked_rows(&self.datasets_snapshot, expanded);
            if *selected < list.len() {
                let node: &DatasetNode = list[*selected].node;
                if node.has_children() {
                    expanded.insert(node.name.clone());
                }
            }
        }
    }

    /// Hides the children of the selected dataset where they are shown, else selects the dataset
    /// that it hangs from. Nothing happens on a root that shows no children.
    fn collapse_or_jump_to_parent(&mut self)
        ensures
            final(self).same_sources(*old(self)),
            final(self)@ == (model::AppModel {
                datasets_view: match old(self)@.datasets_view {
                    view::DatasetsModel::Tree { expanded, selected } => model::dataset_collapsed(
                        old(self)@.datasets,
                        expanded,
                        selected,
                    ),
                    v => v,
                },
                ..old(self)@
            }),
    {
        if let DatasetsView::Tree { expanded, selected } = &mut self.datasets_view {
            let list = linked_rows(&self.datasets_snapshot, expanded);
            if *selected < list.len() {
                let node: &DatasetNode = list[*selected].node;
                if expanded.contains(node.name.as_str()) && node.has_children() {
                    expanded.remove(node.name.as_str());
                    self.clamp_datasets_selection();
                } else if let Some(parent) = list[*selected].parent {
                    *selected = parent;
                }
            }
        }
    }

    /// Shows the details of the selected dataset.
    fn drill_into_selected_dataset(&mut self)
        ensures
            final(self).same_sources(*old(self)),
            final(self)@ == (model::AppModel {
                datasets_view: match old(self)@.datasets_view {
                    view::DatasetsModel::Tree { expanded, selected } => model::dataset_entered(
                        old(self)@.datasets,
                        expanded,
                        selected,
                    ),
                    v => v,
                },
                ..old(self)@
            }),
    {
        if let DatasetsView::Tree { expanded, selected } = &self.datasets_view {
            let list = linked_rows(&self.datasets_snapshot, expanded);
            if *selected < list.len() {
                let name: String = list[*selected].node.name.clone();
                let restored = expanded.clone();
                self.datasets_view = DatasetsView::Detail { name, expanded: restored };
            }
        }
    }

    /// What a key does on the Datasets tab.
    fn on_key_datasets(&mut self, code: KeyCode)
        ensures
            final(self).same_sources(*old(self)),
            final(self)@ == (model::AppModel {
                datasets_view: model::datasets_pressed(
                    old(self)@.datasets,
                    old(self)@.datasets_view,
                    code,
                ),
                ..old(self)@
            }),
    {
        match &mut self.datasets_view {
            DatasetsView::Detail { .. } => {
                if code == KeyCode::Esc || code == KeyCode::Backspace {
                    self.leave_datasets();
                }
            },
            DatasetsView::Tree { expanded, selected } => {
                let n: usize = linked_rows(&self.datasets_snapshot, expanded).len();
                if let Some(to) = moved(code, *selected, n) {
                    *selected = to;
                    return;
                }
                match code {
                    KeyCode::Right | KeyCode::Char('l') => self.expand_selected_dataset(),
                    KeyCode::Left | KeyCode::Char('h') => self.collapse_or_jump_to_parent(),
                    KeyCode::Enter => self.drill_into_selected_dataset(),
                    _ => {},
                }
            },
        }
    }

    /// Moves the selection of the tree on the screen, if there is one, by `delta` rows, but no
    /// farther than to the first or the last row.
    pub fn scroll(&mut self, delta: i32)
        ensures
            final(self).same_sources(*old(self)),
            final(self)@ == model::scrolled(old(self)@, delta as int),
    {
        if self.current_tab == Tab::Pools {
            if let PoolsView::Tree { expanded, selected } = &mut self.pools_view {
                let n: usize = row_keys(&self.pools_snapshot, expanded).len();
                *selected = slid(*selected, delta, n);
            }
        } else if self.current_tab == Tab::Datasets {
            if let DatasetsView::Tree { expanded, selected } = &mut self.datasets_view {
                let n: usize = linked_rows(&self.datasets_snapshot, expanded).len();
                *selected = slid(*selected, delta, n);
            }
        }
    }

    /// Handles the mouse: its wheel moves the selection of the tree on the screen, and nothing
    /// else does anything.
    pub fn on_mouse(&mut self, mouse: MouseEvent)
        ensures
            final(self).same_sources(*old(self)),
            final(self)@ == model::moused(old(self)@, mouse.kind),
    {
        match mouse.kind {
            MouseEventKind::ScrollDown => self.scroll(1),
            MouseEventKind::ScrollUp => self.scroll(-1),
            MouseEventKind::Other => {},
        }
    }
}

impl<R: ArcReader, M: MemSource, P: PoolsSource, D: DatasetsSource> App<R, M, P, D> {
    /// Handles a key: first what is bound on every tab, then what is bound on the tab shown.
    /// The key that refreshes calls `refresh` once and lets its failure pass.
    pub fn on_key(&mut self, key: KeyEvent)
        ensures
            key.code != KeyCode::Char('r') ==> final(self).same_sources(*old(self)) && final(self)@
                == model::pressed(old(self)@, key),
            key.code == KeyCode::Char('r') ==> exists|x: &mut Self, r: Result<(), ArcStatsError>|
                *x == *old(self) && *final(x) == *final(self) && #[trigger] call_ensures(
                    Self::refresh,
                    (x,),
                    r,
                ) && old(self).refreshes_to(*final(self), r),
    {
        match key.code {
            KeyCode::Char('q') => {
                self.should_quit = true;
            },
            KeyCode::Char('c') if key.modifiers.contains(KeyModifiers::control()) => {
                self.should_quit = true;
            },
            KeyCode::Char('r') => {
                let _ = self.refresh();
            },
            KeyCode::Char('1') => self.switch_tab(Tab::Overview),
            KeyCode::Char('2') => self.switch_tab(Tab::Pools),
            KeyCode::Char('3') => self.switch_tab(Tab::Datasets),
            KeyCode::Char('4') => self.switch_tab(Tab::Arc),
            KeyCode::Tab => self.cycle_tab(1),
            KeyCode::BackTab => self.cycle_tab(-1),
            code => {
                if self.current_tab == Tab::Pools {
                    self.on_key_pools(code);
                } else if self.current_tab == Tab::Datasets {
                    self.on_key_datasets(code);
                }
            },
        }
    }

    /// Handles whatever came first, and tells whether to quit now.
    pub fn handle(&mut self, event: Event) -> (quit: bool)
        ensures
            quit == final(self)@.should_quit,
            match event {
                Event::Key(key) if key.code != KeyCode::Char('r') => final(self).same_sources(
                    *old(self),
                ) && final(self)@ == model::pressed(old(self)@, key),
                Event::Mouse(mouse) => final(self).same_sources(*old(self)) && final(self)@
                    == model::moused(old(self)@, mouse.kind),
                Event::Other => *final(self) == *old(self),
                _ => exists|x: &mut Self, r: Result<(), ArcStatsError>|
                    *x == *old(self) && *final(x) == *final(self) && #[trigger] call_ensures(
                        Self::refresh,
                        (x,),
                        r,
                    ) && old(self).refreshes_to(*final(self), r),
            },
    {
        match event {
            Event::Key(key) => self.on_key(key),
            Event::Mouse(mouse) => self.on_mouse(mouse),
            Event::Other => {},
            Event::Timeout => {
                let _ = self.refresh();
            },
        }
        self.should_quit
    }
}

} // verus!
