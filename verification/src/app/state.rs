//! The dashboard and the sources that feed it.
use vstd::prelude::*;
use vstd::hash_set::StringHashSet;

use crate::app::model;
use crate::app::tab::Tab;
use crate::app::view::{DatasetsView, PoolsView};
use crate::arcstats::ArcStats;
use crate::datasets::{collect_names, contains_name, linked_rows, DatasetNode};
use crate::meminfo::MemSnapshot;
use crate::pools::rows::row_keys;
use crate::pools::types::PoolInfo;
use crate::text;

verus! {

/// State of the dashboard. A source that could not be opened is `None`; its error is kept in
/// `pools_init_error` or `datasets_init_error`.
pub struct App<R, M, P, D> {
    pub current: ArcStats,
    pub previous: Option<ArcStats>,
    pub arc_reader: R,
    pub mem_source: Option<M>,
    pub mem_snapshot: Option<MemSnapshot>,
    pub should_quit: bool,
    pub current_tab: Tab,
    pub pools_source: Option<P>,
    /// The pools of the last refresh that succeeded.
    pub pools_snapshot: Vec<PoolInfo>,
    /// The error of the last refresh, `None` if it succeeded.
    pub pools_refresh_error: Option<String>,
    pub pools_init_error: Option<String>,
    pub pools_view: PoolsView,
    /// No refresh has brought a pool yet.
    pub pools_first_paint: bool,
    pub datasets_source: Option<D>,
    /// The datasets of the last refresh that succeeded.
    pub datasets_snapshot: Vec<DatasetNode>,
    /// The error of the last refresh, `None` if it succeeded.
    pub datasets_refresh_error: Option<String>,
    pub datasets_init_error: Option<String>,
    pub datasets_view: DatasetsView,
}

impl<R, M, P, D> View for App<R, M, P, D> {
    type V = model::AppModel;

    open spec fn view(&self) -> model::AppModel {
        model::AppModel {
            current: self.current,
            previous: self.previous,
            mem: self.mem_snapshot,
            should_quit: self.should_quit,
            tab: self.current_tab,
            pools: self.pools_snapshot@,
            pools_error: text::opt_text(self.pools_refresh_error),
            pools_init_error: text::opt_text(self.pools_init_error),
            pools_view: self.pools_view@,
            first_paint: self.pools_first_paint,
            datasets: self.datasets_snapshot@,
            datasets_error: text::opt_text(self.datasets_refresh_error),
            datasets_init_error: text::opt_text(self.datasets_init_error),
            datasets_view: self.datasets_view@,
        }
    }
}

/// What a source answered.
pub open spec fn answer<T>(outcome: Result<Vec<T>, String>) -> Result<Seq<T>, Seq<char>> {
    match outcome {
        Ok(v) => Ok(v@),
        Err(e) => Err(e@),
    }
}

/// The set of all names of `pools`.
fn names_of(pools: &Vec<PoolInfo>) -> (r: StringHashSet)
    ensures
        r@ == model::pool_names(pools@),
{
    let mut names = StringHashSet::new();
    let ghost all = Seq::new(pools@.len(), |i: int| pools@[i].name@);
    let mut i: usize = 0;
    assert(all.take(0).to_set() =~= Set::<Seq<char>>::empty());
    while i < pools.len()
        invariant
            i <= pools.len(),
            all == Seq::new(pools@.len(), |i: int| pools@[i].name@),
            names@ == all.take(i as int).to_set(),
        decreases pools.len() - i,
    {
        names.insert(pools[i].name.clone());
        proof {
            lemma_set_step(all, i as int);
        }
        i = i + 1;
    }
    assert(all.take(i as int) =~= all);
    names
}

/// The members of the first `n + 1` items are those of the first `n` and the next.
proof fn lemma_set_step(s: Seq<Seq<char>>, n: int)
    requires
        0 <= n < s.len(),
    ensures
        s.take(n + 1).to_set() == s.take(n).to_set().insert(s[n]),
{
    let a = s.take(n + 1);
    let b = s.take(n);
    assert forall|x: Seq<char>| a.to_set().contains(x) == b.to_set().insert(s[n]).contains(x) by {
        if a.contains(x) {
            let i = choose|i: int| 0 <= i < a.len() && a[i] == x;
            if i < n {
                assert(b[i] == x);
            }
        }
        if b.contains(x) {
            let i = choose|i: int| 0 <= i < b.len() && b[i] == x;
            assert(a[i] == x);
        }
        assert(a[n] == s[n]);
    }
    assert(a.to_set() =~= b.to_set().insert(s[n]));
}

/// `selected`, or the last of `n` rows where there is no such row.
fn clamped(selected: usize, n: usize) -> (r: usize)
    ensures
        r == model::clamp(selected as int, n as int),
{
    if n == 0 {
        0
    } else if selected >= n {
        n - 1
    } else {
        selected
    }
}

impl<R, M, P, D> App<R, M, P, D> {
    /// The sources are the same.
    pub open spec fn same_sources(self, other: Self) -> bool {
        &&& self.arc_reader == other.arc_reader
        &&& self.mem_source == other.mem_source
        &&& self.pools_source == other.pools_source
        &&& self.datasets_source == other.datasets_source
    }

    /// Takes over a reading of the ARC and of memory.
    pub fn apply_reading(&mut self, next: ArcStats, mem: Option<MemSnapshot>)
        ensures
            final(self).same_sources(*old(self)),
            final(self)@ == model::reading_taken(old(self)@, next, mem),
    {
        self.previous = Some(self.current);
        self.current = next;
        self.mem_snapshot = mem;
    }

    /// Drops names of pools that are gone from the expanded set.
    fn prune_expanded_pools(&mut self)
        ensures
            final(self).same_sources(*old(self)),
            final(self)@ == (model::AppModel {
                pools_view: model::pools_pruned(old(self)@.pools_view, old(self)@.pools),
                ..old(self)@
            }),
    {
        let names = names_of(&self.pools_snapshot);
        match &mut self.pools_view {
            PoolsView::Tree { expanded, .. } => expanded.retain_in(&names),
            PoolsView::Detail { expanded, .. } => expanded.retain_in(&names),
        }
    }

    /// Puts the selection back on a visible row, and the tree in place of the details of a pool
    /// that is gone.
    pub(crate) fn clamp_pools_selection(&mut self)
        ensures
            final(self).same_sources(*old(self)),
            final(self)@ == (model::AppModel {
                pools_view: model::pools_clamped(old(self)@.pools_view, old(self)@.pools),
                ..old(self)@
            }),
    {
        match &mut self.pools_view {
            PoolsView::Tree { expanded, selected } => {
                let n: usize = row_keys(&self.pools_snapshot, expanded).len();
                *selected = clamped(*selected, n);
            },
            PoolsView::Detail { pool_index, expanded } => {
                if *pool_index >= self.pools_snapshot.len() {
                    let restored = expanded.clone();
                    self.pools_view = PoolsView::Tree { expanded: restored, selected: 0 };
                }
            },
        }
    }

    /// Adds all pools to the expanded set, if the tree is shown.
    fn expand_all_pools(&mut self)
        ensures
            final(self).same_sources(*old(self)),
            final(self)@ == (model::AppModel {
                pools_view: model::pools_opened(old(self)@.pools_view, old(self)@.pools),
                ..old(self)@
            }),
    {
        if let PoolsView::Tree { expanded, .. } = &mut self.pools_view {
            let ghost start = expanded@;
            let ghost all = Seq::new(
                self.pools_snapshot@.len(),
                |i: int| self.pools_snapshot@[i].name@,
            );
            let pools: &Vec<PoolInfo> = &self.pools_snapshot;
            let mut i: usize = 0;
            assert(all.take(0).to_set() =~= Set::<Seq<char>>::empty());
            assert(start =~= start.union(Set::<Seq<char>>::empty()));
            while i < pools.len()
                invariant
                    i <= pools.len(),
                    all == Seq::new(pools@.len(), |i: int| pools@[i].name@),
                    expanded@ == start.union(all.take(i as int).to_set()),
                decreases pools.len() - i,
            {
                expanded.insert(pools[i].name.clone());
                proof {
                    lemma_set_step(all, i as int);
                    assert(expanded@ =~= start.union(all.take(i + 1).to_set()));
                }
                i = i + 1;
            }
            assert(all.take(i as int) =~= all);
        }
    }

    /// Takes over what the source of pools answered.
    pub fn apply_pools(&mut self, outcome: Result<Vec<PoolInfo>, String>)
        ensures
            final(self).same_sources(*old(self)),
            final(self)@ == model::pools_ticked(old(self)@, answer(outcome)),
    {
        match outcome {
            Ok(pools) => {
                self.pools_snapshot = pools;
                self.pools_refresh_error = None;
                if self.pools_first_paint && self.pools_snapshot.len() > 0 {
                    self.expand_all_pools();
                    self.pools_first_paint = false;
                }
                let ghost names = model::pool_names(self.pools_snapshot@);
                assert(forall|e: Set<Seq<char>>| #[trigger]
                    e.union(names).intersect(names) =~= names);
                self.prune_expanded_pools();
                self.clamp_pools_selection();
            },
            Err(e) => {
                self.pools_refresh_error = Some(e);
            },
        }
    }

    /// Drops names of datasets that are gone from the tree's expanded set.
    fn prune_expanded_set(&mut self)
        ensures
            final(self).same_sources(*old(self)),
            final(self)@ == (model::AppModel {
                datasets_view: model::datasets_pruned(
                    old(self)@.datasets_view,
                    old(self)@.datasets,
                ),
                ..old(self)@
            }),
    {
        if let DatasetsView::Tree { expanded, .. } = &mut self.datasets_view {
            let mut names = StringHashSet::new();
            collect_names(&self.datasets_snapshot, &mut names);
            assert(names@ =~= crate::datasets::forest_names(self.datasets_snapshot@));
            expanded.retain_in(&names);
        }
    }

    /// Puts the selection back on a visible row.
    pub(crate) fn clamp_datasets_selection(&mut self)
        ensures
            final(self).same_sources(*old(self)),
            final(self)@ == (model::AppModel {
                datasets_view: model::datasets_clamped(
                    old(self)@.datasets_view,
                    old(self)@.datasets,
                ),
                ..old(self)@
            }),
    {
        if let DatasetsView::Tree { expanded, selected } = &mut self.datasets_view {
            let n: usize = linked_rows(&self.datasets_snapshot, expanded).len();
            *selected = clamped(*selected, n);
        }
    }

    /// Puts the tree in place of the details of a dataset that is gone.
    fn fall_back_from_detail_if_dataset_vanished(&mut self)
        ensures
            final(self).same_sources(*old(self)),
            final(self)@ == (model::AppModel {
                datasets_view: model::datasets_fallen_back(
                    old(self)@.datasets_view,
                    old(self)@.datasets,
                ),
                ..old(self)@
            }),
    {
        if let DatasetsView::Detail { name, expanded } = &self.datasets_view {
            if !contains_name(&self.datasets_snapshot, name) {
                let restored = expanded.clone();
                self.datasets_view = DatasetsView::Tree { expanded: restored, selected: 0 };
            }
        }
    }

    /// Takes over what the source of datasets answered.
    pub fn apply_datasets(&mut self, outcome: Result<Vec<DatasetNode>, String>)
        ensures
            final(self).same_sources(*old(self)),
            final(self)@ == model::datasets_ticked(old(self)@, answer(outcome)),
    {
        match outcome {
            Ok(roots) => {
                self.datasets_snapshot = roots;
                self.datasets_refresh_error = None;
                self.prune_expanded_set();
                self.clamp_datasets_selection();
                self.fall_back_from_detail_if_dataset_vanished();
            },
            Err(e) => {
                self.datasets_refresh_error = Some(e);
            },
        }
    }

    /// Adds the roots of all datasets to the expanded set, if the tree is shown.
    pub fn expand_roots(&mut self)
        ensures
            final(self).same_sources(*old(self)),
            final(self)@ == model::roots_expanded(old(self)@),
    {
        if let DatasetsView::Tree { expanded, .. } = &mut self.datasets_view {
            let ghost start = expanded@;
            let roots: &Vec<DatasetNode> = &self.datasets_snapshot;
            let ghost all = Seq::new(roots@.len(), |i: int| roots@[i].name@);
            let mut i: usize = 0;
            assert(all.take(0).to_set() =~= Set::<Seq<char>>::empty());
            assert(start =~= start.union(Set::<Seq<char>>::empty()));
            while i < roots.len()
                invariant
                    i <= roots.len(),
                    all == Seq::new(roots@.len(), |i: int| roots@[i].name@),
                    expanded@ == start.union(all.take(i as int).to_set()),
                decreases roots.len() - i,
            {
                expanded.insert(roots[i].name.clone());
                proof {
                    lemma_set_step(all, i as int);
                    assert(expanded@ =~= start.union(all.take(i + 1).to_set()));
                }
                i = i + 1;
            }
            assert(all.take(i as int) =~= all);
        }
    }
}

} // verus!
