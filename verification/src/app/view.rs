//! What the Pools and the Datasets tab show: a tree with a selected row, or one item in detail.
use vstd::prelude::*;

use crate::names::NameSet;

verus! {

/// State of the Pools tab.
#[derive(Debug, PartialEq, Eq)]
pub enum PoolsView {
    /// The tree: the pools whose vdevs are shown, and the selected one of the visible rows.
    Tree { expanded: NameSet, selected: usize },
    /// One pool, by its index; the expanded pools are kept for the way back to the tree.
    Detail { pool_index: usize, expanded: NameSet },
}

/// State of the Datasets tab.
#[derive(Debug, PartialEq, Eq)]
pub enum DatasetsView {
    /// The tree: the datasets whose children are shown, and the selected one of the visible
    /// rows.
    Tree { expanded: NameSet, selected: usize },
    /// One dataset, by its full name, so that datasets that come or go beside it do not matter;
    /// the expanded datasets are kept for the way back to the tree.
    Detail { name: String, expanded: NameSet },
}

/// What a `PoolsView` holds.
pub ghost enum PoolsModel {
    Tree { expanded: Set<Seq<char>>, selected: int },
    Detail { pool_index: int, expanded: Set<Seq<char>> },
}

/// What a `DatasetsView` holds.
pub ghost enum DatasetsModel {
    Tree { expanded: Set<Seq<char>>, selected: int },
    Detail { name: Seq<char>, expanded: Set<Seq<char>> },
}

impl View for PoolsView {
    type V = PoolsModel;

    open spec fn view(&self) -> PoolsModel {
        match self {
            PoolsView::Tree { expanded, selected } => PoolsModel::Tree {
                expanded: expanded@,
                selected: *selected as int,
            },
            PoolsView::Detail { pool_index, expanded } => PoolsModel::Detail {
                pool_index: *pool_index as int,
                expanded: expanded@,
            },
        }
    }
}

impl View for DatasetsView {
    type V = DatasetsModel;

    open spec fn view(&self) -> DatasetsModel {
        match self {
            DatasetsView::Tree { expanded, selected } => DatasetsModel::Tree {
                expanded: expanded@,
                selected: *selected as int,
            },
            DatasetsView::Detail { name, expanded } => DatasetsModel::Detail {
                name: name@,
                expanded: expanded@,
            },
        }
    }
}

impl Clone for PoolsView {
    fn clone(&self) -> (r: PoolsView)
        ensures
            r@ == self@,
    {
        match self {
            PoolsView::Tree { expanded, selected } => PoolsView::Tree {
                expanded: expanded.clone(),
                selected: *selected,
            },
            PoolsView::Detail { pool_index, expanded } => PoolsView::Detail {
                pool_index: *pool_index,
                expanded: expanded.clone(),
            },
        }
    }
}

impl Clone for DatasetsView {
    fn clone(&self) -> (r: DatasetsView)
        ensures
            r@ == self@,
    {
        match self {
            DatasetsView::Tree { expanded, selected } => DatasetsView::Tree {
                expanded: expanded.clone(),
                selected: *selected,
            },
            DatasetsView::Detail { name, expanded } => DatasetsView::Detail {
                name: name.clone(),
                expanded: expanded.clone(),
            },
        }
    }
}

} // verus!
