//! Figures that the screen shows.
use vstd::prelude::*;

use crate::app::state::App;
use crate::app::view;
use crate::app::view::{DatasetsView, PoolsView};
use crate::arcstats::ArcStats;
use crate::datasets;
use crate::datasets::DatasetNode;
use crate::meminfo::RamSegment;
use crate::pools::rows;
use crate::pools::rows::VisibleRow;
use crate::pools::types::{PoolHealth, PoolInfo};

verus! {

/// `part` of `whole`; `whole` is never 0.
#[derive(Copy, Clone, Debug, PartialEq, Eq, Structural)]
pub struct Ratio {
    pub part: u64,
    pub whole: u64,
}

impl Ratio {
    /// `part` of `whole`, or nothing of 1 where `whole` is 0.
    pub open spec fn of(part: int, whole: int) -> Ratio {
        if whole == 0 {
            Ratio { part: 0, whole: 1 }
        } else {
            Ratio { part: part as u64, whole: whole as u64 }
        }
    }

    /// `part` of `whole`, or nothing of 1 where `whole` is 0.
    pub fn new(part: u64, whole: u64) -> (r: Ratio)
        ensures
            r == Ratio::of(part as int, whole as int),
            r.whole > 0,
    {
        if whole == 0 {
            Ratio { part: 0, whole: 1 }
        } else {
            Ratio { part, whole }
        }
    }
}

/// The share of hits among hits and misses.
pub fn ratio(hits: u64, misses: u64) -> (r: Ratio)
    requires
        hits + misses <= u64::MAX,
    ensures
        r == Ratio::of(hits as int, hits + misses),
        r.part <= r.whole,
        r.whole > 0,
{
    Ratio::new(hits, hits + misses)
}

/// One line of the breakdown of the ARC: how many bytes, and their share of the ARC's size.
#[derive(Copy, Clone, Debug)]
pub struct BreakdownRow {
    pub label: &'static str,
    pub bytes: u64,
    pub share: Ratio,
}

/// One line of the breakdown.
pub open spec fn breakdown_row(label: &'static str, bytes: u64, total: u64) -> BreakdownRow {
    BreakdownRow { label, bytes, share: Ratio::of(bytes as int, total as int) }
}

/// The lines of the breakdown of the ARC.
pub open spec fn breakdown(s: ArcStats) -> Seq<BreakdownRow> {
    seq![
        breakdown_row("MFU data", s.mfu_data, s.size),
        breakdown_row("MFU meta", s.mfu_metadata, s.size),
        breakdown_row("MRU data", s.mru_data, s.size),
        breakdown_row("MRU meta", s.mru_metadata, s.size),
        breakdown_row("Anon", s.anon_size, s.size),
        breakdown_row("Headers", s.hdr_size, s.size),
        breakdown_row("Dbuf", s.dbuf_size, s.size),
        breakdown_row("Dnode", s.dnode_size, s.size),
        breakdown_row("Bonus", s.bonus_size, s.size),
    ]
}

/// Appends one line of the breakdown.
fn push_row(out: &mut Vec<BreakdownRow>, label: &'static str, bytes: u64, total: u64)
    ensures
        final(out)@ == old(out)@.push(breakdown_row(label, bytes, total)),
{
    out.push(BreakdownRow { label, bytes, share: Ratio::new(bytes, total) });
}

/// How much a counter has grown, or 0 where it has not.
pub open spec fn grown(before: u64, now: u64) -> u64 {
    if now >= before {
        (now - before) as u64
    } else {
        0
    }
}

/// How many pools are not online.
pub open spec fn count_degraded(pools: Seq<PoolInfo>) -> nat
    decreases pools.len(),
{
    if pools.len() == 0 {
        0
    } else {
        count_degraded(pools.drop_last()) + if pools.last().health == PoolHealth::Online {
            0nat
        } else {
            1nat
        }
    }
}

/// The size of all pools together.
pub open spec fn capacity_of(pools: Seq<PoolInfo>) -> nat
    decreases pools.len(),
{
    if pools.len() == 0 {
        0
    } else {
        capacity_of(pools.drop_last()) + pools.last().size_bytes as nat
    }
}

/// What is allocated on all pools together.
pub open spec fn allocated_of(pools: Seq<PoolInfo>) -> nat
    decreases pools.len(),
{
    if pools.len() == 0 {
        0
    } else {
        allocated_of(pools.drop_last()) + pools.last().allocated_bytes as nat
    }
}

/// The first `n` pools come to no more than all, and one pool more adds what it has.
proof fn lemma_sums_step(pools: Seq<PoolInfo>, n: int)
    requires
        0 <= n < pools.len(),
    ensures
        count_degraded(pools.take(n + 1)) == count_degraded(pools.take(n)) + if pools[n].health
            == PoolHealth::Online {
            0nat
        } else {
            1nat
        },
        capacity_of(pools.take(n + 1)) == capacity_of(pools.take(n)) + pools[n].size_bytes,
        capacity_of(pools.take(n + 1)) <= capacity_of(pools),
        allocated_of(pools.take(n + 1)) == allocated_of(pools.take(n)) + pools[n].allocated_bytes,
        allocated_of(pools.take(n + 1)) <= allocated_of(pools),
    decreases pools.len() - n,
{
    assert(pools.take(n + 1).drop_last() =~= pools.take(n));
    if n + 1 == pools.len() {
        assert(pools.take(n + 1) =~= pools);
    } else {
        lemma_sums_step(pools, n + 1);
    }
}

impl<R, M, P, D> App<R, M, P, D> {
    /// How many pools are not online.
    pub fn pools_degraded_count(&self) -> (r: usize)
        ensures
            r == count_degraded(self@.pools),
    {
        let pools: &Vec<PoolInfo> = &self.pools_snapshot;
        let mut count: usize = 0;
        let mut i: usize = 0;
        assert(pools@.take(0) =~= Seq::empty());
        while i < pools.len()
            invariant
                i <= pools.len(),
                count <= i,
                count == count_degraded(pools@.take(i as int)),
            decreases pools.len() - i,
        {
            proof {
                lemma_sums_step(pools@, i as int);
            }
            if pools[i].health != PoolHealth::Online {
                count = count + 1;
            }
            i = i + 1;
        }
        assert(pools@.take(i as int) =~= pools@);
        count
    }

    /// The size of all pools together.
    pub fn pools_total_capacity(&self) -> (r: u64)
        requires
            capacity_of(self@.pools) <= u64::MAX,
        ensures
            r == capacity_of(self@.pools),
    {
        let pools: &Vec<PoolInfo> = &self.pools_snapshot;
        let mut total: u64 = 0;
        let mut i: usize = 0;
        assert(pools@.take(0) =~= Seq::empty());
        while i < pools.len()
            invariant
                i <= pools.len(),
                capacity_of(pools@) <= u64::MAX,
                total == capacity_of(pools@.take(i as int)),
            decreases pools.len() - i,
        {
            proof {
                lemma_sums_step(pools@, i as int);
            }
            total = total + pools[i].size_bytes;
            i = i + 1;
        }
        assert(pools@.take(i as int) =~= pools@);
        total
    }

    /// What is allocated on all pools together.
    pub fn pools_total_allocated(&self) -> (r: u64)
        requires
            allocated_of(self@.pools) <= u64::MAX,
        ensures
            r == allocated_of(self@.pools),
    {
        let pools: &Vec<PoolInfo> = &self.pools_snapshot;
        let mut total: u64 = 0;
        let mut i: usize = 0;
        assert(pools@.take(0) =~= Seq::empty());
        while i < pools.len()
            invariant
                i <= pools.len(),
                allocated_of(pools@) <= u64::MAX,
                total == allocated_of(pools@.take(i as int)),
            decreases pools.len() - i,
        {
            proof {
                lemma_sums_step(pools@, i as int);
            }
            total = total + pools[i].allocated_bytes;
            i = i + 1;
        }
        assert(pools@.take(i as int) =~= pools@);
        total
    }

    /// The share of hits among all reads.
    pub fn hit_ratio_overall(&self) -> (r: Ratio)
        requires
            self@.current.hits + self@.current.misses <= u64::MAX,
        ensures
            r == Ratio::of(
                self@.current.hits as int,
                self@.current.hits + self@.current.misses,
            ),
            r.part <= r.whole,
    {
        ratio(self.current.hits, self.current.misses)
    }

    /// The share of hits among the reads that something waited for.
    pub fn hit_ratio_demand(&self) -> (r: Ratio)
        requires
            self@.current.demand_data_hits + self@.current.demand_metadata_hits
                + self@.current.demand_data_misses + self@.current.demand_metadata_misses
                <= u64::MAX,
        ensures
            ({
                let hits = self@.current.demand_data_hits + self@.current.demand_metadata_hits;
                let misses = self@.current.demand_data_misses + self@.current.demand_metadata_misses;
                r == Ratio::of(hits, hits + misses)
            }),
            r.part <= r.whole,
    {
        let hits: u64 = self.current.demand_data_hits + self.current.demand_metadata_hits;
        let misses: u64 = self.current.demand_data_misses + self.current.demand_metadata_misses;
        ratio(hits, misses)
    }

    /// The share of hits among the reads ahead of need.
    pub fn hit_ratio_prefetch(&self) -> (r: Ratio)
        requires
            self@.current.prefetch_data_hits + self@.current.prefetch_metadata_hits
                + self@.current.prefetch_data_misses + self@.current.prefetch_metadata_misses
                <= u64::MAX,
        ensures
            ({
                let hits = self@.current.prefetch_data_hits + self@.current.prefetch_metadata_hits;
                let misses = self@.current.prefetch_data_misses
                    + self@.current.prefetch_metadata_misses;
                r == Ratio::of(hits, hits + misses)
            }),
            r.part <= r.whole,
    {
        let hits: u64 = self.current.prefetch_data_hits + self.current.prefetch_metadata_hits;
        let misses: u64 = self.current.prefetch_data_misses + self.current.prefetch_metadata_misses;
        ratio(hits, misses)
    }

    /// Hits since the reading before, `None` at the first reading.
    pub fn throughput_hits(&self) -> (r: Option<u64>)
        ensures
            r == (match self@.previous {
                Some(p) => Some(grown(p.hits, self@.current.hits)),
                None => None,
            }),
    {
        match &self.previous {
            Some(prev) => Some(self.current.hits.saturating_sub(prev.hits)),
            None => None,
        }
    }

    /// Misses since the reading before, `None` at the first reading.
    pub fn throughput_misses(&self) -> (r: Option<u64>)
        ensures
            r == (match self@.previous {
                Some(p) => Some(grown(p.misses, self@.current.misses)),
                None => None,
            }),
    {
        match &self.previous {
            Some(prev) => Some(self.current.misses.saturating_sub(prev.misses)),
            None => None,
        }
    }

    /// I/O hits since the reading before, `None` at the first reading.
    pub fn throughput_iohits(&self) -> (r: Option<u64>)
        ensures
            r == (match self@.previous {
                Some(p) => Some(grown(p.iohits, self@.current.iohits)),
                None => None,
            }),
    {
        match &self.previous {
            Some(prev) => Some(self.current.iohits.saturating_sub(prev.iohits)),
            None => None,
        }
    }

    /// What the ARC holds, line by line.
    pub fn arc_breakdown(&self) -> (r: Vec<BreakdownRow>)
        ensures
            r@ == breakdown(self@.current),
    {
        let s: &ArcStats = &self.current;
        let total: u64 = s.size;
        let mut out: Vec<BreakdownRow> = Vec::new();
        push_row(&mut out, "MFU data", s.mfu_data, total);
        push_row(&mut out, "MFU meta", s.mfu_metadata, total);
        push_row(&mut out, "MRU data", s.mru_data, total);
        push_row(&mut out, "MRU meta", s.mru_metadata, total);
        push_row(&mut out, "Anon", s.anon_size, total);
        push_row(&mut out, "Headers", s.hdr_size, total);
        push_row(&mut out, "Dbuf", s.dbuf_size, total);
        push_row(&mut out, "Dnode", s.dnode_size, total);
        push_row(&mut out, "Bonus", s.bonus_size, total);
        assert(out@ =~= breakdown(*s));
        out
    }

    /// The ARC's size against its ceiling.
    pub fn arc_usage_pct(&self) -> (r: Ratio)
        ensures
            r == Ratio::of(self@.current.size as int, self@.current.c_max as int),
    {
        Ratio::new(self.current.size, self.current.c_max)
    }

    /// Uncompressed against compressed bytes, `None` where nothing is compressed.
    pub fn arc_compression_ratio(&self) -> (r: Option<Ratio>)
        ensures
            r == (if self@.current.compressed_size > 0 {
                Some(
                    Ratio::of(
                        self@.current.uncompressed_size as int,
                        self@.current.compressed_size as int,
                    ),
                )
            } else {
                None
            }),
    {
        if self.current.compressed_size > 0 {
            Some(Ratio::new(self.current.uncompressed_size, self.current.compressed_size))
        } else {
            None
        }
    }

    /// The memory bar: its length and its segments.
    pub fn ram_segments(&self) -> (r: Option<(u64, &[RamSegment])>)
        ensures
            match (r, self@.mem) {
                (Some((total, segments)), Some(m)) => total == m.total_bytes && segments@
                    == m.segments@,
                (None, None) => true,
                _ => false,
            },
    {
        match &self.mem_snapshot {
            Some(s) => Some((s.total_bytes, s.segments.as_slice())),
            None => None,
        }
    }

    /// The visible rows of the pools tree, in order; none while a pool's details are shown.
    pub fn flatten_visible_pool_rows(&self) -> (r: Vec<VisibleRow<'_>>)
        requires
            self@.pools_view matches view::PoolsModel::Tree { expanded, .. } ==> rows::depths_fit(
                rows::pool_rows(self@.pools, expanded),
            ),
        ensures
            match self@.pools_view {
                view::PoolsModel::Tree { expanded, .. } => rows::shows_all(
                    r@,
                    rows::pool_rows(self@.pools, expanded),
                    self@.pools,
                ),
                view::PoolsModel::Detail { .. } => r@.len() == 0,
            },
    {
        match &self.pools_view {
            PoolsView::Tree { expanded, .. } => rows::flatten_rows(&self.pools_snapshot, expanded),
            PoolsView::Detail { .. } => Vec::new(),
        }
    }

    /// The visible rows of the datasets tree with their depths, in order; none while a dataset's
    /// details are shown.
    pub fn flatten_visible_dataset_rows(&self) -> (r: Vec<(usize, &DatasetNode)>)
        requires
            self@.datasets_view matches view::DatasetsModel::Tree { expanded, .. }
                ==> datasets::depths_fit(datasets::dataset_rows(self@.datasets, expanded)),
        ensures
            match self@.datasets_view {
                view::DatasetsModel::Tree { expanded, .. } => datasets::lists(
                    r@,
                    datasets::dataset_rows(self@.datasets, expanded),
                ),
                view::DatasetsModel::Detail { .. } => r@.len() == 0,
            },
    {
        match &self.datasets_view {
            DatasetsView::Tree { expanded, .. } => datasets::flatten_rows(
                &self.datasets_snapshot,
                expanded,
            ),
            DatasetsView::Detail { .. } => Vec::new(),
        }
    }
}

} // verus!
