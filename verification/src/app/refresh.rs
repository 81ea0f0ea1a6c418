//! Asking the sources.
use vstd::prelude::*;

use crate::app::model;
use crate::app::segments;
use crate::app::segments::arc_segments;
use crate::app::state;
use crate::app::state::App;
use crate::app::tab::Tab;
use crate::app::view::{DatasetsView, PoolsView};
use crate::arcstats::{ArcReader, ArcStats, ArcStatsError};
use crate::datasets::{DatasetNode, DatasetsSource};
use crate::meminfo::{MemSnapshot, MemSource, RamSegment};
use crate::names::NameSet;
use crate::pools::types::{PoolInfo, PoolsSource};
use crate::text;

verus! {

/// `outcome` is what the source of pools answered when it was asked, `None` where there is no
/// source.
pub open spec fn pools_answered<P: PoolsSource>(
    before: Option<P>,
    after: Option<P>,
    outcome: Option<Result<Seq<PoolInfo>, Seq<char>>>,
) -> bool {
    match (before, after, outcome) {
        (None, None, None) => true,
        (Some(p), Some(q), Some(Ok(pools))) => {
            &&& exists|x: &mut P, r: Result<(), String>|
                *x == p && r is Ok && #[trigger] call_ensures(P::refresh, (x,), r)
            &&& exists|v: Vec<PoolInfo>| #[trigger] call_ensures(P::pools, (&q,), v) && v@ == pools
        },
        (Some(p), Some(_), Some(Err(text))) => exists|x: &mut P, e: String|
            *x == p && #[trigger] call_ensures(P::refresh, (x,), Err(e)) && e@ == text,
        _ => false,
    }
}

/// `outcome` is what the source of datasets answered when it was asked, `None` where there is
/// no source.
pub open spec fn datasets_answered<D: DatasetsSource>(
    before: Option<D>,
    after: Option<D>,
    outcome: Option<Result<Seq<DatasetNode>, Seq<char>>>,
) -> bool {
    match (before, after, outcome) {
        (None, None, None) => true,
        (Some(p), Some(q), Some(Ok(roots))) => {
            &&& exists|x: &mut D, r: Result<(), String>|
                *x == p && r is Ok && #[trigger] call_ensures(D::refresh, (x,), r)
            &&& exists|v: Vec<DatasetNode>| #[trigger]
                call_ensures(D::roots, (&q,), v) && v@ == roots
        },
        (Some(p), Some(_), Some(Err(text))) => exists|x: &mut D, e: String|
            *x == p && #[trigger] call_ensures(D::refresh, (x,), Err(e)) && e@ == text,
        _ => false,
    }
}

impl<R, M, P: PoolsSource, D> App<R, M, P, D> {
    /// Asks the source of pools, if there is one, and takes over its answer.
    pub fn refresh_pools(&mut self)
        ensures
            final(self).arc_reader == old(self).arc_reader,
            final(self).mem_source == old(self).mem_source,
            final(self).datasets_source == old(self).datasets_source,
            exists|outcome: Option<Result<Seq<PoolInfo>, Seq<char>>>| #[trigger]
                pools_answered(old(self).pools_source, final(self).pools_source, outcome)
                    && final(self)@ == model::pools_asked(old(self)@, outcome),
            old(self).pools_source matches Some(p) ==> exists|x: &mut P, r: Result<(), String>|
                *x == p && *final(x) == final(self).pools_source->0 && #[trigger] call_ensures(
                    P::refresh,
                    (x,),
                    r,
                ),
    {
        let ghost start = *self;
        if let Some(ps) = &mut self.pools_source {
            let outcome: Result<Vec<PoolInfo>, String> = match ps.refresh() {
                Ok(()) => Ok(ps.pools()),
                Err(e) => Err(e),
            };
            let ghost taken = outcome;
            self.apply_pools(outcome);
            assert(taken matches Ok(v) ==> call_ensures(P::pools, (&self.pools_source->0,), v));
            assert(pools_answered(
                start.pools_source,
                self.pools_source,
                Some(state::answer(taken)),
            ));
        } else {
            assert(pools_answered(start.pools_source, self.pools_source, None));
        }
    }
}

impl<R, M, P, D: DatasetsSource> App<R, M, P, D> {
    /// Asks the source of datasets, if there is one, and takes over its answer.
    pub fn refresh_datasets(&mut self)
        ensures
            final(self).arc_reader == old(self).arc_reader,
            final(self).mem_source == old(self).mem_source,
            final(self).pools_source == old(self).pools_source,
            exists|outcome: Option<Result<Seq<DatasetNode>, Seq<char>>>| #[trigger]
                datasets_answered(old(self).datasets_source, final(self).datasets_source, outcome)
                    && final(self)@ == model::datasets_asked(old(self)@, outcome),
            old(self).datasets_source matches Some(d) ==> exists|x: &mut D, r: Result<(), String>|
                *x == d && *final(x) == final(self).datasets_source->0 && #[trigger] call_ensures(
                    D::refresh,
                    (x,),
                    r,
                ),
    {
        let ghost start = *self;
        if let Some(ds) = &mut self.datasets_source {
            let outcome: Result<Vec<DatasetNode>, String> = match ds.refresh() {
                Ok(()) => Ok(ds.roots()),
                Err(e) => Err(e),
            };
            let ghost taken = outcome;
            self.apply_datasets(outcome);
            assert(taken matches Ok(v) ==> call_ensures(
                D::roots,
                (&self.datasets_source->0,),
                v,
            ));
            assert(datasets_answered(
                start.datasets_source,
                self.datasets_source,
                Some(state::answer(taken)),
            ));
        } else {
            assert(datasets_answered(start.datasets_source, self.datasets_source, None));
        }
    }
}

/// `reading` is what the reader of the ARC answered when it was asked.
pub open spec fn arc_answered<R: ArcReader>(
    before: R,
    reading: Result<ArcStats, ArcStatsError>,
) -> bool {
    exists|x: &mut R| *x == before && #[trigger] call_ensures(R::read, (x,), reading)
}

/// `mem` is what the source of memory made of the ARC's segments, `None` where there is no
/// source.
pub open spec fn mem_answered<M: MemSource>(
    source: Option<M>,
    stats: ArcStats,
    mem: Option<MemSnapshot>,
) -> bool {
    match source {
        Some(m) => exists|segs: &[RamSegment]|
            segs@ == segments::segments_of(stats) && #[trigger] call_ensures(
                M::snapshot,
                (&m, segs),
                mem,
            ),
        None => mem is None,
    }
}

/// What the source of memory makes of the ARC's segments, if there is a source.
fn mem_snapshot_of<M: MemSource>(source: &Option<M>, stats: &ArcStats) -> (r: Option<MemSnapshot>)
    ensures
        mem_answered(*source, *stats, r),
{
    match source {
        Some(m) => {
            let segs = arc_segments(stats);
            m.snapshot(segs.as_slice())
        },
        None => None,
    }
}

impl<R: ArcReader, M: MemSource, P: PoolsSource, D: DatasetsSource> App<R, M, P, D> {
    /// `self` has become `after` by a refresh that ended in `r`. Where the ARC cannot be read
    /// nothing changes; where it can, all else is asked, and no other failure counts.
    pub open spec fn refreshes_to(self, after: Self, r: Result<(), ArcStatsError>) -> bool {
        match r {
            Err(e) => {
                &&& arc_answered(self.arc_reader, Err(e))
                &&& after@ == self@
                &&& after.mem_source == self.mem_source
                &&& after.pools_source == self.pools_source
                &&& after.datasets_source == self.datasets_source
            },
            Ok(_) => {
                &&& self.mem_source is Some == after.mem_source is Some
                &&& exists|
                    next: ArcStats,
                    mem: Option<MemSnapshot>,
                    pools: Option<Result<Seq<PoolInfo>, Seq<char>>>,
                    roots: Option<Result<Seq<DatasetNode>, Seq<char>>>,
                | #![trigger model::refreshed(self@, next, mem, pools, roots)]
                    {
                        &&& arc_answered(self.arc_reader, Ok(next))
                        &&& mem_answered(after.mem_source, next, mem)
                        &&& pools_answered(self.pools_source, after.pools_source, pools)
                        &&& datasets_answered(self.datasets_source, after.datasets_source, roots)
                        &&& after@ == model::refreshed(self@, next, mem, pools, roots)
                    }
            },
        }
    }

    /// Reads the ARC and asks all sources. Only a failure to read the ARC is an error.
    pub fn refresh(&mut self) -> (r: Result<(), ArcStatsError>)
        ensures
            old(self).refreshes_to(*final(self), r),
            exists|x: &mut R, reading: Result<ArcStats, ArcStatsError>|
                *x == old(self).arc_reader && *final(x) == final(self).arc_reader
                    && #[trigger] call_ensures(R::read, (x,), reading) && reading is Ok == r is Ok,
            r is Ok ==> (old(self).mem_source matches Some(m) ==> exists|
                x: &mut M,
                reply: Result<(), String>,
            |
                *x == m && *final(x) == final(self).mem_source->0 && #[trigger] call_ensures(
                    M::refresh,
                    (x,),
                    reply,
                )),
            r is Ok ==> (old(self).pools_source matches Some(p) ==> exists|
                x: &mut P,
                reply: Result<(), String>,
            |
                *x == p && *final(x) == final(self).pools_source->0 && #[trigger] call_ensures(
                    P::refresh,
                    (x,),
                    reply,
                )),
            r is Ok ==> (old(self).datasets_source matches Some(d) ==> exists|
                x: &mut D,
                reply: Result<(), String>,
            |
                *x == d && *final(x) == final(self).datasets_source->0 && #[trigger] call_ensures(
                    D::refresh,
                    (x,),
                    reply,
                )),
    {
        let ghost start = *self;
        let next: ArcStats = match self.arc_reader.read() {
            Ok(next) => next,
            Err(e) => {
                return Err(e);
            },
        };
        if let Some(mem) = &mut self.mem_source {
            let _ = mem.refresh();
        }
        let mem = mem_snapshot_of(&self.mem_source, &next);
        self.apply_reading(next, mem);
        let ghost read = *self;
        self.refresh_pools();
        let ghost pools = choose|outcome: Option<Result<Seq<PoolInfo>, Seq<char>>>| #[trigger]
            pools_answered(read.pools_source, self.pools_source, outcome) && self@
                == model::pools_asked(read@, outcome);
        let ghost asked = *self;
        self.refresh_datasets();
        let ghost roots = choose|outcome: Option<Result<Seq<DatasetNode>, Seq<char>>>| #[trigger]
            datasets_answered(asked.datasets_source, self.datasets_source, outcome) && self@
                == model::datasets_asked(asked@, outcome);
        assert(self@ == model::refreshed(start@, next, mem, pools, roots));
        Ok(())
    }

    /// Starts the dashboard: reads the ARC and asks all sources once, so that there is something
    /// to show. All pools and the roots of all datasets are expanded. Only a failure to read the
    /// ARC is an error.
    pub fn new(
        arc_reader: R,
        mem_source: Option<M>,
        pools_source: Option<P>,
        pools_init_error: Option<String>,
        datasets_source: Option<D>,
        datasets_init_error: Option<String>,
    ) -> (r: Result<Self, ArcStatsError>)
        ensures
            match r {
                Err(e) => arc_answered(arc_reader, Err(e)),
                Ok(app) => {
                    &&& app.mem_source == mem_source
                    &&& exists|x: &mut R, reading: Result<ArcStats, ArcStatsError>|
                        *x == arc_reader && *final(x) == app.arc_reader && #[trigger] call_ensures(
                            R::read,
                            (x,),
                            reading,
                        ) && reading is Ok
                    &&& pools_source matches Some(p) ==> exists|
                        x: &mut P,
                        reply: Result<(), String>,
                    |
                        *x == p && *final(x) == app.pools_source->0 && #[trigger] call_ensures(
                            P::refresh,
                            (x,),
                            reply,
                        )
                    &&& datasets_source matches Some(d) ==> exists|
                        x: &mut D,
                        reply: Result<(), String>,
                    |
                        *x == d && *final(x) == app.datasets_source->0 && #[trigger] call_ensures(
                            D::refresh,
                            (x,),
                            reply,
                        )
                    &&& exists|
                        next: ArcStats,
                        mem: Option<MemSnapshot>,
                        pools: Option<Result<Seq<PoolInfo>, Seq<char>>>,
                        roots: Option<Result<Seq<DatasetNode>, Seq<char>>>,
                    |
                        {
                            &&& arc_answered(arc_reader, Ok(next))
                            &&& #[trigger] mem_answered(mem_source, next, mem)
                            &&& #[trigger] pools_answered(pools_source, app.pools_source, pools)
                            &&& #[trigger] datasets_answered(
                                datasets_source,
                                app.datasets_source,
                                roots,
                            )
                            &&& app@ == model::started(
                                model::blank(
                                    next,
                                    mem,
                                    text::opt_text(pools_init_error),
                                    text::opt_text(datasets_init_error),
                                ),
                                pools,
                                roots,
                            )
                        }
                },
            },
    {
        let mut arc_reader = arc_reader;
        let ghost reader = arc_reader;
        let current: ArcStats = match arc_reader.read() {
            Ok(current) => current,
            Err(e) => {
                return Err(e);
            },
        };
        let mem_snapshot = mem_snapshot_of(&mem_source, &current);
        let mut app = App {
            current,
            previous: None,
            arc_reader,
            mem_source,
            mem_snapshot,
            should_quit: false,
            current_tab: Tab::Overview,
            pools_source,
            pools_snapshot: Vec::new(),
            pools_refresh_error: None,
            pools_init_error,
            pools_view: PoolsView::Tree { expanded: NameSet::new(), selected: 0 },
            pools_first_paint: true,
            datasets_source,
            datasets_snapshot: Vec::new(),
            datasets_refresh_error: None,
            datasets_init_error,
            datasets_view: DatasetsView::Tree { expanded: NameSet::new(), selected: 0 },
        };
        let ghost blank = app;
        assert(blank@ == model::blank(
            current,
            mem_snapshot,
            text::opt_text(pools_init_error),
            text::opt_text(datasets_init_error),
        ));
        app.refresh_pools();
        let ghost pools = choose|outcome: Option<Result<Seq<PoolInfo>, Seq<char>>>| #[trigger]
            pools_answered(blank.pools_source, app.pools_source, outcome) && app@
                == model::pools_asked(blank@, outcome);
        let ghost asked = app;
        app.refresh_datasets();
        let ghost roots = choose|outcome: Option<Result<Seq<DatasetNode>, Seq<char>>>| #[trigger]
            datasets_answered(asked.datasets_source, app.datasets_source, outcome) && app@
                == model::datasets_asked(asked@, outcome);
        app.expand_roots();
        assert(mem_answered(mem_source, current, mem_snapshot));
        assert(pools_answered(pools_source, app.pools_source, pools));
        assert(datasets_answered(datasets_source, app.datasets_source, roots));
        Ok(app)
    }
}

} // verus!
