//! Laws of readings, of refreshes and of the figures that the screen shows.
use vstd::prelude::*;

use crate::app::input::{Event, KeyCode, KeyEvent};
use crate::app::key_laws;
use crate::app::metrics;
use crate::app::metrics::{BreakdownRow, Ratio};
use crate::app::model;
use crate::app::refresh;
use crate::app::segments;
use crate::app::state::App;
use crate::app::tab::Tab;
use crate::app::view::{DatasetsView, PoolsView};
use crate::arcstats::{ArcReader, ArcStats, ArcStatsError};
use crate::dataset_laws;
use crate::datasets::{DatasetNode, DatasetsSource};
use crate::meminfo::{Color, MemSnapshot, MemSource, RamSegment};
use crate::pools::row_laws;
use crate::pools::rows::VisibleRow;
use crate::pools::types::{PoolInfo, PoolsSource};

verus! {

/// A new reading takes the place of the one before, which is kept beside it; nothing else but
/// the memory bar changes.
pub proof fn readings_push_back_the_last<R, M, P, D>(
    x: &mut App<R, M, P, D>,
    next: ArcStats,
    mem: Option<MemSnapshot>,
)
    requires
        call_ensures(App::<R, M, P, D>::apply_reading, (x, next, mem), ()),
    ensures
        final(x).current == next,
        final(x).previous == Some(old(x).current),
        final(x).mem_snapshot == mem,
        same_but_reading(*final(x), *old(x)),
{
    lemma_same_but_reading(*final(x), *old(x), next, mem);
}

/// All but the readings of the ARC and of memory is the same.
pub open spec fn same_but_reading<R, M, P, D>(a: App<R, M, P, D>, b: App<R, M, P, D>) -> bool {
    let c = App {
        current: a.current,
        previous: a.previous,
        mem_snapshot: a.mem_snapshot,
        ..b
    };
    key_laws::same_state(a, c)
}

proof fn lemma_same_but_reading<R, M, P, D>(
    a: App<R, M, P, D>,
    b: App<R, M, P, D>,
    next: ArcStats,
    mem: Option<MemSnapshot>,
)
    requires
        a.same_sources(b),
        a@ == model::reading_taken(b@, next, mem),
    ensures
        same_but_reading(a, b),
{
    let t = model::reading_taken(b@, next, mem);
    assert(a@.pools_view == t.pools_view);
    assert(a@.datasets_view == t.datasets_view);
}

/// A refresh that read the ARC keeps the reading that was current just before it beside the new
/// one, which is what the reader answered. One that could not changes nothing at all, but that
/// the reader was asked.
pub proof fn refreshes_push_back_the_last<
    R: ArcReader,
    M: MemSource,
    P: PoolsSource,
    D: DatasetsSource,
>(x: &mut App<R, M, P, D>, r: Result<(), ArcStatsError>)
    requires
        call_ensures(App::<R, M, P, D>::refresh, (x,), r),
    ensures
        r is Ok ==> final(x).previous == Some(old(x).current),
        r is Ok ==> exists|z: &mut R| *z == old(x).arc_reader && #[trigger] call_ensures(
            R::read,
            (z,),
            Ok(final(x).current),
        ),
        r matches Err(e) ==> exists|z: &mut R| *z == old(x).arc_reader && #[trigger] call_ensures(
            R::read,
            (z,),
            Err(e),
        ),
        r is Err ==> key_laws::same_state(
            App { arc_reader: old(x).arc_reader, ..*final(x) },
            *old(x),
        ),
        final(x).should_quit == old(x).should_quit,
        final(x).current_tab == old(x).current_tab,
        key_laws::same_words(final(x).pools_init_error, old(x).pools_init_error),
        key_laws::same_words(final(x).datasets_init_error, old(x).datasets_init_error),
{
    if r is Err {
        assert(final(x)@ == old(x)@);
        assert(final(x)@.pools_view == old(x)@.pools_view);
        assert(final(x)@.datasets_view == old(x)@.datasets_view);
    } else {
        let (next, mem, pools, roots) = lemma_refreshed(*old(x), *final(x), r);
        assert(refresh::arc_answered(old(x).arc_reader, Ok(final(x).current)));
        let z = choose|z: &mut R| *z == old(x).arc_reader && #[trigger] call_ensures(
            R::read,
            (z,),
            Ok(final(x).current),
        );
    }
}

proof fn lemma_refreshed<R: ArcReader, M: MemSource, P: PoolsSource, D: DatasetsSource>(
    before: App<R, M, P, D>,
    after: App<R, M, P, D>,
    r: Result<(), ArcStatsError>,
) -> (out: (
    ArcStats,
    Option<MemSnapshot>,
    Option<Result<Seq<PoolInfo>, Seq<char>>>,
    Option<Result<Seq<DatasetNode>, Seq<char>>>,
))
    requires
        r is Ok,
        before.refreshes_to(after, r),
    ensures
        refresh::arc_answered(before.arc_reader, Ok(out.0)),
        refresh::mem_answered(after.mem_source, out.0, out.1),
        refresh::pools_answered(before.pools_source, after.pools_source, out.2),
        refresh::datasets_answered(before.datasets_source, after.datasets_source, out.3),
        after@ == model::refreshed(before@, out.0, out.1, out.2, out.3),
{
    let (next, mem, pools, roots) = choose|
        next: ArcStats,
        mem: Option<MemSnapshot>,
        pools: Option<Result<Seq<PoolInfo>, Seq<char>>>,
        roots: Option<Result<Seq<DatasetNode>, Seq<char>>>,
    | #![trigger model::refreshed(before@, next, mem, pools, roots)]
        {
            &&& refresh::arc_answered(before.arc_reader, Ok(next))
            &&& refresh::mem_answered(after.mem_source, next, mem)
            &&& refresh::pools_answered(before.pools_source, after.pools_source, pools)
            &&& refresh::datasets_answered(before.datasets_source, after.datasets_source, roots)
            &&& after@ == model::refreshed(before@, next, mem, pools, roots)
        };
    (next, mem, pools, roots)
}

/// How far `now` lies above `before`, nothing if it does not.
pub open spec fn growth(before: u64, now: u64, by: u64) -> bool {
    &&& now >= before ==> before + by == now
    &&& now < before ==> by == 0
}

/// The throughput is how much a counter has grown from the reading kept to the current one;
/// there is none without a reading kept.
pub proof fn throughput_is_growth<R, M, P, D>(
    app: App<R, M, P, D>,
    hits: Option<u64>,
    misses: Option<u64>,
    iohits: Option<u64>,
)
    requires
        call_ensures(App::<R, M, P, D>::throughput_hits, (&app,), hits),
        call_ensures(App::<R, M, P, D>::throughput_misses, (&app,), misses),
        call_ensures(App::<R, M, P, D>::throughput_iohits, (&app,), iohits),
    ensures
        app.previous is None ==> hits is None && misses is None && iohits is None,
        app.previous matches Some(p) ==> {
            &&& hits is Some && growth(p.hits, app.current.hits, hits->0)
            &&& misses is Some && growth(p.misses, app.current.misses, misses->0)
            &&& iohits is Some && growth(p.iohits, app.current.iohits, iohits->0)
        },
{
}

/// After one reading and another, the throughput of each counter is its growth from the one to
/// the other, whatever was read before them.
pub proof fn throughput_compares_the_last_two<R, M, P, D>(
    x: &mut App<R, M, P, D>,
    y: &mut App<R, M, P, D>,
    b: ArcStats,
    c: ArcStats,
    mem_b: Option<MemSnapshot>,
    mem_c: Option<MemSnapshot>,
    app: App<R, M, P, D>,
    hits: Option<u64>,
    misses: Option<u64>,
    iohits: Option<u64>,
)
    requires
        call_ensures(App::<R, M, P, D>::apply_reading, (x, b, mem_b), ()),
        *old(y) == *final(x),
        call_ensures(App::<R, M, P, D>::apply_reading, (y, c, mem_c), ()),
        app == *final(y),
        call_ensures(App::<R, M, P, D>::throughput_hits, (&app,), hits),
        call_ensures(App::<R, M, P, D>::throughput_misses, (&app,), misses),
        call_ensures(App::<R, M, P, D>::throughput_iohits, (&app,), iohits),
    ensures
        hits is Some && growth(b.hits, c.hits, hits->0),
        misses is Some && growth(b.misses, c.misses, misses->0),
        iohits is Some && growth(b.iohits, c.iohits, iohits->0),
{
    readings_push_back_the_last(x, b, mem_b);
    readings_push_back_the_last(y, c, mem_c);
}

/// After one refresh and another that both read the ARC, the throughput of each counter is its
/// growth from what the one read to what the other read.
pub proof fn throughput_compares_the_last_two_refreshes<
    R: ArcReader,
    M: MemSource,
    P: PoolsSource,
    D: DatasetsSource,
>(
    x: &mut App<R, M, P, D>,
    y: &mut App<R, M, P, D>,
    first: Result<(), ArcStatsError>,
    second: Result<(), ArcStatsError>,
    app: App<R, M, P, D>,
    hits: Option<u64>,
    misses: Option<u64>,
    iohits: Option<u64>,
)
    requires
        first is Ok,
        second is Ok,
        call_ensures(App::<R, M, P, D>::refresh, (x,), first),
        *old(y) == *final(x),
        call_ensures(App::<R, M, P, D>::refresh, (y,), second),
        app == *final(y),
        call_ensures(App::<R, M, P, D>::throughput_hits, (&app,), hits),
        call_ensures(App::<R, M, P, D>::throughput_misses, (&app,), misses),
        call_ensures(App::<R, M, P, D>::throughput_iohits, (&app,), iohits),
    ensures
        hits is Some && growth(final(x).current.hits, final(y).current.hits, hits->0),
        misses is Some && growth(final(x).current.misses, final(y).current.misses, misses->0),
        iohits is Some && growth(final(x).current.iohits, final(y).current.iohits, iohits->0),
{
    refreshes_push_back_the_last(y, second);
}

/// `to` is `from`, moved up to the last of `n` rows where it lies behind it, or to the first
/// where there is none.
pub open spec fn kept_on_a_row(from: int, n: int, to: int) -> bool {
    &&& from < n ==> to == from
    &&& from >= n && n > 0 ==> to == n - 1
    &&& n == 0 ==> to == 0
}

/// One of the pools has this name.
pub open spec fn is_a_pool(pools: Seq<PoolInfo>, name: Seq<char>) -> bool {
    exists|i: int| 0 <= i < pools.len() && (#[trigger] pools[i]).name@ == name
}

/// The names of `e` are those of `pools` that `was` holds, or all of them if `all` says so.
pub open spec fn narrowed(
    e: Set<Seq<char>>,
    was: Set<Seq<char>>,
    pools: Seq<PoolInfo>,
    all: bool,
) -> bool {
    forall|name: Seq<char>| #[trigger]
        e.contains(name) <==> is_a_pool(pools, name) && (all || was.contains(name))
}

/// What the Pools tab shows once `pools` have arrived: of the expanded pools those are left that
/// are there, all of them if they are the first to arrive, and a row that is there is selected.
/// The details of a pool that is gone give way to the first row of the tree.
pub open spec fn pools_arrived(
    before: PoolsView,
    after: PoolsView,
    pools: Seq<PoolInfo>,
    first: bool,
) -> bool {
    match (before, after) {
        (
            PoolsView::Tree { expanded, selected },
            PoolsView::Tree { expanded: e, selected: s },
        ) => narrowed(e@, expanded@, pools, first) && kept_on_a_row(
            selected as int,
            row_laws::pools_size(pools, e@) as int,
            s as int,
        ),
        (
            PoolsView::Detail { pool_index, expanded },
            PoolsView::Detail { pool_index: i, expanded: e },
        ) => narrowed(e@, expanded@, pools, false) && i == pool_index && i < pools.len(),
        (
            PoolsView::Detail { pool_index, expanded },
            PoolsView::Tree { expanded: e, selected: s },
        ) => narrowed(e@, expanded@, pools, false) && s == 0 && pool_index >= pools.len(),
        _ => false,
    }
}

proof fn lemma_pool_names(pools: Seq<PoolInfo>)
    ensures
        forall|name: Seq<char>| #[trigger]
            model::pool_names(pools).contains(name) <==> is_a_pool(pools, name),
{
    let names = Seq::new(pools.len(), |i: int| pools[i].name@);
    assert forall|name: Seq<char>| #[trigger]
        model::pool_names(pools).contains(name) <==> is_a_pool(pools, name) by {
        if names.contains(name) {
            let i = choose|i: int| 0 <= i < names.len() && names[i] == name;
            assert(pools[i].name@ == name);
        }
        if is_a_pool(pools, name) {
            let i = choose|i: int| 0 <= i < pools.len() && (#[trigger] pools[i]).name@ == name;
            assert(names[i] == name);
        }
    }
}

proof fn lemma_pools_arrived(before: PoolsView, after: PoolsView, pools: Seq<PoolInfo>, first: bool)
    requires
        after@ == model::pools_view_taken(before@, pools, first),
    ensures
        pools_arrived(before, after, pools, first),
{
    lemma_pool_names(pools);
    if let PoolsView::Tree { expanded, .. } = after {
        row_laws::rows_are_counted(pools, expanded@);
    }
}

/// Pools that arrive take the place of those before, and the error of before is gone. If the
/// source fails, its error is kept, and nothing else changes.
pub proof fn answers_of_pools_are_taken_over<R, M, P, D>(
    x: &mut App<R, M, P, D>,
    outcome: Result<Vec<PoolInfo>, String>,
)
    requires
        call_ensures(App::<R, M, P, D>::apply_pools, (x, outcome), ()),
    ensures
        outcome matches Ok(pools) ==> {
            &&& final(x).pools_snapshot@ == pools@
            &&& final(x).pools_refresh_error is None
            &&& final(x).pools_first_paint == (old(x).pools_first_paint && pools@.len() == 0)
            &&& pools_arrived(
                old(x).pools_view,
                final(x).pools_view,
                pools@,
                old(x).pools_first_paint && pools@.len() > 0,
            )
            &&& same_but_answer_of_pools(*final(x), *old(x))
        },
        outcome matches Err(e) ==> {
            &&& key_laws::same_words(final(x).pools_refresh_error, Some(e))
            &&& key_laws::same_state(
                *final(x),
                App { pools_refresh_error: final(x).pools_refresh_error, ..*old(x) },
            )
        },
{
    let t = model::pools_ticked(old(x)@, crate::app::state::answer(outcome));
    assert(final(x)@.pools_view == t.pools_view);
    assert(final(x)@.datasets_view == t.datasets_view);
    if let Ok(pools) = outcome {
        lemma_pools_arrived(
            old(x).pools_view,
            final(x).pools_view,
            pools@,
            old(x).pools_first_paint && pools@.len() > 0,
        );
    }
}

/// All but what an answer of the source of pools may change is the same.
pub open spec fn same_but_answer_of_pools<R, M, P, D>(
    a: App<R, M, P, D>,
    b: App<R, M, P, D>,
) -> bool {
    key_laws::same_state(
        a,
        App {
            pools_snapshot: a.pools_snapshot,
            pools_refresh_error: a.pools_refresh_error,
            pools_first_paint: a.pools_first_paint,
            pools_view: a.pools_view,
            ..b
        },
    )
}

/// What the Datasets tab shows once the datasets under `roots` have arrived: in the tree, of the
/// expanded datasets those are left that are there, and a row that is there is selected. The
/// details of a dataset that is gone give way to the first row of the tree.
pub open spec fn datasets_arrived(
    before: DatasetsView,
    after: DatasetsView,
    roots: Seq<DatasetNode>,
) -> bool {
    match (before, after) {
        (
            DatasetsView::Tree { expanded, selected },
            DatasetsView::Tree { expanded: e, selected: s },
        ) => (forall|name: Seq<char>| #[trigger]
            e@.contains(name) <==> expanded@.contains(name) && dataset_laws::occurs_in(roots, name))
            && kept_on_a_row(
            selected as int,
            dataset_laws::forest_size(roots, e@) as int,
            s as int,
        ),
        (
            DatasetsView::Detail { name, expanded },
            DatasetsView::Detail { name: n, expanded: e },
        ) => n@ == name@ && e@ == expanded@ && dataset_laws::occurs_in(roots, name@),
        (
            DatasetsView::Detail { name, expanded },
            DatasetsView::Tree { expanded: e, selected: s },
        ) => e@ == expanded@ && s == 0 && !dataset_laws::occurs_in(roots, name@),
        _ => false,
    }
}

proof fn lemma_datasets_arrived(
    before: DatasetsView,
    after: DatasetsView,
    roots: Seq<DatasetNode>,
)
    requires
        after@ == model::datasets_view_taken(before@, roots),
    ensures
        datasets_arrived(before, after, roots),
{
    assert forall|name: Seq<char>| #[trigger]
        crate::datasets::forest_names(roots).contains(name) <==> dataset_laws::occurs_in(
            roots,
            name,
        ) by {
        dataset_laws::forest_names_occur(roots, name);
    }
    if let DatasetsView::Tree { expanded, .. } = after {
        dataset_laws::rows_are_counted(roots, expanded@);
    }
}

/// All but what an answer of the source of datasets may change is the same.
pub open spec fn same_but_answer_of_datasets<R, M, P, D>(
    a: App<R, M, P, D>,
    b: App<R, M, P, D>,
) -> bool {
    key_laws::same_state(
        a,
        App {
            datasets_snapshot: a.datasets_snapshot,
            datasets_refresh_error: a.datasets_refresh_error,
            datasets_view: a.datasets_view,
            ..b
        },
    )
}

/// Datasets that arrive take the place of those before, and the error of before is gone. If the
/// source fails, its error is kept, and nothing else changes.
pub proof fn answers_of_datasets_are_taken_over<R, M, P, D>(
    x: &mut App<R, M, P, D>,
    outcome: Result<Vec<DatasetNode>, String>,
)
    requires
        call_ensures(App::<R, M, P, D>::apply_datasets, (x, outcome), ()),
    ensures
        outcome matches Ok(roots) ==> {
            &&& final(x).datasets_snapshot@ == roots@
            &&& final(x).datasets_refresh_error is None
            &&& datasets_arrived(old(x).datasets_view, final(x).datasets_view, roots@)
            &&& same_but_answer_of_datasets(*final(x), *old(x))
        },
        outcome matches Err(e) ==> {
            &&& key_laws::same_words(final(x).datasets_refresh_error, Some(e))
            &&& key_laws::same_state(
                *final(x),
                App { datasets_refresh_error: final(x).datasets_refresh_error, ..*old(x) },
            )
        },
{
    let t = model::datasets_ticked(old(x)@, crate::app::state::answer(outcome));
    assert(final(x)@.pools_view == t.pools_view);
    assert(final(x)@.datasets_view == t.datasets_view);
    if let Ok(roots) = outcome {
        lemma_datasets_arrived(old(x).datasets_view, final(x).datasets_view, roots@);
    }
}

/// One of the roots has this name.
pub open spec fn is_a_root(roots: Seq<DatasetNode>, name: Seq<char>) -> bool {
    exists|i: int| 0 <= i < roots.len() && (#[trigger] roots[i]).name@ == name
}

proof fn lemma_root_names(roots: Seq<DatasetNode>)
    ensures
        forall|name: Seq<char>| #[trigger]
            model::root_names(roots).contains(name) <==> is_a_root(roots, name),
{
    let names = Seq::new(roots.len(), |i: int| roots[i].name@);
    assert forall|name: Seq<char>| #[trigger]
        model::root_names(roots).contains(name) <==> is_a_root(roots, name) by {
        if names.contains(name) {
            let i = choose|i: int| 0 <= i < names.len() && names[i] == name;
            assert(roots[i].name@ == name);
        }
        if is_a_root(roots, name) {
            let i = choose|i: int| 0 <= i < roots.len() && (#[trigger] roots[i]).name@ == name;
            assert(names[i] == name);
        }
    }
}

/// `expand_roots` adds all roots to the expanded datasets of the tree and changes nothing else.
pub proof fn roots_are_expanded<R, M, P, D>(x: &mut App<R, M, P, D>)
    requires
        call_ensures(App::<R, M, P, D>::expand_roots, (x,), ()),
    ensures
        key_laws::same_but_datasets(*final(x), *old(x)),
        old(x).datasets_view matches DatasetsView::Tree { expanded, selected } ==> {
            &&& final(x).datasets_view matches DatasetsView::Tree { expanded: e, selected: s }
            &&& s == selected
            &&& forall|name: Seq<char>| #[trigger]
                e@.contains(name) <==> expanded@.contains(name) || is_a_root(
                    old(x).datasets_snapshot@,
                    name,
                )
        },
        old(x).datasets_view is Detail ==> key_laws::same_state(*final(x), *old(x)),
{
    let t = model::roots_expanded(old(x)@);
    assert(final(x)@.pools_view == t.pools_view);
    assert(final(x)@.datasets_view == t.datasets_view);
    lemma_root_names(old(x).datasets_snapshot@);
}

/// What the source of pools answered in a refresh is what the dashboard holds afterwards: the
/// pools, or the error beside the pools of before. Without a source nothing changes.
pub open spec fn pools_refreshed<R, M, P: PoolsSource, D>(
    before: App<R, M, P, D>,
    after: App<R, M, P, D>,
) -> bool {
    match before.pools_source {
        None => {
            &&& after.pools_source is None
            &&& after.pools_snapshot@ == before.pools_snapshot@
            &&& key_laws::same_words(after.pools_refresh_error, before.pools_refresh_error)
            &&& key_laws::same_pools_view(after.pools_view, before.pools_view)
            &&& after.pools_first_paint == before.pools_first_paint
        },
        Some(p) => match after.pools_refresh_error {
            Some(e) => {
                &&& exists|z: &mut P, t: String|
                    *z == p && #[trigger] call_ensures(P::refresh, (z,), Err(t)) && t@ == e@
                &&& after.pools_snapshot@ == before.pools_snapshot@
                &&& key_laws::same_pools_view(after.pools_view, before.pools_view)
                &&& after.pools_first_paint == before.pools_first_paint
            },
            None => {
                &&& exists|z: &mut P, t: Result<(), String>|
                    *z == p && #[trigger] call_ensures(P::refresh, (z,), t) && t is Ok
                &&& after.pools_source matches Some(q) && exists|v: Vec<PoolInfo>| #[trigger]
                    call_ensures(P::pools, (&q,), v) && v@ == after.pools_snapshot@
                &&& after.pools_first_paint == (before.pools_first_paint
                    && after.pools_snapshot@.len() == 0)
                &&& pools_arrived(
                    before.pools_view,
                    after.pools_view,
                    after.pools_snapshot@,
                    before.pools_first_paint && after.pools_snapshot@.len() > 0,
                )
            },
        },
    }
}

proof fn lemma_pools_refreshed<R, M, P: PoolsSource, D>(
    before: App<R, M, P, D>,
    after: App<R, M, P, D>,
    outcome: Option<Result<Seq<PoolInfo>, Seq<char>>>,
)
    requires
        refresh::pools_answered(before.pools_source, after.pools_source, outcome),
        ({
            let t = model::pools_asked(before@, outcome);
            &&& after@.pools == t.pools
            &&& after@.pools_error == t.pools_error
            &&& after@.pools_view == t.pools_view
            &&& after@.first_paint == t.first_paint
        }),
    ensures
        pools_refreshed(before, after),
{
    if let Some(Ok(pools)) = outcome {
        lemma_pools_arrived(
            before.pools_view,
            after.pools_view,
            pools,
            before.pools_first_paint && pools.len() > 0,
        );
    }
}

/// What the source of datasets answered in a refresh is what the dashboard holds afterwards: the
/// datasets, or the error beside the datasets of before. Without a source nothing changes.
pub open spec fn datasets_refreshed<R, M, P, D: DatasetsSource>(
    before: App<R, M, P, D>,
    after: App<R, M, P, D>,
) -> bool {
    match before.datasets_source {
        None => {
            &&& after.datasets_source is None
            &&& after.datasets_snapshot@ == before.datasets_snapshot@
            &&& key_laws::same_words(after.datasets_refresh_error, before.datasets_refresh_error)
            &&& key_laws::same_datasets_view(after.datasets_view, before.datasets_view)
        },
        Some(d) => match after.datasets_refresh_error {
            Some(e) => {
                &&& exists|z: &mut D, t: String|
                    *z == d && #[trigger] call_ensures(D::refresh, (z,), Err(t)) && t@ == e@
                &&& after.datasets_snapshot@ == before.datasets_snapshot@
                &&& key_laws::same_datasets_view(after.datasets_view, before.datasets_view)
            },
            None => {
                &&& exists|z: &mut D, t: Result<(), String>|
                    *z == d && #[trigger] call_ensures(D::refresh, (z,), t) && t is Ok
                &&& after.datasets_source matches Some(q) && exists|v: Vec<DatasetNode>|
                    #[trigger] call_ensures(D::roots, (&q,), v) && v@ == after.datasets_snapshot@
                &&& datasets_arrived(
                    before.datasets_view,
                    after.datasets_view,
                    after.datasets_snapshot@,
                )
            },
        },
    }
}

proof fn lemma_datasets_refreshed<R, M, P, D: DatasetsSource>(
    before: App<R, M, P, D>,
    after: App<R, M, P, D>,
    outcome: Option<Result<Seq<DatasetNode>, Seq<char>>>,
)
    requires
        refresh::datasets_answered(before.datasets_source, after.datasets_source, outcome),
        ({
            let t = model::datasets_asked(before@, outcome);
            &&& after@.datasets == t.datasets
            &&& after@.datasets_error == t.datasets_error
            &&& after@.datasets_view == t.datasets_view
        }),
    ensures
        datasets_refreshed(before, after),
{
    if let Some(Ok(roots)) = outcome {
        lemma_datasets_arrived(before.datasets_view, after.datasets_view, roots);
    }
}

/// The memory bar is what the source of memory makes of the ARC's size and its overhead; without
/// a source there is none.
pub open spec fn bar_of<M: MemSource>(
    source: Option<M>,
    stats: ArcStats,
    mem: Option<MemSnapshot>,
) -> bool {
    match source {
        None => mem is None,
        Some(m) => exists|segs: &[RamSegment]| #[trigger]
            call_ensures(M::snapshot, (&m, segs), mem) && arc_in_bar(segs@, stats),
    }
}

/// The segments of the memory bar that stand for the ARC: its size, then its overhead.
pub open spec fn arc_in_bar(segs: Seq<RamSegment>, stats: ArcStats) -> bool {
    &&& segs.len() == 2
    &&& segs[0].label@ == "ARC"@ && segs[0].color == Color::Indexed(171) && segs[0].bytes
        == stats.size
    &&& segs[1].label@ == "ARC ovh"@ && segs[1].color == Color::Magenta && segs[1].bytes
        == stats.overhead_size
}

/// `arc_segments` gives the ARC's size and its overhead, in this order.
pub proof fn arc_stands_in_the_bar(stats: ArcStats, r: Vec<RamSegment>)
    requires
        call_ensures(segments::arc_segments, (&stats,), r),
    ensures
        arc_in_bar(r@, stats),
{
}

/// A refresh that read the ARC has asked every source there is and holds what it answered.
pub proof fn refreshes_take_over_all_answers<
    R: ArcReader,
    M: MemSource,
    P: PoolsSource,
    D: DatasetsSource,
>(x: &mut App<R, M, P, D>, r: Result<(), ArcStatsError>)
    requires
        r is Ok,
        call_ensures(App::<R, M, P, D>::refresh, (x,), r),
    ensures
        pools_refreshed(*old(x), *final(x)),
        datasets_refreshed(*old(x), *final(x)),
        bar_of(final(x).mem_source, final(x).current, final(x).mem_snapshot),
        old(x).mem_source is Some == final(x).mem_source is Some,
{
    let (next, mem, pools, roots) = lemma_refreshed(*old(x), *final(x), r);
    lemma_pools_refreshed(*old(x), *final(x), pools);
    lemma_datasets_refreshed(*old(x), *final(x), roots);
    assert(refresh::mem_answered(final(x).mem_source, next, mem));
    if let Some(m) = final(x).mem_source {
        let segs = choose|segs: &[RamSegment]|
            segs@ == segments::segments_of(next) && #[trigger] call_ensures(
                M::snapshot,
                (&m, segs),
                mem,
            );
        assert(arc_in_bar(segs@, next));
    }
}

/// Asking one source alone changes what it answered and nothing else.
pub proof fn sources_are_asked_alone<R, M, P: PoolsSource, D: DatasetsSource>(
    x: &mut App<R, M, P, D>,
    y: &mut App<R, M, P, D>,
)
    requires
        call_ensures(App::<R, M, P, D>::refresh_pools, (x,), ()),
        call_ensures(App::<R, M, P, D>::refresh_datasets, (y,), ()),
    ensures
        pools_refreshed(*old(x), *final(x)),
        same_but_answer_of_pools(
            App { pools_source: old(x).pools_source, ..*final(x) },
            *old(x),
        ),
        datasets_refreshed(*old(y), *final(y)),
        same_but_answer_of_datasets(
            App { datasets_source: old(y).datasets_source, ..*final(y) },
            *old(y),
        ),
{
    let pools = choose|outcome: Option<Result<Seq<PoolInfo>, Seq<char>>>| #[trigger]
        refresh::pools_answered(old(x).pools_source, final(x).pools_source, outcome) && final(x)@
            == model::pools_asked(old(x)@, outcome);
    let t = model::pools_asked(old(x)@, pools);
    assert(final(x)@.pools_view == t.pools_view);
    assert(final(x)@.datasets_view == t.datasets_view);
    lemma_pools_refreshed(*old(x), *final(x), pools);
    let roots = choose|outcome: Option<Result<Seq<DatasetNode>, Seq<char>>>| #[trigger]
        refresh::datasets_answered(old(y).datasets_source, final(y).datasets_source, outcome)
            && final(y)@ == model::datasets_asked(old(y)@, outcome);
    let u = model::datasets_asked(old(y)@, roots);
    assert(final(y)@.pools_view == u.pools_view);
    assert(final(y)@.datasets_view == u.datasets_view);
    lemma_datasets_refreshed(*old(y), *final(y), roots);
}

/// The dashboard starts on the first tab with one reading and none kept beside it. Both trees
/// have their first row selected; all pools are expanded, and of the datasets all roots. It does
/// not start only if the ARC cannot be read.
pub proof fn dashboards_start_expanded<
    R: ArcReader,
    M: MemSource,
    P: PoolsSource,
    D: DatasetsSource,
>(
    arc_reader: R,
    mem_source: Option<M>,
    pools_source: Option<P>,
    pools_init_error: Option<String>,
    datasets_source: Option<D>,
    datasets_init_error: Option<String>,
    r: Result<App<R, M, P, D>, ArcStatsError>,
)
    requires
        call_ensures(
            App::<R, M, P, D>::new,
            (
                arc_reader,
                mem_source,
                pools_source,
                pools_init_error,
                datasets_source,
                datasets_init_error,
            ),
            r,
        ),
    ensures
        r matches Err(e) ==> exists|z: &mut R| *z == arc_reader && #[trigger] call_ensures(
            R::read,
            (z,),
            Err(e),
        ),
        r matches Ok(app) ==> {
            &&& exists|z: &mut R| *z == arc_reader && #[trigger] call_ensures(
                R::read,
                (z,),
                Ok(app.current),
            )
            &&& app.previous is None
            &&& bar_of(mem_source, app.current, app.mem_snapshot)
            &&& app.mem_source == mem_source
            &&& !app.should_quit
            &&& app.current_tab == Tab::Overview
            &&& key_laws::same_words(app.pools_init_error, pools_init_error)
            &&& key_laws::same_words(app.datasets_init_error, datasets_init_error)
            &&& app.pools_first_paint == (app.pools_snapshot@.len() == 0)
            &&& app.pools_view matches PoolsView::Tree { expanded, selected } && selected == 0
                && narrowed(expanded@, Set::empty(), app.pools_snapshot@, true)
            &&& app.datasets_view matches DatasetsView::Tree { expanded, selected } && selected
                == 0 && forall|name: Seq<char>| #[trigger]
                expanded@.contains(name) <==> is_a_root(app.datasets_snapshot@, name)
            &&& pools_source is None ==> app.pools_source is None && app.pools_snapshot@.len() == 0
                && app.pools_refresh_error is None
            &&& pools_source is Some ==> {
                ||| app.pools_refresh_error is Some && app.pools_snapshot@.len() == 0
                ||| app.pools_refresh_error is None && app.pools_source is Some && exists|
                    v: Vec<PoolInfo>,
                | #[trigger]
                    call_ensures(P::pools, (&app.pools_source->0,), v) && v@ == app.pools_snapshot@
            }
            &&& datasets_source is None ==> app.datasets_source is None
                && app.datasets_snapshot@.len() == 0 && app.datasets_refresh_error is None
            &&& datasets_source is Some ==> {
                ||| app.datasets_refresh_error is Some && app.datasets_snapshot@.len() == 0
                ||| app.datasets_refresh_error is None && app.datasets_source is Some && exists|
                    v: Vec<DatasetNode>,
                | #[trigger]
                    call_ensures(D::roots, (&app.datasets_source->0,), v) && v@
                        == app.datasets_snapshot@
            }
        },
{
    if let Ok(app) = r {
        let (next, mem, pools, roots) = choose|
            next: ArcStats,
            mem: Option<MemSnapshot>,
            pools: Option<Result<Seq<PoolInfo>, Seq<char>>>,
            roots: Option<Result<Seq<DatasetNode>, Seq<char>>>,
        |
            {
                &&& refresh::arc_answered(arc_reader, Ok(next))
                &&& #[trigger] refresh::mem_answered(mem_source, next, mem)
                &&& #[trigger] refresh::pools_answered(pools_source, app.pools_source, pools)
                &&& #[trigger] refresh::datasets_answered(
                    datasets_source,
                    app.datasets_source,
                    roots,
                )
                &&& app@ == model::started(
                    model::blank(
                        next,
                        mem,
                        crate::text::opt_text(pools_init_error),
                        crate::text::opt_text(datasets_init_error),
                    ),
                    pools,
                    roots,
                )
            };
        let blank = model::blank(
            next,
            mem,
            crate::text::opt_text(pools_init_error),
            crate::text::opt_text(datasets_init_error),
        );
        let t = model::started(blank, pools, roots);
        assert(app@.pools_view == t.pools_view);
        assert(app@.datasets_view == t.datasets_view);
        lemma_pool_names(app.pools_snapshot@);
        lemma_root_names(app.datasets_snapshot@);
        assert(refresh::arc_answered(arc_reader, Ok(app.current)));
        if let Some(m) = mem_source {
            let segs = choose|segs: &[RamSegment]|
                segs@ == segments::segments_of(next) && #[trigger] call_ensures(
                    M::snapshot,
                    (&m, segs),
                    mem,
                );
            assert(arc_in_bar(segs@, next));
        }
    }
}

/// `r` stands for `part` of `whole`, or for nothing of 1 where `whole` is 0.
pub open spec fn is_share(r: Ratio, part: int, whole: int) -> bool {
    &&& whole > 0 ==> r.part == part && r.whole == whole
    &&& whole == 0 ==> r.part == 0 && r.whole == 1
}

/// The hit ratios are hits among hits and misses: of all reads, of those that something waited
/// for and of those ahead of need, data and metadata together.
pub proof fn ratios_are_hits_among_reads<R, M, P, D>(
    app: App<R, M, P, D>,
    overall: Ratio,
    demand: Ratio,
    prefetch: Ratio,
)
    requires
        app.current.hits + app.current.misses <= u64::MAX,
        app.current.demand_data_hits + app.current.demand_metadata_hits
            + app.current.demand_data_misses + app.current.demand_metadata_misses <= u64::MAX,
        app.current.prefetch_data_hits + app.current.prefetch_metadata_hits
            + app.current.prefetch_data_misses + app.current.prefetch_metadata_misses <= u64::MAX,
        call_ensures(App::<R, M, P, D>::hit_ratio_overall, (&app,), overall),
        call_ensures(App::<R, M, P, D>::hit_ratio_demand, (&app,), demand),
        call_ensures(App::<R, M, P, D>::hit_ratio_prefetch, (&app,), prefetch),
    ensures
        ({
            let s = app.current;
            &&& is_share(overall, s.hits as int, s.hits + s.misses)
            &&& is_share(
                demand,
                s.demand_data_hits + s.demand_metadata_hits,
                s.demand_data_hits + s.demand_metadata_hits + s.demand_data_misses
                    + s.demand_metadata_misses,
            )
            &&& is_share(
                prefetch,
                s.prefetch_data_hits + s.prefetch_metadata_hits,
                s.prefetch_data_hits + s.prefetch_metadata_hits + s.prefetch_data_misses
                    + s.prefetch_metadata_misses,
            )
        }),
{
}

/// The share of hits among hits and misses, of whatever they are.
pub proof fn ratio_is_hits_among_both(hits: u64, misses: u64, r: Ratio)
    requires
        hits + misses <= u64::MAX,
        call_ensures(metrics::ratio, (hits, misses), r),
    ensures
        is_share(r, hits as int, hits + misses),
{
}

/// The ARC is full to the extent of its size in its ceiling; it is compressed as many times as
/// its uncompressed size holds its compressed size, where there is any.
pub proof fn usage_and_compression<R, M, P, D>(
    app: App<R, M, P, D>,
    usage: Ratio,
    compression: Option<Ratio>,
)
    requires
        call_ensures(App::<R, M, P, D>::arc_usage_pct, (&app,), usage),
        call_ensures(App::<R, M, P, D>::arc_compression_ratio, (&app,), compression),
    ensures
        is_share(usage, app.current.size as int, app.current.c_max as int),
        compression is None <==> app.current.compressed_size == 0,
        compression matches Some(r) ==> r.part == app.current.uncompressed_size && r.whole
            == app.current.compressed_size,
{
}

/// The line has this label and these bytes, and tells their share of `total`.
pub open spec fn is_line(row: BreakdownRow, label: Seq<char>, bytes: u64, total: u64) -> bool {
    row.label@ == label && row.bytes == bytes && is_share(row.share, bytes as int, total as int)
}

/// The breakdown has nine lines, each with the counter that its label names.
pub proof fn breakdown_names_its_counters<R, M, P, D>(
    app: App<R, M, P, D>,
    r: Vec<BreakdownRow>,
)
    requires
        call_ensures(App::<R, M, P, D>::arc_breakdown, (&app,), r),
    ensures
        r@.len() == 9,
        is_line(r@[0], "MFU data"@, app.current.mfu_data, app.current.size),
        is_line(r@[1], "MFU meta"@, app.current.mfu_metadata, app.current.size),
        is_line(r@[2], "MRU data"@, app.current.mru_data, app.current.size),
        is_line(r@[3], "MRU meta"@, app.current.mru_metadata, app.current.size),
        is_line(r@[4], "Anon"@, app.current.anon_size, app.current.size),
        is_line(r@[5], "Headers"@, app.current.hdr_size, app.current.size),
        is_line(r@[6], "Dbuf"@, app.current.dbuf_size, app.current.size),
        is_line(r@[7], "Dnode"@, app.current.dnode_size, app.current.size),
        is_line(r@[8], "Bonus"@, app.current.bonus_size, app.current.size),
{
}

/// The memory bar that is shown is the one of the last reading.
pub proof fn bar_is_the_last<R, M, P, D>(
    app: App<R, M, P, D>,
    r: Option<(u64, &[RamSegment])>,
)
    requires
        call_ensures(App::<R, M, P, D>::ram_segments, (&app,), r),
    ensures
        r is Some <==> app.mem_snapshot is Some,
        r matches Some((total, segs)) ==> app.mem_snapshot matches Some(m) && total
            == m.total_bytes && segs@ == m.segments@,
{
}

/// The figures over all pools: one pool more adds its size, what is allocated on it, and one to
/// those that are not online unless it is online. Of no pools all are 0.
pub proof fn totals_add_up<R, M, P, D>(
    app: App<R, M, P, D>,
    more: App<R, M, P, D>,
    last: PoolInfo,
    degraded: (usize, usize),
    capacity: (u64, u64),
    allocated: (u64, u64),
)
    requires
        more.pools_snapshot@ == app.pools_snapshot@.push(last),
        call_ensures(App::<R, M, P, D>::pools_degraded_count, (&app,), degraded.0),
        call_ensures(App::<R, M, P, D>::pools_degraded_count, (&more,), degraded.1),
        call_ensures(App::<R, M, P, D>::pools_total_capacity, (&app,), capacity.0),
        call_ensures(App::<R, M, P, D>::pools_total_capacity, (&more,), capacity.1),
        call_ensures(App::<R, M, P, D>::pools_total_allocated, (&app,), allocated.0),
        call_ensures(App::<R, M, P, D>::pools_total_allocated, (&more,), allocated.1),
    ensures
        last.health is Online ==> degraded.1 == degraded.0,
        !(last.health is Online) ==> degraded.1 == degraded.0 + 1,
        capacity.1 == capacity.0 + last.size_bytes,
        allocated.1 == allocated.0 + last.allocated_bytes,
        app.pools_snapshot@.len() == 0 ==> degraded.0 == 0 && capacity.0 == 0 && allocated.0 == 0,
{
    assert(more.pools_snapshot@.drop_last() =~= app.pools_snapshot@);
}

/// The rows on the screen are those of the tree that is shown, laid out as a tree; there are
/// none while details are shown.
pub proof fn shown_rows_are_laid_out<R, M, P, D>(
    app: App<R, M, P, D>,
    pools: Vec<VisibleRow<'_>>,
    datasets: Vec<(usize, &DatasetNode)>,
)
    requires
        call_ensures(App::<R, M, P, D>::flatten_visible_pool_rows, (&app,), pools),
        call_ensures(App::<R, M, P, D>::flatten_visible_dataset_rows, (&app,), datasets),
    ensures
        match app.pools_view {
            PoolsView::Tree { expanded, .. } => row_laws::laid_out(
                pools@,
                app.pools_snapshot@,
                expanded@,
            ),
            PoolsView::Detail { .. } => pools@.len() == 0,
        },
        match app.datasets_view {
            DatasetsView::Tree { expanded, .. } => dataset_laws::laid_out(
                datasets@,
                app.datasets_snapshot@,
                expanded@,
            ),
            DatasetsView::Detail { .. } => datasets@.len() == 0,
        },
{
    if let PoolsView::Tree { expanded, .. } = app.pools_view {
        row_laws::visible_rows_are_laid_out(pools@, app.pools_snapshot@, expanded@);
    }
    if let DatasetsView::Tree { expanded, .. } = app.datasets_view {
        dataset_laws::visible_rows_are_laid_out(datasets@, app.datasets_snapshot@, expanded@);
    }
}

/// What became of `before` is what a refresh makes of it: either the ARC could not be read, and
/// nothing changed, or the last reading was pushed back and all sources were asked.
pub open spec fn was_refreshed<R, M: MemSource, P: PoolsSource, D: DatasetsSource>(
    before: App<R, M, P, D>,
    after: App<R, M, P, D>,
) -> bool {
    ||| key_laws::same_state(App { arc_reader: before.arc_reader, ..after }, before)
    ||| {
        &&& after.previous == Some(before.current)
        &&& pools_refreshed(before, after)
        &&& datasets_refreshed(before, after)
        &&& bar_of(after.mem_source, after.current, after.mem_snapshot)
        &&& after.should_quit == before.should_quit
        &&& after.current_tab == before.current_tab
        &&& key_laws::same_words(after.pools_init_error, before.pools_init_error)
        &&& key_laws::same_words(after.datasets_init_error, before.datasets_init_error)
    }
}

proof fn lemma_was_refreshed<R: ArcReader, M: MemSource, P: PoolsSource, D: DatasetsSource>(
    before: App<R, M, P, D>,
    after: App<R, M, P, D>,
    r: Result<(), ArcStatsError>,
)
    requires
        before.refreshes_to(after, r),
    ensures
        was_refreshed(before, after),
{
    if r is Err {
        assert(after@.pools_view == before@.pools_view);
        assert(after@.datasets_view == before@.datasets_view);
    } else {
        let (next, mem, pools, roots) = lemma_refreshed(before, after, r);
        lemma_pools_refreshed(before, after, pools);
        lemma_datasets_refreshed(before, after, roots);
        if let Some(m) = after.mem_source {
            let segs = choose|segs: &[RamSegment]|
                segs@ == segments::segments_of(next) && #[trigger] call_ensures(
                    M::snapshot,
                    (&m, segs),
                    mem,
                );
            assert(arc_in_bar(segs@, next));
        }
    }
}

/// The key `r` refreshes, and so does the time that runs out, and neither does anything else.
pub proof fn key_and_time_refresh<R: ArcReader, M: MemSource, P: PoolsSource, D: DatasetsSource>(
    x: &mut App<R, M, P, D>,
    y: &mut App<R, M, P, D>,
    key: KeyEvent,
    quit: bool,
)
    requires
        key.code == KeyCode::Char('r'),
        call_ensures(App::<R, M, P, D>::on_key, (x, key), ()),
        call_ensures(App::<R, M, P, D>::handle, (y, Event::Timeout), quit),
    ensures
        was_refreshed(*old(x), *final(x)),
        was_refreshed(*old(y), *final(y)),
        quit == final(y).should_quit,
{
    let (z, r) = choose|z: &mut App<R, M, P, D>, r: Result<(), ArcStatsError>|
        *z == *old(x) && *final(z) == *final(x) && #[trigger] call_ensures(
            App::<R, M, P, D>::refresh,
            (z,),
            r,
        ) && old(x).refreshes_to(*final(x), r);
    lemma_was_refreshed(*old(x), *final(x), r);
    let (w, s) = choose|w: &mut App<R, M, P, D>, s: Result<(), ArcStatsError>|
        *w == *old(y) && *final(w) == *final(y) && #[trigger] call_ensures(
            App::<R, M, P, D>::refresh,
            (w,),
            s,
        ) && old(y).refreshes_to(*final(y), s);
    lemma_was_refreshed(*old(y), *final(y), s);
}

/// A refresh asks the reader, and if that answers, every source there is. Where the ARC cannot
/// be read no source is asked.
pub proof fn refreshes_ask_every_source<
    R: ArcReader,
    M: MemSource,
    P: PoolsSource,
    D: DatasetsSource,
>(x: &mut App<R, M, P, D>, r: Result<(), ArcStatsError>)
    requires
        call_ensures(App::<R, M, P, D>::refresh, (x,), r),
    ensures
        exists|z: &mut R, t: Result<ArcStats, ArcStatsError>|
            *z == old(x).arc_reader && *final(z) == final(x).arc_reader && #[trigger] call_ensures(
                R::read,
                (z,),
                t,
            ),
        r is Ok ==> (old(x).mem_source matches Some(m) ==> final(x).mem_source is Some
            && exists|z: &mut M, t: Result<(), String>|
                *z == m && *final(z) == final(x).mem_source->0 && #[trigger] call_ensures(
                    M::refresh,
                    (z,),
                    t,
                )),
        r is Ok ==> (old(x).pools_source matches Some(p) ==> final(x).pools_source is Some
            && exists|z: &mut P, t: Result<(), String>|
                *z == p && *final(z) == final(x).pools_source->0 && #[trigger] call_ensures(
                    P::refresh,
                    (z,),
                    t,
                )),
        r is Ok ==> (old(x).datasets_source matches Some(d) ==> final(x).datasets_source is Some
            && exists|z: &mut D, t: Result<(), String>|
                *z == d && *final(z) == final(x).datasets_source->0 && #[trigger] call_ensures(
                    D::refresh,
                    (z,),
                    t,
                )),
        r is Err ==> final(x).mem_source == old(x).mem_source && final(x).pools_source
            == old(x).pools_source && final(x).datasets_source == old(x).datasets_source,
{
}

/// At the start the reader and the sources of pools and datasets are asked once.
pub proof fn starts_ask_the_sources<
    R: ArcReader,
    M: MemSource,
    P: PoolsSource,
    D: DatasetsSource,
>(
    arc_reader: R,
    mem_source: Option<M>,
    pools_source: Option<P>,
    pools_init_error: Option<String>,
    datasets_source: Option<D>,
    datasets_init_error: Option<String>,
    app: App<R, M, P, D>,
)
    requires
        call_ensures(
            App::<R, M, P, D>::new,
            (
                arc_reader,
                mem_source,
                pools_source,
                pools_init_error,
                datasets_source,
                datasets_init_error,
            ),
            Ok(app),
        ),
    ensures
        exists|z: &mut R, t: Result<ArcStats, ArcStatsError>|
            *z == arc_reader && *final(z) == app.arc_reader && #[trigger] call_ensures(
                R::read,
                (z,),
                t,
            ),
        pools_source matches Some(p) ==> app.pools_source is Some && exists|
            z: &mut P,
            t: Result<(), String>,
        |
                *z == p && *final(z) == app.pools_source->0 && #[trigger] call_ensures(
                    P::refresh,
                    (z,),
                    t,
                ),
        datasets_source matches Some(d) ==> app.datasets_source is Some && exists|
            z: &mut D,
            t: Result<(), String>,
        |
                *z == d && *final(z) == app.datasets_source->0 && #[trigger] call_ensures(
                    D::refresh,
                    (z,),
                    t,
                ),
{
}

} // verus!
