//! Laws of the rows of the pools tree.
use vstd::prelude::*;

use crate::names::NameSet;
use crate::pools::rows;
use crate::pools::rows::{PoolRow, RowKey, VisibleRow};
use crate::pools::types::{PoolInfo, VdevNode};

verus! {

/// How many vdevs there are from `node` downwards, itself among them.
pub open spec fn vdev_size(node: VdevNode) -> nat
    decreases node,
{
    1 + forest_size(node.children@)
}

/// How many vdevs there are from the vdevs of `s` downwards.
pub open spec fn forest_size(s: Seq<VdevNode>) -> nat
    decreases s,
{
    if s.len() == 0 {
        0
    } else {
        forest_size(s.drop_last()) + vdev_size(s.last())
    }
}

/// How many rows the pools take up: one each, and one for each vdev of an expanded pool but its
/// root.
pub open spec fn pools_size(pools: Seq<PoolInfo>, expanded: Set<Seq<char>>) -> nat
    decreases pools.len(),
{
    if pools.len() == 0 {
        0
    } else {
        let p = pools.last();
        pools_size(pools.drop_last(), expanded) + 1 + if expanded.contains(p.name@) {
            forest_size(p.root_vdev.children@)
        } else {
            0
        }
    }
}

/// How deep a row lies: pools at the surface.
pub open spec fn depth_of(row: VisibleRow<'_>) -> int {
    match row {
        VisibleRow::Pool(_) => 0,
        VisibleRow::Vdev { node: _, depth } => depth as int,
    }
}

/// The vdevs right below a row, whether shown or not.
pub open spec fn children_of(row: VisibleRow<'_>) -> Seq<VdevNode> {
    match row {
        VisibleRow::Pool(p) => p.root_vdev.children@,
        VisibleRow::Vdev { node, depth: _ } => node.children@,
    }
}

/// Row `p` is the nearest above row `i` that lies less deep; it lies less deep by one, and the
/// vdev of row `i` is one of those right below it.
pub open spec fn hangs_below(out: Seq<VisibleRow<'_>>, p: int, i: int) -> bool {
    &&& 0 <= p < i < out.len()
    &&& depth_of(out[i]) == depth_of(out[p]) + 1
    &&& forall|k: int| p < k < i ==> depth_of(#[trigger] out[k]) >= depth_of(out[i])
    &&& out[i] matches VisibleRow::Vdev { node, depth: _ } && children_of(out[p]).contains(*node)
}

/// The vdevs right below row `i` follow it in order, each with those below itself, all one
/// deeper than the row.
pub open spec fn children_follow(out: Seq<VisibleRow<'_>>, i: int) -> bool {
    forall|j: int|
        0 <= j < children_of(out[i]).len() ==> {
            let k = i + 1 + forest_size(#[trigger] children_of(out[i]).take(j));
            &&& k < out.len()
            &&& out[k] matches VisibleRow::Vdev { node, depth } && *node == children_of(out[i])[j]
                && depth == depth_of(out[i]) + 1
        }
}

proof fn lemma_sizes(pool: int, s: Seq<VdevNode>, depth: nat)
    ensures
        rows::forest_rows(pool, s, depth).len() == forest_size(s),
    decreases s, 1int,
{
    if s.len() > 0 {
        lemma_sizes(pool, s.drop_last(), depth);
        lemma_size(pool, s.last(), depth);
    }
}

proof fn lemma_size(pool: int, node: VdevNode, depth: nat)
    ensures
        rows::vdev_rows(pool, node, depth).len() == vdev_size(node),
    decreases node, 0int,
{
    lemma_sizes(pool, node.children@, depth + 1);
}

/// From row `at` on, the rows of `r` are those of `part`.
spec fn holds_at(r: Seq<PoolRow>, at: int, part: Seq<PoolRow>) -> bool {
    &&& 0 <= at
    &&& at + part.len() <= r.len()
    &&& forall|k: int| 0 <= k < part.len() ==> r[at + k] == #[trigger] part[k]
}

proof fn lemma_at_each(pool: int, s: Seq<VdevNode>, depth: nat, j: int)
    requires
        0 <= j < s.len(),
    ensures
        holds_at(
            rows::forest_rows(pool, s, depth),
            forest_size(s.take(j)) as int,
            rows::vdev_rows(pool, s[j], depth),
        ),
    decreases s.len(),
{
    let init = s.drop_last();
    lemma_sizes(pool, init, depth);
    if j == s.len() - 1 {
        assert(s.take(j) =~= init);
    } else {
        lemma_at_each(pool, init, depth, j);
        assert(init.take(j) =~= s.take(j));
        assert(init[j] == s[j]);
        let whole = rows::forest_rows(pool, s, depth);
        let part = rows::vdev_rows(pool, s[j], depth);
        let at = forest_size(s.take(j)) as int;
        assert forall|k: int| 0 <= k < part.len() implies whole[at + k] == #[trigger] part[k] by {
            assert(rows::forest_rows(pool, init, depth)[at + k] == part[k]);
        }
    }
}

/// Every row of a forest is followed by all rows of its vdev.
proof fn lemma_forest_blocks(pool: int, s: Seq<VdevNode>, depth: nat, i: int)
    requires
        0 <= i < rows::forest_rows(pool, s, depth).len(),
    ensures
        rows::forest_rows(pool, s, depth)[i].vdev matches Some((node, d)) && holds_at(
            rows::forest_rows(pool, s, depth),
            i,
            rows::vdev_rows(pool, node, d),
        ),
    decreases s, 1int,
{
    let first = rows::forest_rows(pool, s.drop_last(), depth);
    let whole = rows::forest_rows(pool, s, depth);
    let sub = rows::vdev_rows(pool, s.last(), depth);
    if i < first.len() {
        lemma_forest_blocks(pool, s.drop_last(), depth, i);
        let (node, d) = first[i].vdev->0;
        let part = rows::vdev_rows(pool, node, d);
        assert forall|k: int| 0 <= k < part.len() implies whole[i + k] == #[trigger] part[k] by {
            assert(first[i + k] == part[k]);
        }
    } else {
        lemma_vdev_blocks(pool, s.last(), depth, i - first.len());
        let (node, d) = sub[i - first.len()].vdev->0;
        let part = rows::vdev_rows(pool, node, d);
        assert forall|k: int| 0 <= k < part.len() implies whole[i + k] == #[trigger] part[k] by {
            assert(sub[i - first.len() + k] == part[k]);
        }
    }
}

proof fn lemma_vdev_blocks(pool: int, top: VdevNode, depth: nat, i: int)
    requires
        0 <= i < rows::vdev_rows(pool, top, depth).len(),
    ensures
        rows::vdev_rows(pool, top, depth)[i].vdev matches Some((node, d)) && holds_at(
            rows::vdev_rows(pool, top, depth),
            i,
            rows::vdev_rows(pool, node, d),
        ),
    decreases top, 0int,
{
    if i > 0 {
        let below = rows::forest_rows(pool, top.children@, depth + 1);
        let whole = rows::vdev_rows(pool, top, depth);
        lemma_forest_blocks(pool, top.children@, depth + 1, i - 1);
        let (node, d) = below[i - 1].vdev->0;
        let part = rows::vdev_rows(pool, node, d);
        assert forall|k: int| 0 <= k < part.len() implies whole[i + k] == #[trigger] part[k] by {
            assert(below[i - 1 + k] == part[k]);
        }
    }
}

/// How deep a row lies: pools at the surface.
spec fn depth_in(row: PoolRow) -> int {
    match row.vdev {
        None => 0,
        Some((_, d)) => d as int,
    }
}

/// The row lies at least `depth` deep; if it lies right there, its vdev is one of `s`, and if
/// it lies deeper, there is a row that it hangs below.
spec fn placed(r: Seq<PoolRow>, i: int, s: Seq<VdevNode>, depth: nat) -> bool {
    r[i].vdev matches Some((node, d)) && {
        &&& d >= depth
        &&& d == depth ==> s.contains(node)
        &&& d > depth ==> exists|p: int| #[trigger] hung(r, p, i)
    }
}

/// Row `i` hangs below row `p`, a vdev.
spec fn hung(r: Seq<PoolRow>, p: int, i: int) -> bool {
    &&& 0 <= p < i
    &&& depth_in(r[i]) == depth_in(r[p]) + 1
    &&& forall|k: int| p < k < i ==> depth_in(#[trigger] r[k]) >= depth_in(r[i])
    &&& r[i].vdev matches Some((node, _)) && r[p].vdev matches Some((above, _))
        && above.children@.contains(node)
}

proof fn lemma_forest_placed(pool: int, s: Seq<VdevNode>, depth: nat, i: int)
    requires
        0 <= i < rows::forest_rows(pool, s, depth).len(),
    ensures
        placed(rows::forest_rows(pool, s, depth), i, s, depth),
    decreases s, 1int,
{
    let first = rows::forest_rows(pool, s.drop_last(), depth);
    let whole = rows::forest_rows(pool, s, depth);
    let sub = rows::vdev_rows(pool, s.last(), depth);
    if i < first.len() {
        lemma_forest_placed(pool, s.drop_last(), depth, i);
        let (node, d) = first[i].vdev->0;
        if d == depth {
            let j = choose|j: int| 0 <= j < s.drop_last().len() && s.drop_last()[j] == node;
            assert(s[j] == node);
        } else {
            let p = choose|p: int| #[trigger] hung(first, p, i);
            assert forall|k: int| p < k < i implies depth_in(#[trigger] whole[k]) >= d by {
                assert(depth_in(first[k]) >= d);
            }
            assert(hung(whole, p, i));
        }
    } else {
        let n = first.len() as int;
        lemma_vdev_placed(pool, s.last(), depth, i - n);
        let (node, d) = sub[i - n].vdev->0;
        if d == depth {
            assert(s[s.len() - 1] == node);
        } else {
            let p = choose|p: int| #[trigger] hung(sub, p, i - n);
            assert forall|k: int| p + n < k < i implies depth_in(#[trigger] whole[k]) >= d by {
                assert(depth_in(sub[k - n]) >= d);
            }
            assert(hung(whole, p + n, i));
        }
    }
}

proof fn lemma_vdev_placed(pool: int, top: VdevNode, depth: nat, i: int)
    requires
        0 <= i < rows::vdev_rows(pool, top, depth).len(),
    ensures
        placed(rows::vdev_rows(pool, top, depth), i, seq![top], depth),
        i > 0 ==> (rows::vdev_rows(pool, top, depth)[i].vdev matches Some((_, d)) && d > depth),
    decreases top, 0int,
{
    let whole = rows::vdev_rows(pool, top, depth);
    if i == 0 {
        assert(seq![top][0] == top);
    } else {
        let below = rows::forest_rows(pool, top.children@, depth + 1);
        lemma_forest_placed(pool, top.children@, depth + 1, i - 1);
        let (node, d) = below[i - 1].vdev->0;
        if d == depth + 1 {
            assert forall|k: int| 0 < k < i implies depth_in(#[trigger] whole[k]) >= d by {
                lemma_forest_placed(pool, top.children@, depth + 1, k - 1);
                assert(whole[k] == below[k - 1]);
            }
            assert(hung(whole, 0, i));
        } else {
            let p = choose|p: int| #[trigger] hung(below, p, i - 1);
            assert forall|k: int| p + 1 < k < i implies depth_in(#[trigger] whole[k]) >= d by {
                assert(depth_in(below[k - 1]) >= d);
            }
            assert(hung(whole, p + 1, i));
        }
    }
}

proof fn lemma_pools_size(pools: Seq<PoolInfo>, expanded: Set<Seq<char>>)
    ensures
        rows::pool_rows(pools, expanded).len() == pools_size(pools, expanded),
    decreases pools.len(),
{
    if pools.len() > 0 {
        lemma_pools_size(pools.drop_last(), expanded);
        lemma_sizes(pools.len() - 1, pools.last().root_vdev.children@, 1);
    }
}

/// As many rows are visible as there are pools, and vdevs of expanded pools.
pub proof fn rows_are_counted(pools: Seq<PoolInfo>, expanded: Set<Seq<char>>)
    ensures
        rows::pool_rows(pools, expanded).len() == pools_size(pools, expanded),
{
    lemma_pools_size(pools, expanded);
}

proof fn lemma_pool_at(pools: Seq<PoolInfo>, expanded: Set<Seq<char>>, k: int)
    requires
        0 <= k < pools.len(),
    ensures
        holds_at(
            rows::pool_rows(pools, expanded),
            pools_size(pools.take(k), expanded) as int,
            rows::rows_of_pool(k, pools[k], expanded),
        ),
    decreases pools.len(),
{
    let init = pools.drop_last();
    lemma_pools_size(init, expanded);
    if k == pools.len() - 1 {
        assert(pools.take(k) =~= init);
    } else {
        lemma_pool_at(init, expanded, k);
        assert(init.take(k) =~= pools.take(k));
        assert(init[k] == pools[k]);
        let whole = rows::pool_rows(pools, expanded);
        let part = rows::rows_of_pool(k, pools[k], expanded);
        let at = pools_size(pools.take(k), expanded) as int;
        assert forall|j: int| 0 <= j < part.len() implies whole[at + j] == #[trigger] part[j] by {
            assert(rows::pool_rows(init, expanded)[at + j] == part[j]);
        }
    }
}

/// Every row lies among the rows of some pool.
proof fn lemma_owner(pools: Seq<PoolInfo>, expanded: Set<Seq<char>>, i: int) -> (k: int)
    requires
        0 <= i < rows::pool_rows(pools, expanded).len(),
    ensures
        0 <= k < pools.len(),
        pools_size(pools.take(k), expanded) <= i < pools_size(pools.take(k), expanded)
            + rows::rows_of_pool(k, pools[k], expanded).len(),
    decreases pools.len(),
{
    let init = pools.drop_last();
    lemma_pools_size(init, expanded);
    if i < rows::pool_rows(init, expanded).len() {
        let k = lemma_owner(init, expanded, i);
        assert(init.take(k) =~= pools.take(k));
        assert(init[k] == pools[k]);
        k
    } else {
        assert(pools.take(pools.len() - 1) =~= init);
        pools.len() - 1
    }
}

/// Where the rows of `out` and of `r` agree, they lie equally deep.
proof fn lemma_shown_depth(out: Seq<VisibleRow<'_>>, r: Seq<PoolRow>, pools: Seq<PoolInfo>, i: int)
    requires
        rows::shows_all(out, r, pools),
        0 <= i < r.len(),
    ensures
        depth_of(out[i]) == depth_in(r[i]),
        r[i].vdev matches Some((node, d)) ==> out[i] matches VisibleRow::Vdev {
            node: n,
            depth: e,
        } && *n == node && e == d,
        r[i].vdev is None ==> out[i] is Pool,
{
    assert(rows::shows(out[i], r[i], pools));
}

proof fn lemma_follow(
    out: Seq<VisibleRow<'_>>,
    r: Seq<PoolRow>,
    pools: Seq<PoolInfo>,
    pool: int,
    i: int,
    depth: nat,
)
    requires
        rows::shows_all(out, r, pools),
        0 <= i < r.len(),
        depth == depth_of(out[i]) + 1,
        holds_at(r, i + 1, rows::forest_rows(pool, children_of(out[i]), depth)),
    ensures
        children_follow(out, i),
{
    let s = children_of(out[i]);
    let below = rows::forest_rows(pool, s, depth);
    assert forall|j: int| 0 <= j < s.len() implies {
        let k = i + 1 + forest_size(#[trigger] s.take(j));
        &&& k < out.len()
        &&& out[k] matches VisibleRow::Vdev { node, depth: d } && *node == s[j] && d == depth_of(
            out[i],
        ) + 1
    } by {
        lemma_at_each(pool, s, depth, j);
        let at = forest_size(s.take(j)) as int;
        let part = rows::vdev_rows(pool, s[j], depth);
        assert(part[0].vdev == Some((s[j], depth)));
        assert(below[at + 0] == part[0]);
        assert(r[i + 1 + at] == below[at]);
        lemma_shown_depth(out, r, pools, i + 1 + at);
    }
}

proof fn lemma_head_shown(
    out: Seq<VisibleRow<'_>>,
    pools: Seq<PoolInfo>,
    expanded: Set<Seq<char>>,
    k: int,
)
    requires
        rows::shows_all(out, rows::pool_rows(pools, expanded), pools),
        0 <= k < pools.len(),
    ensures
        pools_size(pools.take(k), expanded) < out.len(),
        out[pools_size(pools.take(k), expanded) as int] matches VisibleRow::Pool(p) && *p
            == pools[k],
        expanded.contains(pools[k].name@) ==> children_follow(
            out,
            pools_size(pools.take(k), expanded) as int,
        ),
{
    let r = rows::pool_rows(pools, expanded);
    let at = pools_size(pools.take(k), expanded) as int;
    let part = rows::rows_of_pool(k, pools[k], expanded);
    lemma_pool_at(pools, expanded, k);
    assert(r[at + 0] == part[0]);
    assert(rows::shows(out[at], r[at], pools));
    if expanded.contains(pools[k].name@) {
        let below = rows::forest_rows(k, pools[k].root_vdev.children@, 1);
        assert forall|j: int| 0 <= j < below.len() implies r[at + 1 + j] == #[trigger] below[j] by {
            assert(part[j + 1] == below[j]);
            assert(r[at + (j + 1)] == part[j + 1]);
        }
        lemma_follow(out, r, pools, k, at, 1);
    }
}

proof fn lemma_vdev_shown(
    out: Seq<VisibleRow<'_>>,
    pools: Seq<PoolInfo>,
    expanded: Set<Seq<char>>,
    i: int,
)
    requires
        rows::shows_all(out, rows::pool_rows(pools, expanded), pools),
        0 <= i < out.len(),
        out[i] is Vdev,
    ensures
        children_follow(out, i),
        exists|p: int| hangs_below(out, p, i),
{
    let r = rows::pool_rows(pools, expanded);
    let k = lemma_owner(pools, expanded, i);
    let at = pools_size(pools.take(k), expanded) as int;
    let part = rows::rows_of_pool(k, pools[k], expanded);
    let top = pools[k].root_vdev.children@;
    let below = rows::forest_rows(k, top, 1);
    lemma_pool_at(pools, expanded, k);
    assert(rows::shows(out[i], r[i], pools));
    assert(r[at + (i - at)] == part[i - at]);
    assert(r[at + 0] == part[0]);
    assert(i > at && expanded.contains(pools[k].name@));
    assert forall|j: int| 0 <= j < below.len() implies r[at + 1 + j] == #[trigger] below[j] by {
        assert(part[j + 1] == below[j]);
        assert(r[at + (j + 1)] == part[j + 1]);
    }
    assert(rows::shows(out[at], r[at], pools));
    lemma_vdev_within(out, r, pools, k, at, i);
}

proof fn lemma_vdev_within(
    out: Seq<VisibleRow<'_>>,
    r: Seq<PoolRow>,
    pools: Seq<PoolInfo>,
    k: int,
    at: int,
    i: int,
)
    requires
        rows::shows_all(out, r, pools),
        0 <= k < pools.len(),
        0 <= at < i < r.len(),
        out[at] matches VisibleRow::Pool(p) && *p == pools[k],
        holds_at(r, at + 1, rows::forest_rows(k, pools[k].root_vdev.children@, 1)),
        i <= at + rows::forest_rows(k, pools[k].root_vdev.children@, 1).len(),
    ensures
        children_follow(out, i),
        exists|p: int| hangs_below(out, p, i),
{
    let top = pools[k].root_vdev.children@;
    let below = rows::forest_rows(k, top, 1);
    let m = i - at - 1;
    lemma_forest_blocks(k, top, 1, m);
    lemma_forest_placed(k, top, 1, m);
    let (node, d) = below[m].vdev->0;
    assert(r[at + 1 + m] == below[m]);
    lemma_shown_depth(out, r, pools, i);
    let block = rows::vdev_rows(k, node, d);
    let kids = rows::forest_rows(k, node.children@, d + 1);
    assert forall|j: int| 0 <= j < kids.len() implies r[i + 1 + j] == #[trigger] kids[j] by {
        assert(block[j + 1] == kids[j]);
        assert(below[m + (j + 1)] == block[j + 1]);
        assert(r[at + 1 + (m + (j + 1))] == below[m + (j + 1)]);
    }
    lemma_follow(out, r, pools, k, i, d + 1);
    if d == 1 {
        assert forall|x: int| at < x < i implies depth_of(#[trigger] out[x]) >= d by {
            lemma_forest_placed(k, top, 1, x - at - 1);
            assert(r[at + 1 + (x - at - 1)] == below[x - at - 1]);
            lemma_shown_depth(out, r, pools, x);
        }
        assert(hangs_below(out, at, i));
    } else {
        let p = choose|p: int| #[trigger] hung(below, p, m);
        let q = at + 1 + p;
        assert(r[at + 1 + p] == below[p]);
        lemma_shown_depth(out, r, pools, q);
        assert forall|x: int| q < x < i implies depth_of(#[trigger] out[x]) >= d by {
            assert(depth_in(below[x - at - 1]) >= d);
            assert(r[at + 1 + (x - at - 1)] == below[x - at - 1]);
            lemma_shown_depth(out, r, pools, x);
        }
        assert(hangs_below(out, q, i));
    }
}

/// The rows are laid out as a tree: each pool behind the pools before it and what they show;
/// below an expanded pool its topmost vdevs, one deeper than the pool, and below each vdev its
/// children, one deeper than the vdev. The nearest row above a vdev that lies less deep is that
/// of its parent. Nothing else is listed.
pub open spec fn laid_out(
    r: Seq<VisibleRow<'_>>,
    pools: Seq<PoolInfo>,
    expanded: Set<Seq<char>>,
) -> bool {
    &&& r.len() == pools_size(pools, expanded)
    &&& forall|k: int|
        0 <= k < pools.len() ==> {
            let at = pools_size(#[trigger] pools.take(k), expanded) as int;
            &&& at < r.len()
            &&& r[at] matches VisibleRow::Pool(p) && *p == pools[k]
            &&& expanded.contains(pools[k].name@) ==> children_follow(r, at)
        }
    &&& forall|i: int| 0 <= i < r.len() && #[trigger] r[i] is Vdev ==> children_follow(r, i)
    &&& forall|i: int|
        0 <= i < r.len() && #[trigger] r[i] is Vdev ==> exists|p: int| hangs_below(r, p, i)
}

/// The rows that stand for the visible rows of the pools are laid out as a tree.
pub proof fn visible_rows_are_laid_out(
    r: Seq<VisibleRow<'_>>,
    pools: Seq<PoolInfo>,
    expanded: Set<Seq<char>>,
)
    requires
        rows::shows_all(r, rows::pool_rows(pools, expanded), pools),
    ensures
        laid_out(r, pools, expanded),
{
    lemma_pools_size(pools, expanded);
    assert forall|k: int| 0 <= k < pools.len() implies {
        let at = pools_size(#[trigger] pools.take(k), expanded) as int;
        &&& at < r.len()
        &&& r[at] matches VisibleRow::Pool(p) && *p == pools[k]
        &&& expanded.contains(pools[k].name@) ==> children_follow(r, at)
    } by {
        lemma_head_shown(r, pools, expanded, k);
    }
    assert forall|i: int| 0 <= i < r.len() && #[trigger] r[i] is Vdev implies children_follow(r, i)
        && exists|p: int| hangs_below(r, p, i) by {
        lemma_vdev_shown(r, pools, expanded, i);
    }
}

/// `flatten_rows` lists the pools and their vdevs laid out as a tree.
pub proof fn rows_lie_below_their_parents<'a>(
    pools: &'a Vec<PoolInfo>,
    expanded: NameSet,
    r: Vec<VisibleRow<'a>>,
)
    requires
        call_ensures(rows::flatten_rows, (pools, &expanded), r),
    ensures
        laid_out(r@, pools@, expanded@),
{
    visible_rows_are_laid_out(r@, pools@, expanded@);
}

/// The topmost vdevs of a pool lie at depth 1, right below the row of the pool, and all others
/// deeper, one more than the vdev whose child they are.
pub proof fn depths_count_the_vdevs_above<'a>(
    pools: &'a Vec<PoolInfo>,
    expanded: NameSet,
    r: Vec<VisibleRow<'a>>,
    i: int,
)
    requires
        call_ensures(rows::flatten_rows, (pools, &expanded), r),
        0 <= i < r@.len(),
        r@[i] is Vdev,
    ensures
        depth_of(r@[i]) == 1 ==> exists|p: int| hangs_below(r@, p, i) && r@[p] is Pool,
        depth_of(r@[i]) != 1 ==> exists|p: int|
            hangs_below(r@, p, i) && r@[p] is Vdev && depth_of(r@[p]) >= 1,
{
    visible_rows_are_laid_out(r@, pools@, expanded@);
    let p = choose|p: int| hangs_below(r@, p, i);
    if r@[p] is Vdev {
        let q = choose|q: int| hangs_below(r@, q, p);
        assert(depth_of(r@[p]) == depth_of(r@[q]) + 1);
    }
    assert(hangs_below(r@, p, i));
}

/// The keys of the rows tell pools from vdevs and whose vdevs they are: the key of each pool
/// stands behind those of the pools before it, and up to the next pool come those of its vdevs.
pub proof fn keys_tell_pools_from_vdevs(pools: Vec<PoolInfo>, expanded: NameSet, r: Vec<RowKey>)
    requires
        call_ensures(rows::row_keys, (&pools, &expanded), r),
    ensures
        r@.len() == pools_size(pools@, expanded@),
        forall|k: int, i: int|
            0 <= k < pools@.len() && pools_size(#[trigger] pools@.take(k), expanded@) <= i
                < pools_size(pools@.take(k + 1), expanded@) ==> (#[trigger] r@[i]).pool == k
                && r@[i].head == (i == pools_size(pools@.take(k), expanded@)),
{
    let all = rows::pool_rows(pools@, expanded@);
    lemma_pools_size(pools@, expanded@);
    assert forall|k: int, i: int|
        0 <= k < pools@.len() && pools_size(#[trigger] pools@.take(k), expanded@) <= i < pools_size(
            pools@.take(k + 1),
            expanded@,
        ) implies (#[trigger] r@[i]).pool == k && r@[i].head == (i == pools_size(
        pools@.take(k),
        expanded@,
    )) by {
        let at = pools_size(pools@.take(k), expanded@) as int;
        let part = rows::rows_of_pool(k, pools@[k], expanded@);
        assert(pools@.take(k + 1).drop_last() =~= pools@.take(k));
        lemma_pool_at(pools@, expanded@, k);
        let below = rows::forest_rows(k, pools@[k].root_vdev.children@, 1);
        lemma_sizes(k, pools@[k].root_vdev.children@, 1);
        assert(all[at + (i - at)] == part[i - at]);
        if i > at {
            lemma_forest_placed(k, pools@[k].root_vdev.children@, 1, i - at - 1);
            assert(part[i - at] == below[i - at - 1]);
        }
        rows::rows_in_range(pools@, expanded@);
        lemma_forest_pools(k, pools@[k].root_vdev.children@, 1);
    }
}

proof fn lemma_forest_pools(pool: int, s: Seq<VdevNode>, depth: nat)
    ensures
        forall|i: int|
            0 <= i < rows::forest_rows(pool, s, depth).len() ==> (#[trigger] rows::forest_rows(
                pool,
                s,
                depth,
            )[i]).pool == pool,
    decreases s, 1int,
{
    if s.len() > 0 {
        lemma_forest_pools(pool, s.drop_last(), depth);
        lemma_forest_pools_below(pool, s.last(), depth);
    }
}

proof fn lemma_forest_pools_below(pool: int, node: VdevNode, depth: nat)
    ensures
        forall|i: int|
            0 <= i < rows::vdev_rows(pool, node, depth).len() ==> (#[trigger] rows::vdev_rows(
                pool,
                node,
                depth,
            )[i]).pool == pool,
    decreases node, 0int,
{
    lemma_forest_pools(pool, node.children@, depth + 1);
}

} // verus!
