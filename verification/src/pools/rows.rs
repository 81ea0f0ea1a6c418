//! The rows of the pools tree: each pool, and below an expanded pool all its vdevs.
use vstd::prelude::*;

use crate::names::NameSet;
use crate::pools::types::{PoolInfo, VdevNode};

verus! {

/// One row: that of the pool at index `pool`, or of a vdev of that pool, at its depth.
pub ghost struct PoolRow {
    pub pool: int,
    pub vdev: Option<(VdevNode, nat)>,
}

/// The row of a vdev, then those of all vdevs below it.
pub open spec fn vdev_rows(pool: int, node: VdevNode, depth: nat) -> Seq<PoolRow>
    decreases node,
{
    seq![PoolRow { pool, vdev: Some((node, depth)) }] + forest_rows(
        pool,
        node.children@,
        depth + 1,
    )
}

/// The rows of all vdevs of `s`, one after another.
pub open spec fn forest_rows(pool: int, s: Seq<VdevNode>, depth: nat) -> Seq<PoolRow>
    decreases s,
{
    if s.len() == 0 {
        Seq::empty()
    } else {
        forest_rows(pool, s.drop_last(), depth) + vdev_rows(pool, s.last(), depth)
    }
}

/// The rows of one pool.
pub open spec fn rows_of_pool(pool: int, p: PoolInfo, expanded: Set<Seq<char>>) -> Seq<PoolRow> {
    seq![PoolRow { pool, vdev: None }] + if expanded.contains(p.name@) {
        forest_rows(pool, p.root_vdev.children@, 1)
    } else {
        Seq::empty()
    }
}

/// The rows of all pools, in order.
pub open spec fn pool_rows(pools: Seq<PoolInfo>, expanded: Set<Seq<char>>) -> Seq<PoolRow>
    decreases pools.len(),
{
    if pools.len() == 0 {
        Seq::empty()
    } else {
        pool_rows(pools.drop_last(), expanded) + rows_of_pool(
            pools.len() - 1,
            pools.last(),
            expanded,
        )
    }
}

/// The rows of the first `n` trees come first among the rows of all of them.
proof fn lemma_forest_prefix(pool: int, s: Seq<VdevNode>, depth: nat, n: int)
    requires
        0 <= n <= s.len(),
    ensures
        forest_rows(pool, s.take(n), depth).is_prefix_of(forest_rows(pool, s, depth)),
    decreases s.len(),
{
    if n == s.len() {
        assert(s.take(n) =~= s);
        assert(forest_rows(pool, s, depth) =~= forest_rows(pool, s, depth).take(
            forest_rows(pool, s, depth).len() as int,
        ));
    } else {
        let init = s.drop_last();
        lemma_forest_prefix(pool, init, depth, n);
        assert(init.take(n) =~= s.take(n));
        let a = forest_rows(pool, s.take(n), depth);
        let b = forest_rows(pool, init, depth);
        let c = forest_rows(pool, s, depth);
        assert(c.take(b.len() as int) =~= b);
        assert(c.take(a.len() as int) =~= b.take(a.len() as int));
    }
}

/// The rows of the first `n + 1` trees are those of the first `n`, then those of the next.
proof fn lemma_forest_step(pool: int, s: Seq<VdevNode>, depth: nat, n: int)
    requires
        0 <= n < s.len(),
    ensures
        forest_rows(pool, s.take(n + 1), depth) == forest_rows(pool, s.take(n), depth) + vdev_rows(
            pool,
            s[n],
            depth,
        ),
{
    assert(s.take(n + 1).drop_last() =~= s.take(n));
}

/// The rows of the first `n` pools come first among the rows of all of them.
pub proof fn pool_rows_prefix(pools: Seq<PoolInfo>, expanded: Set<Seq<char>>, n: int)
    requires
        0 <= n <= pools.len(),
    ensures
        pool_rows(pools.take(n), expanded).is_prefix_of(pool_rows(pools, expanded)),
    decreases pools.len(),
{
    if n == pools.len() {
        assert(pools.take(n) =~= pools);
        assert(pool_rows(pools, expanded) =~= pool_rows(pools, expanded).take(
            pool_rows(pools, expanded).len() as int,
        ));
    } else {
        let init = pools.drop_last();
        pool_rows_prefix(init, expanded, n);
        assert(init.take(n) =~= pools.take(n));
        let a = pool_rows(pools.take(n), expanded);
        let b = pool_rows(init, expanded);
        let c = pool_rows(pools, expanded);
        assert(c.take(b.len() as int) =~= b);
        assert(c.take(a.len() as int) =~= b.take(a.len() as int));
    }
}

/// One visible row of the pools tree. `depth` is 1 for the topmost vdevs of a pool.
pub enum VisibleRow<'a> {
    Pool(&'a PoolInfo),
    Vdev { node: &'a VdevNode, depth: u8 },
}

/// `row` shows what `m` stands for.
pub open spec fn shows(row: VisibleRow<'_>, m: PoolRow, pools: Seq<PoolInfo>) -> bool {
    match row {
        VisibleRow::Pool(p) => m.vdev is None && 0 <= m.pool < pools.len() && *p == pools[m.pool],
        VisibleRow::Vdev { node, depth } => m.vdev == Some((*node, depth as nat)),
    }
}

/// Row by row, `out` shows what `rows` stands for.
pub open spec fn shows_all(
    out: Seq<VisibleRow<'_>>,
    rows: Seq<PoolRow>,
    pools: Seq<PoolInfo>,
) -> bool {
    out.len() == rows.len() && forall|i: int|
        0 <= i < rows.len() ==> shows(#[trigger] out[i], rows[i], pools)
}

/// No row lies deeper than 255.
pub open spec fn depths_fit(rows: Seq<PoolRow>) -> bool {
    forall|i: int|
        0 <= i < rows.len() ==> ((#[trigger] rows[i]).vdev matches Some((_, d)) ==> d <= u8::MAX)
}

/// Appends the row of a vdev, then those of all vdevs below it.
pub fn push_vdev_row<'a>(node: &'a VdevNode, depth: u8, out: &mut Vec<VisibleRow<'a>>)
    requires
        depths_fit(vdev_rows(0, *node, depth as nat)),
    ensures
        old(out)@.is_prefix_of(final(out)@),
        forall|pool: int, pools: Seq<PoolInfo>| #[trigger]
            shows_all(
                final(out)@.skip(old(out)@.len() as int),
                vdev_rows(pool, *node, depth as nat),
                pools,
            ),
    decreases node,
{
    let ghost start = out@;
    let ghost n0: int = start.len() as int;
    let ghost kids = node.children@;
    let ghost below = (depth + 1) as nat;
    out.push(VisibleRow::Vdev { node, depth });
    let mut i: usize = 0;
    assert(kids.take(0) =~= Seq::empty());
    assert(start =~= out@.take(n0));
    while i < node.children.len()
        invariant
            i <= node.children.len(),
            kids == node.children@,
            below == depth + 1,
            depths_fit(vdev_rows(0, *node, depth as nat)),
            n0 == start.len(),
            out@.len() > n0,
            start.is_prefix_of(out@),
            out@[n0] == (VisibleRow::Vdev { node, depth }),
            forall|pool: int, pools: Seq<PoolInfo>| #[trigger]
                shows_all(
                    out@.skip(n0 + 1),
                    forest_rows(pool, kids.take(i as int), below),
                    pools,
                ),
        decreases node.children.len() - i,
    {
        let ghost before = out@;
        proof {
            let all = vdev_rows(0, *node, depth as nat);
            let part = forest_rows(0, kids.take(i + 1), below);
            let sub = vdev_rows(0, kids[i as int], below);
            lemma_forest_step(0, kids, below, i as int);
            lemma_forest_prefix(0, kids, below, i + 1);
            let whole = forest_rows(0, kids, below);
            let skip = forest_rows(0, kids.take(i as int), below).len();
            assert forall|j: int| 0 <= j < sub.len() implies all[1 + skip + j] == #[trigger] sub[j] by {
                assert(part[skip + j] == sub[j]);
                assert(whole.take(part.len() as int)[skip + j] == part[skip + j]);
            }
            assert(depths_fit(sub));
            assert(sub[0].vdev == Some((kids[i as int], below)));
            assert(all[(1 + skip) as int] == sub[0]);
        }
        push_vdev_row(&node.children[i], depth + 1, out);
        proof {
            assert(out@.take(before.len() as int)[n0] == before[n0]);
            assert(start =~= out@.take(n0)) by {
                assert(before =~= out@.take(before.len() as int));
            }
            assert forall|pool: int, pools: Seq<PoolInfo>| #[trigger]
                shows_all(
                    out@.skip(n0 + 1),
                    forest_rows(pool, kids.take(i + 1), below),
                    pools,
                ) by {
                lemma_forest_step(pool, kids, below, i as int);
                let a = before.skip(n0 + 1);
                let b = out@.skip(before.len() as int);
                assert(shows_all(a, forest_rows(pool, kids.take(i as int), below), pools));
                assert(shows_all(b, vdev_rows(pool, kids[i as int], below), pools));
                let c = out@.skip(n0 + 1);
                assert(c =~= a + b) by {
                    assert(out@ =~= before + b);
                }
            }
        }
        i = i + 1;
    }
    proof {
        assert(kids.take(i as int) =~= kids);
        assert forall|pool: int, pools: Seq<PoolInfo>| #[trigger]
            shows_all(out@.skip(n0), vdev_rows(pool, *node, depth as nat), pools) by {
            let a = out@.skip(n0 + 1);
            assert(shows_all(a, forest_rows(pool, kids, below), pools));
            let c = out@.skip(n0);
            assert(c =~= seq![out@[n0]] + a);
        }
    }
}

/// The rows of the first `n + 1` pools are those of the first `n`, then those of the next.
proof fn lemma_pools_step(pools: Seq<PoolInfo>, expanded: Set<Seq<char>>, n: int)
    requires
        0 <= n < pools.len(),
    ensures
        pool_rows(pools.take(n + 1), expanded) == pool_rows(pools.take(n), expanded) + rows_of_pool(
            n,
            pools[n],
            expanded,
        ),
{
    assert(pools.take(n + 1).drop_last() =~= pools.take(n));
}

/// The visible rows of all pools, in order.
pub fn flatten_rows<'a>(pools: &'a Vec<PoolInfo>, expanded: &NameSet) -> (r: Vec<VisibleRow<'a>>)
    requires
        depths_fit(pool_rows(pools@, expanded@)),
    ensures
        shows_all(r@, pool_rows(pools@, expanded@), pools@),
{
    let mut out: Vec<VisibleRow<'a>> = Vec::new();
    let ghost names = expanded@;
    let mut i: usize = 0;
    assert(pools@.take(0) =~= Seq::empty());
    while i < pools.len()
        invariant
            i <= pools.len(),
            names == expanded@,
            depths_fit(pool_rows(pools@, names)),
            shows_all(out@, pool_rows(pools@.take(i as int), names), pools@),
        decreases pools.len() - i,
    {
        let ghost before = out@;
        let pool: &'a PoolInfo = &pools[i];
        proof {
            lemma_pools_step(pools@, names, i as int);
            pool_rows_prefix(pools@, names, i + 1);
        }
        let ghost done = pool_rows(pools@.take(i as int), names);
        let ghost next = pool_rows(pools@.take(i + 1), names);
        out.push(VisibleRow::Pool(pool));
        let ghost headed = out@;
        if expanded.contains(pool.name.as_str()) {
            let ghost kids = pool.root_vdev.children@;
            let mut j: usize = 0;
            assert(kids.take(0) =~= Seq::empty());
            assert(headed.skip(headed.len() as int) =~= Seq::empty());
            while j < pool.root_vdev.children.len()
                invariant
                    j <= pool.root_vdev.children.len(),
                    kids == pool.root_vdev.children@,
                    i < pools.len(),
                    *pool == pools@[i as int],
                    names == expanded@,
                    names.contains(pool.name@),
                    depths_fit(pool_rows(pools@, names)),
                    next == done + rows_of_pool(i as int, *pool, names),
                    next.is_prefix_of(pool_rows(pools@, names)),
                    headed.is_prefix_of(out@),
                    shows_all(
                        out@.skip(headed.len() as int),
                        forest_rows(i as int, kids.take(j as int), 1),
                        pools@,
                    ),
                decreases pool.root_vdev.children.len() - j,
            {
                let ghost mid = out@;
                proof {
                    lemma_forest_step(i as int, kids, 1, j as int);
                    lemma_forest_prefix(i as int, kids, 1, j + 1);
                    lemma_rows_alike(i as int, 0, kids[j as int], 1);
                    let part = forest_rows(i as int, kids.take(j + 1), 1);
                    let sub = vdev_rows(i as int, kids[j as int], 1);
                    let whole = forest_rows(i as int, kids, 1);
                    let skip = forest_rows(i as int, kids.take(j as int), 1).len();
                    let all = pool_rows(pools@, names);
                    assert forall|k: int| 0 <= k < sub.len() implies all[done.len() + 1 + skip + k]
                        == #[trigger] sub[k] by {
                        assert(part[skip + k] == sub[k]);
                        assert(whole.take(part.len() as int)[skip + k] == part[skip + k]);
                        assert(next[done.len() + 1 + skip + k] == whole[skip + k]);
                        assert(all.take(next.len() as int)[done.len() + 1 + skip + k]
                            == next[done.len() + 1 + skip + k]);
                    }
                    let sub0 = vdev_rows(0, kids[j as int], 1);
                    assert forall|k: int| 0 <= k < sub0.len() implies ((#[trigger] sub0[k]).vdev matches Some((_, d))
                        ==> d <= u8::MAX) by {
                        assert(sub0[k].vdev == sub[k].vdev);
                    }
                }
                push_vdev_row(&pool.root_vdev.children[j], 1, &mut out);
                proof {
                    let a = mid.skip(headed.len() as int);
                    let b = out@.skip(mid.len() as int);
                    assert(shows_all(b, vdev_rows(i as int, kids[j as int], 1), pools@));
                    assert(out@ =~= mid + b);
                    assert(out@.skip(headed.len() as int) =~= a + b);
                    assert(headed =~= out@.take(headed.len() as int)) by {
                        assert(headed =~= mid.take(headed.len() as int));
                    }
                }
                j = j + 1;
            }
            proof {
                assert(kids.take(j as int) =~= kids);
                let b = out@.skip(headed.len() as int);
                assert(out@ =~= headed + b);
            }
        }
        i = i + 1;
    }
    assert(pools@.take(i as int) =~= pools@);
    out
}

/// The rows of a vdev differ from pool to pool in the pool only.
proof fn lemma_rows_alike(a: int, b: int, node: VdevNode, depth: nat)
    ensures
        vdev_rows(a, node, depth).len() == vdev_rows(b, node, depth).len(),
        forall|i: int|
            0 <= i < vdev_rows(a, node, depth).len() ==> (#[trigger] vdev_rows(a, node, depth)[i]).vdev
                == vdev_rows(b, node, depth)[i].vdev,
    decreases node, 0int,
{
    lemma_forests_alike(a, b, node.children@, depth + 1);
    let x = vdev_rows(a, node, depth);
    let y = vdev_rows(b, node, depth);
    assert forall|i: int| 0 <= i < x.len() implies (#[trigger] x[i]).vdev == y[i].vdev by {
        if i > 0 {
            assert(x[i] == forest_rows(a, node.children@, depth + 1)[i - 1]);
            assert(y[i] == forest_rows(b, node.children@, depth + 1)[i - 1]);
        }
    }
}

proof fn lemma_forests_alike(a: int, b: int, s: Seq<VdevNode>, depth: nat)
    ensures
        forest_rows(a, s, depth).len() == forest_rows(b, s, depth).len(),
        forall|i: int|
            0 <= i < forest_rows(a, s, depth).len() ==> (#[trigger] forest_rows(a, s, depth)[i]).vdev
                == forest_rows(b, s, depth)[i].vdev,
    decreases s, 1int,
{
    if s.len() > 0 {
        lemma_forests_alike(a, b, s.drop_last(), depth);
        lemma_rows_alike(a, b, s.last(), depth);
        let n = forest_rows(a, s.drop_last(), depth).len();
        let x = forest_rows(a, s, depth);
        let y = forest_rows(b, s, depth);
        assert forall|i: int| 0 <= i < x.len() implies (#[trigger] x[i]).vdev == y[i].vdev by {
            if i < n {
                assert(x[i] == forest_rows(a, s.drop_last(), depth)[i]);
                assert(y[i] == forest_rows(b, s.drop_last(), depth)[i]);
            } else {
                assert(x[i] == vdev_rows(a, s.last(), depth)[i - n]);
                assert(y[i] == vdev_rows(b, s.last(), depth)[i - n]);
            }
        }
    }
}

/// Which pool a row belongs to, and whether it is that pool's own row.
#[derive(Copy, Clone, Debug, PartialEq, Eq, Structural)]
pub struct RowKey {
    pub pool: usize,
    pub head: bool,
}

/// Row by row, `keys` tells the pools of `rows`.
pub open spec fn keys_match(keys: Seq<RowKey>, rows: Seq<PoolRow>) -> bool {
    keys.len() == rows.len() && forall|i: int|
        0 <= i < rows.len() ==> (#[trigger] keys[i]).pool == rows[i].pool && keys[i].head
            == (rows[i].vdev is None)
}

/// Appends a key for a vdev, then one for each vdev below it.
fn push_vdev_keys(node: &VdevNode, pool: usize, out: &mut Vec<RowKey>)
    ensures
        old(out)@.is_prefix_of(final(out)@),
        forall|depth: nat| #[trigger]
            keys_match(
                final(out)@.skip(old(out)@.len() as int),
                vdev_rows(pool as int, *node, depth),
            ),
    decreases node, 0int,
{
    let ghost start = out@;
    let key: RowKey = RowKey { pool, head: false };
    out.push(key);
    let ghost mid = out@;
    push_forest_keys(&node.children, pool, out);
    proof {
        let n0: int = start.len() as int;
        assert(start =~= out@.take(n0)) by {
            assert(start =~= mid.take(n0));
        }
        assert(out@.take(mid.len() as int)[n0] == mid[n0]);
        assert forall|depth: nat| #[trigger]
            keys_match(out@.skip(n0), vdev_rows(pool as int, *node, depth)) by {
            let a = out@.skip(mid.len() as int);
            assert(keys_match(a, forest_rows(pool as int, node.children@, depth + 1)));
            assert(out@.skip(n0) =~= seq![key] + a);
        }
    }
}

/// Appends a key for each vdev of `nodes` and for each below them.
fn push_forest_keys(nodes: &Vec<VdevNode>, pool: usize, out: &mut Vec<RowKey>)
    ensures
        old(out)@.is_prefix_of(final(out)@),
        forall|depth: nat| #[trigger]
            keys_match(
                final(out)@.skip(old(out)@.len() as int),
                forest_rows(pool as int, nodes@, depth),
            ),
    decreases nodes@, 1int,
{
    let ghost start = out@;
    let ghost n0: int = start.len() as int;
    let mut i: usize = 0;
    proof {
        assert(nodes@.take(0) =~= Seq::empty());
        assert(start =~= out@.take(n0));
        assert(out@.skip(n0) =~= Seq::empty());
    }
    while i < nodes.len()
        invariant
            i <= nodes.len(),
            n0 == start.len(),
            start.is_prefix_of(out@),
            forall|depth: nat| #[trigger]
                keys_match(out@.skip(n0), forest_rows(pool as int, nodes@.take(i as int), depth)),
        decreases nodes.len() - i,
    {
        let ghost before = out@;
        push_vdev_keys(&nodes[i], pool, out);
        proof {
            assert(start =~= out@.take(n0)) by {
                assert(start =~= before.take(n0));
            }
            assert forall|depth: nat| #[trigger]
                keys_match(out@.skip(n0), forest_rows(pool as int, nodes@.take(i + 1), depth)) by {
                lemma_forest_step(pool as int, nodes@, depth, i as int);
                let a = before.skip(n0);
                let b = out@.skip(before.len() as int);
                assert(keys_match(a, forest_rows(pool as int, nodes@.take(i as int), depth)));
                assert(keys_match(b, vdev_rows(pool as int, nodes@[i as int], depth)));
                assert(out@ =~= before + b);
                assert(out@.skip(n0) =~= a + b);
            }
        }
        i = i + 1;
    }
    assert(nodes@.take(i as int) =~= nodes@);
}

/// The keys of all visible rows, in order.
pub fn row_keys(pools: &Vec<PoolInfo>, expanded: &NameSet) -> (r: Vec<RowKey>)
    ensures
        keys_match(r@, pool_rows(pools@, expanded@)),
{
    let mut out: Vec<RowKey> = Vec::new();
    let mut i: usize = 0;
    assert(pools@.take(0) =~= Seq::empty());
    while i < pools.len()
        invariant
            i <= pools.len(),
            keys_match(out@, pool_rows(pools@.take(i as int), expanded@)),
        decreases pools.len() - i,
    {
        proof {
            lemma_pools_step(pools@, expanded@, i as int);
        }
        let key: RowKey = RowKey { pool: i, head: true };
        out.push(key);
        if expanded.contains(pools[i].name.as_str()) {
            let ghost headed = out@;
            push_forest_keys(&pools[i].root_vdev.children, i, &mut out);
            proof {
                let b = out@.skip(headed.len() as int);
                assert(keys_match(b, forest_rows(i as int, pools@[i as int].root_vdev.children@, 1)));
                assert(out@ =~= headed + b);
            }
        }
        i = i + 1;
    }
    assert(pools@.take(i as int) =~= pools@);
    out
}

/// The pool row at or above row `i`.
pub open spec fn head_row(rows: Seq<PoolRow>, i: int) -> int
    decreases i,
{
    if i <= 0 || rows[i].vdev is None {
        i
    } else {
        head_row(rows, i - 1)
    }
}

/// The index of the first pool of that name.
pub open spec fn first_named(pools: Seq<PoolInfo>, name: Seq<char>) -> Option<int>
    decreases pools.len(),
{
    if pools.len() == 0 {
        None
    } else {
        match first_named(pools.drop_last(), name) {
            Some(i) => Some(i),
            None => if pools.last().name@ == name {
                Some(pools.len() - 1)
            } else {
                None
            },
        }
    }
}

/// The first row that shows the pool at index `pool` itself.
pub open spec fn pool_row(s: Seq<PoolRow>, pool: int) -> Option<int>
    decreases s.len(),
{
    if s.len() == 0 {
        None
    } else {
        match pool_row(s.drop_last(), pool) {
            Some(i) => Some(i),
            None => if s.last() == (PoolRow { pool, vdev: None }) {
                Some(s.len() - 1)
            } else {
                None
            },
        }
    }
}

/// Every row belongs to a pool that is there.
pub proof fn rows_in_range(pools: Seq<PoolInfo>, expanded: Set<Seq<char>>)
    ensures
        pool_rows(pools, expanded).len() >= pools.len(),
        pools.len() > 0 ==> pool_rows(pools, expanded)[0] == (PoolRow { pool: 0, vdev: None }),
        forall|i: int|
            0 <= i < pool_rows(pools, expanded).len() ==> 0 <= (#[trigger] pool_rows(
                pools,
                expanded,
            )[i]).pool < pools.len(),
    decreases pools.len(),
{
    if pools.len() > 0 {
        let init = pools.drop_last();
        rows_in_range(init, expanded);
        lemma_forest_pool(pools.len() - 1, pools.last().root_vdev.children@, 1);
    }
}

proof fn lemma_forest_pool(pool: int, s: Seq<VdevNode>, depth: nat)
    ensures
        forall|i: int|
            0 <= i < forest_rows(pool, s, depth).len() ==> (#[trigger] forest_rows(pool, s, depth)[i]).pool
                == pool && forest_rows(pool, s, depth)[i].vdev is Some,
    decreases s, 1int,
{
    if s.len() > 0 {
        lemma_forest_pool(pool, s.drop_last(), depth);
        lemma_vdev_pool(pool, s.last(), depth);
    }
}

proof fn lemma_vdev_pool(pool: int, node: VdevNode, depth: nat)
    ensures
        forall|i: int|
            0 <= i < vdev_rows(pool, node, depth).len() ==> (#[trigger] vdev_rows(pool, node, depth)[i]).pool
                == pool && vdev_rows(pool, node, depth)[i].vdev is Some,
    decreases node, 0int,
{
    lemma_forest_pool(pool, node.children@, depth + 1);
}

/// The pool row at or above a row is that of the row's own pool: from a vdev, going up to the
/// next pool row finds the pool that the vdev belongs to.
pub proof fn head_row_owns(pools: Seq<PoolInfo>, expanded: Set<Seq<char>>, i: int)
    requires
        0 <= i < pool_rows(pools, expanded).len(),
    ensures
        0 <= head_row(pool_rows(pools, expanded), i) <= i,
        pool_rows(pools, expanded)[head_row(pool_rows(pools, expanded), i)] == (PoolRow {
            pool: pool_rows(pools, expanded)[i].pool,
            vdev: None,
        }),
    decreases pools.len(), i,
{
    let rows = pool_rows(pools, expanded);
    let init = pool_rows(pools.drop_last(), expanded);
    let last = rows_of_pool(pools.len() - 1, pools.last(), expanded);
    lemma_forest_pool(pools.len() - 1, pools.last().root_vdev.children@, 1);
    if i < init.len() {
        head_row_owns(pools.drop_last(), expanded, i);
        lemma_head_row_prefix(init, rows, i);
        assert(rows[i] == init[i]);
        assert(rows[head_row(init, i)] == init[head_row(init, i)]);
    } else {
        assert(rows[i] == last[i - init.len()]);
        if i > init.len() {
            assert(rows[i - 1] == last[i - 1 - init.len()]);
            head_row_owns(pools, expanded, i - 1);
            assert(rows[i].vdev is Some);
        }
    }
}

proof fn lemma_head_row_prefix(a: Seq<PoolRow>, b: Seq<PoolRow>, i: int)
    requires
        0 <= i < a.len() <= b.len(),
        forall|j: int| 0 <= j < a.len() ==> a[j] == b[j],
    ensures
        head_row(a, i) == head_row(b, i),
    decreases i,
{
    if i > 0 && a[i].vdev is Some {
        lemma_head_row_prefix(a, b, i - 1);
    }
}

/// The more pools are expanded, the more rows are visible.
pub proof fn pool_rows_grow(pools: Seq<PoolInfo>, a: Set<Seq<char>>, b: Set<Seq<char>>)
    requires
        a.subset_of(b),
    ensures
        pool_rows(pools, a).len() <= pool_rows(pools, b).len(),
    decreases pools.len(),
{
    if pools.len() > 0 {
        pool_rows_grow(pools.drop_last(), a, b);
    }
}

/// Pools of other names show the same rows whether or not a pool of that name is expanded.
proof fn lemma_rows_unaffected(
    pools: Seq<PoolInfo>,
    a: Set<Seq<char>>,
    b: Set<Seq<char>>,
    name: Seq<char>,
)
    requires
        forall|n: Seq<char>| n != name ==> (#[trigger] a.contains(n) == b.contains(n)),
        forall|k: int| 0 <= k < pools.len() ==> (#[trigger] pools[k]).name@ != name,
    ensures
        pool_rows(pools, a) == pool_rows(pools, b),
    decreases pools.len(),
{
    if pools.len() > 0 {
        lemma_rows_unaffected(pools.drop_last(), a, b, name);
    }
}

/// The own row of the pool at index `k` comes right after all rows of the pools before it.
proof fn lemma_head_at(pools: Seq<PoolInfo>, expanded: Set<Seq<char>>, k: int)
    requires
        0 <= k < pools.len(),
    ensures
        pool_rows(pools.take(k), expanded).len() < pool_rows(pools, expanded).len(),
        pool_rows(pools, expanded)[pool_rows(pools.take(k), expanded).len() as int] == (PoolRow {
            pool: k,
            vdev: None,
        }),
{
    lemma_pools_step(pools, expanded, k);
    pool_rows_prefix(pools, expanded, k + 1);
    let a = pool_rows(pools.take(k), expanded);
    let b = pool_rows(pools.take(k + 1), expanded);
    let all = pool_rows(pools, expanded);
    assert(b[a.len() as int] == (PoolRow { pool: k, vdev: None }));
    assert(all.take(b.len() as int)[a.len() as int] == b[a.len() as int]);
}

/// A pool's own row stands right after all rows of the pools before it, and nowhere else.
pub proof fn own_row_once(pools: Seq<PoolInfo>, expanded: Set<Seq<char>>, i: int)
    requires
        0 <= i < pool_rows(pools, expanded).len(),
        pool_rows(pools, expanded)[i].vdev is None,
    ensures
        ({
            let k = pool_rows(pools, expanded)[i].pool;
            0 <= k < pools.len() && i == pool_rows(pools.take(k), expanded).len()
        }),
    decreases pools.len(),
{
    if pools.len() > 0 {
        let init = pools.drop_last();
        let a = pool_rows(init, expanded);
        let all = pool_rows(pools, expanded);
        lemma_forest_pool(pools.len() - 1, pools.last().root_vdev.children@, 1);
        if i < a.len() {
            assert(all[i] == a[i]);
            own_row_once(init, expanded, i);
            let k = all[i].pool;
            assert(init.take(k) =~= pools.take(k));
        } else {
            let own = rows_of_pool(pools.len() - 1, pools.last(), expanded);
            assert(all[i] == own[i - a.len()]);
            assert(pools.take(pools.len() - 1) =~= init);
        }
    }
}

/// Every pool has exactly one own row, and `pool_row` finds it.
pub proof fn pool_row_finds(pools: Seq<PoolInfo>, expanded: Set<Seq<char>>, k: int)
    ensures
        0 <= k < pools.len() ==> (pool_row(pool_rows(pools, expanded), k) matches Some(i) && 0 <= i
            < pool_rows(pools, expanded).len() && pool_rows(pools, expanded)[i] == (PoolRow {
            pool: k,
            vdev: None,
        }) && i == pool_rows(pools.take(k), expanded).len()),
        !(0 <= k < pools.len()) ==> pool_row(pool_rows(pools, expanded), k) is None,
{
    let all = pool_rows(pools, expanded);
    lemma_pool_row_first(all, k);
    if 0 <= k < pools.len() {
        lemma_head_at(pools, expanded, k);
        let i = pool_row(all, k)->0;
        own_row_once(pools, expanded, i);
    } else if pool_row(all, k) is Some {
        rows_in_range(pools, expanded);
        assert(all[pool_row(all, k)->0].pool == k);
    }
}

proof fn lemma_pool_row_first(s: Seq<PoolRow>, k: int)
    ensures
        match pool_row(s, k) {
            Some(i) => 0 <= i < s.len() && s[i] == (PoolRow { pool: k, vdev: None }),
            None => forall|j: int| 0 <= j < s.len() ==> #[trigger] s[j] != (PoolRow {
                pool: k,
                vdev: None,
            }),
        },
    decreases s.len(),
{
    if s.len() > 0 {
        lemma_pool_row_first(s.drop_last(), k);
        let init = s.drop_last();
        assert(forall|j: int| 0 <= j < init.len() ==> (#[trigger] s[j]) == init[j]);
    }
}

/// To expand or to collapse a pool leaves all rows above it, and its own, in place, if no pool
/// before it has the same name.
pub proof fn rows_above_stay(
    pools: Seq<PoolInfo>,
    a: Set<Seq<char>>,
    b: Set<Seq<char>>,
    k: int,
)
    requires
        0 <= k < pools.len(),
        forall|n: Seq<char>| n != pools[k].name@ ==> (#[trigger] a.contains(n) == b.contains(n)),
        forall|j: int| 0 <= j < k ==> (#[trigger] pools[j]).name@ != pools[k].name@,
    ensures
        ({
            let i = pool_rows(pools.take(k), a).len() as int;
            &&& i < pool_rows(pools, a).len()
            &&& i < pool_rows(pools, b).len()
            &&& pool_rows(pools, b).take(i + 1) == pool_rows(pools, a).take(i + 1)
        }),
{
    let head = pools.take(k);
    lemma_rows_unaffected(head, a, b, pools[k].name@);
    lemma_head_at(pools, a, k);
    lemma_head_at(pools, b, k);
    pool_rows_prefix(pools, a, k);
    pool_rows_prefix(pools, b, k);
    let i = pool_rows(head, a).len() as int;
    let ra = pool_rows(pools, a);
    let rb = pool_rows(pools, b);
    assert(ra.take(i) == rb.take(i));
    assert(rb.take(i + 1) =~= ra.take(i + 1)) by {
        assert forall|j: int| 0 <= j < i implies ra[j] == rb[j] by {
            assert(ra.take(i)[j] == rb.take(i)[j]);
        }
    }
}

/// A name that a pool has is found, at the first pool that has it.
pub proof fn first_named_is_first(pools: Seq<PoolInfo>, name: Seq<char>)
    ensures
        match first_named(pools, name) {
            Some(i) => 0 <= i < pools.len() && pools[i].name@ == name && forall|j: int|
                0 <= j < i ==> (#[trigger] pools[j]).name@ != name,
            None => forall|j: int| 0 <= j < pools.len() ==> (#[trigger] pools[j]).name@ != name,
        },
    decreases pools.len(),
{
    if pools.len() > 0 {
        first_named_is_first(pools.drop_last(), name);
        let init = pools.drop_last();
        assert(forall|j: int| 0 <= j < init.len() ==> (#[trigger] pools[j]) == init[j]);
    }
}

} // verus!
