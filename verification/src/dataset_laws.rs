//! Laws of the tree of datasets and of its rows.
use vstd::hash_set::StringHashSet;
use vstd::prelude::*;

use crate::datasets;
use crate::datasets::{DatasetNode, DatasetRow, LinkedRow};
use crate::names::NameSet;

verus! {

/// How many rows show `node` and what is visible below it.
pub open spec fn node_size(node: DatasetNode, expanded: Set<Seq<char>>) -> nat
    decreases node,
{
    1 + if expanded.contains(node.name@) {
        forest_size(node.children@, expanded)
    } else {
        0
    }
}

/// How many rows show the datasets of `s` and what is visible below them.
pub open spec fn forest_size(s: Seq<DatasetNode>, expanded: Set<Seq<char>>) -> nat
    decreases s,
{
    if s.len() == 0 {
        0
    } else {
        forest_size(s.drop_last(), expanded) + node_size(s.last(), expanded)
    }
}

/// Row `p` is the nearest above row `i` that lies less deep; it lies less deep by one, is that
/// of an expanded dataset, and has the dataset of row `i` among its children.
pub open spec fn hangs_below(
    out: Seq<(usize, &DatasetNode)>,
    p: int,
    i: int,
    expanded: Set<Seq<char>>,
) -> bool {
    &&& 0 <= p < i < out.len()
    &&& out[i].0 == out[p].0 + 1
    &&& forall|k: int| p < k < i ==> (#[trigger] out[k]).0 >= out[i].0
    &&& expanded.contains(out[p].1.name@)
    &&& out[p].1.children@.contains(*out[i].1)
}

proof fn lemma_sizes(s: Seq<DatasetNode>, depth: nat, expanded: Set<Seq<char>>)
    ensures
        datasets::forest_rows(s, depth, expanded).len() == forest_size(s, expanded),
    decreases s, 1int,
{
    if s.len() > 0 {
        lemma_sizes(s.drop_last(), depth, expanded);
        lemma_size(s.last(), depth, expanded);
    }
}

proof fn lemma_size(node: DatasetNode, depth: nat, expanded: Set<Seq<char>>)
    ensures
        datasets::node_rows(node, depth, expanded).len() == node_size(node, expanded),
    decreases node, 0int,
{
    lemma_sizes(node.children@, depth + 1, expanded);
}

/// As many rows are visible as there are roots, and children of visible expanded datasets.
pub proof fn rows_are_counted(roots: Seq<DatasetNode>, expanded: Set<Seq<char>>)
    ensures
        datasets::dataset_rows(roots, expanded).len() == forest_size(roots, expanded),
{
    lemma_sizes(roots, 0, expanded);
}

/// From row `at` on, the rows of `r` are those of `part`.
spec fn holds_at(r: Seq<DatasetRow>, at: int, part: Seq<DatasetRow>) -> bool {
    &&& 0 <= at
    &&& at + part.len() <= r.len()
    &&& forall|k: int| 0 <= k < part.len() ==> r[at + k] == #[trigger] part[k]
}

proof fn lemma_at_each(s: Seq<DatasetNode>, depth: nat, expanded: Set<Seq<char>>, j: int)
    requires
        0 <= j < s.len(),
    ensures
        holds_at(
            datasets::forest_rows(s, depth, expanded),
            forest_size(s.take(j), expanded) as int,
            datasets::node_rows(s[j], depth, expanded),
        ),
    decreases s.len(),
{
    let init = s.drop_last();
    lemma_sizes(init, depth, expanded);
    if j == s.len() - 1 {
        assert(s.take(j) =~= init);
    } else {
        lemma_at_each(init, depth, expanded, j);
        assert(init.take(j) =~= s.take(j));
        assert(init[j] == s[j]);
        let whole = datasets::forest_rows(s, depth, expanded);
        let part = datasets::node_rows(s[j], depth, expanded);
        let at = forest_size(s.take(j), expanded) as int;
        assert forall|k: int| 0 <= k < part.len() implies whole[at + k] == #[trigger] part[k] by {
            assert(datasets::forest_rows(init, depth, expanded)[at + k] == part[k]);
        }
    }
}

/// Every row of a forest is followed by all rows of its dataset.
proof fn lemma_forest_blocks(s: Seq<DatasetNode>, depth: nat, expanded: Set<Seq<char>>, i: int)
    requires
        0 <= i < datasets::forest_rows(s, depth, expanded).len(),
    ensures
        ({
            let row = datasets::forest_rows(s, depth, expanded)[i];
            holds_at(
                datasets::forest_rows(s, depth, expanded),
                i,
                datasets::node_rows(row.node, row.depth, expanded),
            )
        }),
    decreases s, 1int,
{
    let first = datasets::forest_rows(s.drop_last(), depth, expanded);
    let whole = datasets::forest_rows(s, depth, expanded);
    let sub = datasets::node_rows(s.last(), depth, expanded);
    let row = whole[i];
    let part = datasets::node_rows(row.node, row.depth, expanded);
    if i < first.len() {
        lemma_forest_blocks(s.drop_last(), depth, expanded, i);
        assert(first[i] == row);
        assert forall|k: int| 0 <= k < part.len() implies whole[i + k] == #[trigger] part[k] by {
            assert(first[i + k] == part[k]);
        }
    } else {
        lemma_node_blocks(s.last(), depth, expanded, i - first.len());
        assert(sub[i - first.len()] == row);
        assert forall|k: int| 0 <= k < part.len() implies whole[i + k] == #[trigger] part[k] by {
            assert(sub[i - first.len() + k] == part[k]);
        }
    }
}

proof fn lemma_node_blocks(top: DatasetNode, depth: nat, expanded: Set<Seq<char>>, i: int)
    requires
        0 <= i < datasets::node_rows(top, depth, expanded).len(),
    ensures
        ({
            let row = datasets::node_rows(top, depth, expanded)[i];
            holds_at(
                datasets::node_rows(top, depth, expanded),
                i,
                datasets::node_rows(row.node, row.depth, expanded),
            )
        }),
    decreases top, 0int,
{
    if i > 0 {
        let below = datasets::forest_rows(top.children@, depth + 1, expanded);
        let whole = datasets::node_rows(top, depth, expanded);
        lemma_forest_blocks(top.children@, depth + 1, expanded, i - 1);
        let row = below[i - 1];
        assert(whole[i] == row);
        let part = datasets::node_rows(row.node, row.depth, expanded);
        assert forall|k: int| 0 <= k < part.len() implies whole[i + k] == #[trigger] part[k] by {
            assert(below[i - 1 + k] == part[k]);
        }
    }
}

/// The row lies at least `depth` deep; if it lies deeper, there is a row that it hangs below.
spec fn placed(r: Seq<DatasetRow>, i: int, depth: nat, expanded: Set<Seq<char>>) -> bool {
    &&& r[i].depth >= depth
    &&& r[i].depth > depth ==> exists|p: int| #[trigger] hung(r, p, i, expanded)
}

/// Row `i` hangs below row `p`.
spec fn hung(r: Seq<DatasetRow>, p: int, i: int, expanded: Set<Seq<char>>) -> bool {
    &&& 0 <= p < i
    &&& r[i].depth == r[p].depth + 1
    &&& forall|k: int| p < k < i ==> (#[trigger] r[k]).depth >= r[i].depth
    &&& expanded.contains(r[p].node.name@)
    &&& r[p].node.children@.contains(r[i].node)
}

proof fn lemma_forest_placed(s: Seq<DatasetNode>, depth: nat, expanded: Set<Seq<char>>, i: int)
    requires
        0 <= i < datasets::forest_rows(s, depth, expanded).len(),
    ensures
        placed(datasets::forest_rows(s, depth, expanded), i, depth, expanded),
        datasets::forest_rows(s, depth, expanded)[i].depth == depth ==> s.contains(
            datasets::forest_rows(s, depth, expanded)[i].node,
        ),
    decreases s, 1int,
{
    let first = datasets::forest_rows(s.drop_last(), depth, expanded);
    let whole = datasets::forest_rows(s, depth, expanded);
    let sub = datasets::node_rows(s.last(), depth, expanded);
    if i < first.len() {
        lemma_forest_placed(s.drop_last(), depth, expanded, i);
        assert(whole[i] == first[i]);
        if whole[i].depth == depth {
            let j = choose|j: int|
                0 <= j < s.drop_last().len() && s.drop_last()[j] == whole[i].node;
            assert(s[j] == whole[i].node);
        } else {
            let p = choose|p: int| #[trigger] hung(first, p, i, expanded);
            assert forall|k: int| p < k < i implies (#[trigger] whole[k]).depth
                >= whole[i].depth by {
                assert(first[k].depth >= first[i].depth);
            }
            assert(hung(whole, p, i, expanded));
        }
    } else {
        let n = first.len() as int;
        lemma_node_placed(s.last(), depth, expanded, i - n);
        assert(whole[i] == sub[i - n]);
        if whole[i].depth == depth {
            assert(s[s.len() - 1] == whole[i].node);
        } else {
            let p = choose|p: int| #[trigger] hung(sub, p, i - n, expanded);
            assert forall|k: int| p + n < k < i implies (#[trigger] whole[k]).depth
                >= whole[i].depth by {
                assert(sub[k - n].depth >= sub[i - n].depth);
            }
            assert(hung(whole, p + n, i, expanded));
        }
    }
}

proof fn lemma_node_placed(top: DatasetNode, depth: nat, expanded: Set<Seq<char>>, i: int)
    requires
        0 <= i < datasets::node_rows(top, depth, expanded).len(),
    ensures
        placed(datasets::node_rows(top, depth, expanded), i, depth, expanded),
        i > 0 ==> datasets::node_rows(top, depth, expanded)[i].depth > depth,
        i == 0 ==> datasets::node_rows(top, depth, expanded)[i] == (DatasetRow {
            depth,
            node: top,
        }),
    decreases top, 0int,
{
    let whole = datasets::node_rows(top, depth, expanded);
    if i > 0 {
        let below = datasets::forest_rows(top.children@, depth + 1, expanded);
        lemma_forest_placed(top.children@, depth + 1, expanded, i - 1);
        assert(whole[i] == below[i - 1]);
        if whole[i].depth == depth + 1 {
            assert forall|k: int| 0 < k < i implies (#[trigger] whole[k]).depth
                >= whole[i].depth by {
                lemma_forest_placed(top.children@, depth + 1, expanded, k - 1);
                assert(whole[k] == below[k - 1]);
            }
            assert(hung(whole, 0, i, expanded));
        } else {
            let p = choose|p: int| #[trigger] hung(below, p, i - 1, expanded);
            assert forall|k: int| p + 1 < k < i implies (#[trigger] whole[k]).depth
                >= whole[i].depth by {
                assert(below[k - 1].depth >= below[i - 1].depth);
            }
            assert(hung(whole, p + 1, i, expanded));
        }
    }
}

/// The row of the `j`th child of the expanded dataset in row `i`.
proof fn lemma_child_row(roots: Seq<DatasetNode>, expanded: Set<Seq<char>>, i: int, j: int)
    requires
        0 <= i < datasets::dataset_rows(roots, expanded).len(),
        expanded.contains(datasets::dataset_rows(roots, expanded)[i].node.name@),
        0 <= j < datasets::dataset_rows(roots, expanded)[i].node.children@.len(),
    ensures
        ({
            let r = datasets::dataset_rows(roots, expanded);
            let row = r[i];
            let k = i + 1 + forest_size(row.node.children@.take(j), expanded);
            &&& k < r.len()
            &&& r[k] == (DatasetRow { depth: row.depth + 1, node: row.node.children@[j] })
            &&& forall|x: int| i < x < k ==> (#[trigger] r[x]).depth > row.depth
        }),
{
    let r = datasets::dataset_rows(roots, expanded);
    let row = r[i];
    let s = row.node.children@;
    lemma_forest_blocks(roots, 0, expanded, i);
    let block = datasets::node_rows(row.node, row.depth, expanded);
    let below = datasets::forest_rows(s, row.depth + 1, expanded);
    lemma_at_each(s, row.depth + 1, expanded, j);
    let at = forest_size(s.take(j), expanded) as int;
    let part = datasets::node_rows(s[j], row.depth + 1, expanded);
    assert(part[0] == (DatasetRow { depth: row.depth + 1, node: s[j] }));
    assert(below[at + 0] == part[0]);
    assert(block[at + 1] == below[at]);
    assert(r[i + (at + 1)] == block[at + 1]);
    assert forall|x: int| i < x < i + 1 + at implies (#[trigger] r[x]).depth > row.depth by {
        lemma_forest_placed(s, row.depth + 1, expanded, x - i - 1);
        assert(block[x - i] == below[x - i - 1]);
        assert(r[i + (x - i)] == block[x - i]);
    }
}

/// The row of the `k`th root.
proof fn lemma_root_row(roots: Seq<DatasetNode>, expanded: Set<Seq<char>>, k: int)
    requires
        0 <= k < roots.len(),
    ensures
        forest_size(roots.take(k), expanded) < datasets::dataset_rows(roots, expanded).len(),
        datasets::dataset_rows(roots, expanded)[forest_size(roots.take(k), expanded) as int] == (
        DatasetRow { depth: 0, node: roots[k] }),
{
    lemma_at_each(roots, 0, expanded, k);
    let part = datasets::node_rows(roots[k], 0, expanded);
    let at = forest_size(roots.take(k), expanded) as int;
    assert(part[0] == (DatasetRow { depth: 0, node: roots[k] }));
    assert(datasets::dataset_rows(roots, expanded)[at + 0] == part[0]);
}

/// The rows are laid out as a tree: each root, at depth 0, behind the roots before it and what
/// they show; below an expanded dataset its children, one deeper, each with what it shows. The
/// nearest row above a child that lies less deep is that of its parent. Nothing else is listed.
pub open spec fn laid_out(
    r: Seq<(usize, &DatasetNode)>,
    roots: Seq<DatasetNode>,
    expanded: Set<Seq<char>>,
) -> bool {
    &&& r.len() == forest_size(roots, expanded)
    &&& forall|k: int|
        0 <= k < roots.len() ==> {
            let at = forest_size(#[trigger] roots.take(k), expanded) as int;
            at < r.len() && r[at].0 == 0 && *r[at].1 == roots[k]
        }
    &&& forall|i: int, j: int|
        0 <= i < r.len() && expanded.contains(r[i].1.name@) && 0 <= j < r[i].1.children@.len()
            ==> {
            let k = i + 1 + forest_size(#[trigger] r[i].1.children@.take(j), expanded);
            k < r.len() && r[k].0 == r[i].0 + 1 && *r[k].1 == r[i].1.children@[j]
        }
    &&& forall|i: int|
        0 <= i < r.len() && (#[trigger] r[i]).0 > 0 ==> exists|p: int|
            hangs_below(r, p, i, expanded)
}

/// The rows that stand for the visible rows of the datasets are laid out as a tree.
pub proof fn visible_rows_are_laid_out(
    r: Seq<(usize, &DatasetNode)>,
    roots: Seq<DatasetNode>,
    expanded: Set<Seq<char>>,
)
    requires
        datasets::lists(r, datasets::dataset_rows(roots, expanded)),
    ensures
        laid_out(r, roots, expanded),
{
    let all = datasets::dataset_rows(roots, expanded);
    lemma_sizes(roots, 0, expanded);
    assert(forall|i: int|
        0 <= i < r.len() ==> (#[trigger] r[i]).0 == all[i].depth && *r[i].1 == all[i].node);
    assert forall|k: int| 0 <= k < roots.len() implies {
        let at = forest_size(#[trigger] roots.take(k), expanded) as int;
        at < r.len() && r[at].0 == 0 && *r[at].1 == roots[k]
    } by {
        lemma_root_row(roots, expanded, k);
    }
    assert forall|i: int, j: int|
        0 <= i < r.len() && expanded.contains(r[i].1.name@) && 0 <= j
            < r[i].1.children@.len() implies {
        let k = i + 1 + forest_size(#[trigger] r[i].1.children@.take(j), expanded);
        k < r.len() && r[k].0 == r[i].0 + 1 && *r[k].1 == r[i].1.children@[j]
    } by {
        lemma_child_row(roots, expanded, i, j);
    }
    assert forall|i: int| 0 <= i < r.len() && (#[trigger] r[i]).0 > 0 implies exists|p: int|
        hangs_below(r, p, i, expanded) by {
        lemma_forest_placed(roots, 0, expanded, i);
        let p = choose|p: int| #[trigger] hung(all, p, i, expanded);
        assert forall|k: int| p < k < i implies (#[trigger] r[k]).0 >= r[i].0 by {
            assert(all[k].depth >= all[i].depth);
        }
        assert(hangs_below(r, p, i, expanded));
    }
}

/// `flatten_rows` lists the datasets laid out as a tree.
pub proof fn rows_lie_below_their_parents<'a>(
    roots: &'a Vec<DatasetNode>,
    expanded: NameSet,
    r: Vec<(usize, &'a DatasetNode)>,
)
    requires
        call_ensures(datasets::flatten_rows, (roots, &expanded), r),
    ensures
        laid_out(r@, roots@, expanded@),
{
    visible_rows_are_laid_out(r@, roots@, expanded@);
}

proof fn lemma_nearest(rows: Seq<DatasetRow>, p: int, i: int, d: int)
    requires
        0 <= p < i <= rows.len(),
        rows[p].depth == d,
        forall|x: int| p < x < i ==> (#[trigger] rows[x]).depth > d,
    ensures
        datasets::nearest_above(rows, i, d) == Some(p),
    decreases i,
{
    if i - 1 > p {
        assert(rows[i - 1].depth > d);
        lemma_nearest(rows, p, i - 1, d);
    }
}

proof fn lemma_no_parent(rows: Seq<DatasetRow>, i: int)
    ensures
        datasets::nearest_above(rows, i, -1) is None,
    decreases i,
{
    if i > 0 {
        lemma_no_parent(rows, i - 1);
    }
}

/// What `linked_rows` lists: the same rows in the same order, a root without a parent row, a
/// child with the row of its parent.
pub proof fn rows_are_linked_to_their_parents<'a>(
    roots: &'a Vec<DatasetNode>,
    expanded: NameSet,
    r: Vec<LinkedRow<'a>>,
)
    requires
        call_ensures(datasets::linked_rows, (roots, &expanded), r),
    ensures
        r@.len() == forest_size(roots@, expanded@),
        forall|k: int|
            0 <= k < roots@.len() ==> {
                let at = forest_size(#[trigger] roots@.take(k), expanded@) as int;
                at < r@.len() && r@[at].parent is None && *r@[at].node == roots@[k]
            },
        forall|i: int, j: int|
            0 <= i < r@.len() && expanded@.contains(r@[i].node.name@) && 0 <= j
                < r@[i].node.children@.len() ==> {
                let k = i + 1 + forest_size(#[trigger] r@[i].node.children@.take(j), expanded@);
                k < r@.len() && r@[k].parent is Some && r@[k].parent->0 == i && *r@[k].node
                    == r@[i].node.children@[j]
            },
{
    let all = datasets::dataset_rows(roots@, expanded@);
    lemma_sizes(roots@, 0, expanded@);
    assert forall|k: int| 0 <= k < roots@.len() implies {
        let at = forest_size(#[trigger] roots@.take(k), expanded@) as int;
        at < r@.len() && r@[at].parent is None && *r@[at].node == roots@[k]
    } by {
        lemma_root_row(roots@, expanded@, k);
        let at = forest_size(roots@.take(k), expanded@) as int;
        lemma_no_parent(all, at);
        assert(datasets::opt_index(r@[at].parent) == datasets::parent_row(all, at));
    }
    assert forall|i: int, j: int|
        0 <= i < r@.len() && expanded@.contains(r@[i].node.name@) && 0 <= j
            < r@[i].node.children@.len() implies {
        let k = i + 1 + forest_size(#[trigger] r@[i].node.children@.take(j), expanded@);
        k < r@.len() && r@[k].parent is Some && r@[k].parent->0 == i && *r@[k].node
            == r@[i].node.children@[j]
    } by {
        lemma_child_row(roots@, expanded@, i, j);
        let k = i + 1 + forest_size(all[i].node.children@.take(j), expanded@);
        lemma_nearest(all, i, k, all[i].depth as int);
        assert(datasets::opt_index(r@[k].parent) == datasets::parent_row(all, k));
    }
}

/// The dataset or one below it has this name.
pub open spec fn occurs(node: DatasetNode, name: Seq<char>) -> bool
    decreases node,
{
    node.name@ == name || occurs_in(node.children@, name)
}

/// A dataset of `s` or one below it has this name.
pub open spec fn occurs_in(s: Seq<DatasetNode>, name: Seq<char>) -> bool
    decreases s,
{
    s.len() > 0 && (occurs_in(s.drop_last(), name) || occurs(s.last(), name))
}

/// A name occurs where it occurs from one of the datasets downwards.
pub proof fn names_occur_somewhere(s: Seq<DatasetNode>, name: Seq<char>)
    ensures
        occurs_in(s, name) <==> exists|i: int| 0 <= i < s.len() && #[trigger] occurs(s[i], name),
    decreases s.len(),
{
    if s.len() > 0 {
        let init = s.drop_last();
        names_occur_somewhere(init, name);
        assert(s[s.len() - 1] == s.last());
        if occurs(s.last(), name) {
            assert(occurs(s[s.len() - 1], name));
        }
        if occurs_in(init, name) {
            let i = choose|i: int| 0 <= i < init.len() && #[trigger] occurs(init[i], name);
            assert(occurs(s[i], name));
        }
        if exists|i: int| 0 <= i < s.len() && #[trigger] occurs(s[i], name) {
            let i = choose|i: int| 0 <= i < s.len() && #[trigger] occurs(s[i], name);
            if i < init.len() {
                assert(occurs(init[i], name));
            }
        }
    }
}

proof fn lemma_names(s: Seq<DatasetNode>)
    ensures
        forall|name: Seq<char>| #[trigger]
            datasets::forest_names(s).contains(name) <==> occurs_in(s, name),
    decreases s, 1int,
{
    if s.len() > 0 {
        let init = s.drop_last();
        lemma_names(init);
        lemma_node_names(s.last());
        assert forall|name: Seq<char>| #[trigger]
            datasets::forest_names(s).contains(name) <==> occurs_in(s, name) by {
            assert(datasets::forest_names(init).contains(name) <==> occurs_in(init, name));
            assert(datasets::node_names(s.last()).contains(name) <==> occurs(s.last(), name));
        }
    }
}

proof fn lemma_node_names(node: DatasetNode)
    ensures
        forall|name: Seq<char>| #[trigger]
            datasets::node_names(node).contains(name) <==> occurs(node, name),
    decreases node, 0int,
{
    let below = node.children@;
    lemma_names(below);
    assert forall|name: Seq<char>| #[trigger]
        datasets::node_names(node).contains(name) <==> occurs(node, name) by {
        assert(datasets::forest_names(below).contains(name) <==> occurs_in(below, name));
    }
}

/// The names of a forest are those that occur in it.
pub proof fn forest_names_occur(s: Seq<DatasetNode>, name: Seq<char>)
    ensures
        datasets::forest_names(s).contains(name) <==> occurs_in(s, name),
{
    lemma_names(s);
}

/// `contains_name` finds every name that occurs, and no other.
pub proof fn occurring_names_are_found(nodes: Vec<DatasetNode>, target: String, r: bool)
    requires
        call_ensures(datasets::contains_name, (&nodes, &target), r),
    ensures
        r == occurs_in(nodes@, target@),
{
    lemma_names(nodes@);
}

/// `collect_names` adds every name that occurs, and no other.
pub proof fn occurring_names_are_collected(nodes: Vec<DatasetNode>, into: &mut StringHashSet)
    requires
        call_ensures(datasets::collect_names, (&nodes, into), ()),
    ensures
        forall|name: Seq<char>| #[trigger]
            final(into)@.contains(name) <==> old(into)@.contains(name) || occurs_in(nodes@, name),
{
    lemma_names(nodes@);
}

/// The two datasets are alike, and so are those below them.
pub open spec fn alike(a: DatasetNode, b: DatasetNode) -> bool
    decreases a,
{
    &&& a.name@ == b.name@
    &&& a.kind == b.kind
    &&& a.used_bytes == b.used_bytes
    &&& a.refer_bytes == b.refer_bytes
    &&& a.available_bytes == b.available_bytes
    &&& a.compression_ratio == b.compression_ratio
    &&& a.properties.entries@.len() == b.properties.entries@.len()
    &&& forall|i: int|
        0 <= i < a.properties.entries@.len() ==> (#[trigger] a.properties.entries@[i]).0@
            == b.properties.entries@[i].0@ && a.properties.entries@[i].1@
            == b.properties.entries@[i].1@
    &&& all_alike(a.children@, b.children@)
}

/// The datasets of `a` and `b` are alike, one by one.
pub open spec fn all_alike(a: Seq<DatasetNode>, b: Seq<DatasetNode>) -> bool
    decreases a,
{
    &&& a.len() == b.len()
    &&& a.len() > 0 ==> alike(a.last(), b.last()) && all_alike(a.drop_last(), b.drop_last())
}

proof fn lemma_alike(a: DatasetNode, b: DatasetNode)
    requires
        a.model() == b.model(),
    ensures
        alike(a, b),
    decreases a, 0int,
{
    lemma_all_alike(a.children@, b.children@);
    assert(a.model().properties == a.properties@);
    assert(b.model().properties == b.properties@);
    assert(a.properties@.len() == b.properties@.len());
    assert forall|i: int| 0 <= i < a.properties.entries@.len() implies (
    #[trigger] a.properties.entries@[i]).0@ == b.properties.entries@[i].0@
        && a.properties.entries@[i].1@ == b.properties.entries@[i].1@ by {
        assert(a.properties@[i] == b.properties@[i]);
    }
}

proof fn lemma_all_alike(a: Seq<DatasetNode>, b: Seq<DatasetNode>)
    requires
        datasets::dataset_models(a) == datasets::dataset_models(b),
    ensures
        all_alike(a, b),
    decreases a, 1int,
{
    datasets::dataset_models_index(a);
    datasets::dataset_models_index(b);
    assert(a.len() == b.len());
    if a.len() > 0 {
        let x = datasets::dataset_models(a);
        let y = datasets::dataset_models(b);
        assert(x.drop_last() =~= datasets::dataset_models(a.drop_last()));
        assert(y.drop_last() =~= datasets::dataset_models(b.drop_last()));
        assert(x.last() == a.last().model());
        assert(y.last() == b.last().model());
        lemma_alike(a.last(), b.last());
        lemma_all_alike(a.drop_last(), b.drop_last());
    }
}

/// A copy of a dataset is like it at every depth.
pub proof fn copies_are_alike(node: DatasetNode, r: DatasetNode)
    requires
        call_ensures(DatasetNode::clone, (&node,), r),
    ensures
        alike(r, node),
{
    lemma_alike(r, node);
}

} // verus!
