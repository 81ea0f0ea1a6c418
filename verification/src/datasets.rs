//! Datasets: the tree of filesystems and volumes, and the rows in which it is listed.
use vstd::hash_set::StringHashSet;
use vstd::prelude::*;

use crate::names::NameSet;

verus! {

/// What a dataset is.
#[derive(Copy, Clone, Debug, PartialEq, Eq, Structural)]
pub enum DatasetKind {
    Filesystem,
    Volume,
}

/// Properties of a dataset, as names and values.
#[derive(Debug)]
pub struct DatasetProperties {
    pub entries: Vec<(String, String)>,
}

impl Default for DatasetProperties {
    fn default() -> (r: DatasetProperties)
        ensures
            r.entries@ == Seq::<(String, String)>::empty(),
    {
        DatasetProperties { entries: Vec::new() }
    }
}

/// One dataset, with those below it.
#[derive(Debug)]
pub struct DatasetNode {
    /// Full name, from the pool on.
    pub name: String,
    pub kind: DatasetKind,
    pub used_bytes: u64,
    pub refer_bytes: u64,
    pub available_bytes: u64,
    /// Compression ratio in hundredths: 100 where nothing is saved.
    pub compression_ratio: u64,
    pub properties: DatasetProperties,
    pub children: Vec<DatasetNode>,
}

impl DatasetNode {
    /// Whether there are datasets below this one.
    pub fn has_children(&self) -> (r: bool)
        ensures
            r == (self.children@.len() > 0),
    {
        self.children.len() > 0
    }
}

/// What a `DatasetNode` holds.
#[verifier::ext_equal]
pub ghost struct DatasetModel {
    pub name: Seq<char>,
    pub kind: DatasetKind,
    pub used_bytes: u64,
    pub refer_bytes: u64,
    pub available_bytes: u64,
    pub compression_ratio: u64,
    pub properties: Seq<(Seq<char>, Seq<char>)>,
    pub children: Seq<DatasetModel>,
}

impl View for DatasetProperties {
    type V = Seq<(Seq<char>, Seq<char>)>;

    open spec fn view(&self) -> Seq<(Seq<char>, Seq<char>)> {
        Seq::new(self.entries@.len(), |i: int| (self.entries@[i].0@, self.entries@[i].1@))
    }
}

impl Clone for DatasetProperties {
    fn clone(&self) -> (r: DatasetProperties)
        ensures
            r@ == self@,
    {
        let mut entries: Vec<(String, String)> = Vec::new();
        let mut i: usize = 0;
        while i < self.entries.len()
            invariant
                i <= self.entries.len(),
                entries.len() == i,
                forall|j: int| 0 <= j < i ==> entries@[j] == self.entries@[j],
            decreases self.entries.len() - i,
        {
            let name: String = self.entries[i].0.clone();
            let value: String = self.entries[i].1.clone();
            entries.push((name, value));
            i = i + 1;
        }
        let r = DatasetProperties { entries };
        assert(r@ =~= self@);
        r
    }
}

impl DatasetNode {
    /// What the node holds, its children taken the same way.
    pub open spec fn model(self) -> DatasetModel
        decreases self,
    {
        DatasetModel {
            name: self.name@,
            kind: self.kind,
            used_bytes: self.used_bytes,
            refer_bytes: self.refer_bytes,
            available_bytes: self.available_bytes,
            compression_ratio: self.compression_ratio,
            properties: self.properties@,
            children: dataset_models(self.children@),
        }
    }
}

/// What each node of `s` holds.
pub open spec fn dataset_models(s: Seq<DatasetNode>) -> Seq<DatasetModel>
    decreases s,
{
    if s.len() == 0 {
        Seq::empty()
    } else {
        dataset_models(s.drop_last()).push(s.last().model())
    }
}

/// `dataset_models` takes node by node.
pub proof fn dataset_models_index(s: Seq<DatasetNode>)
    ensures
        dataset_models(s).len() == s.len(),
        forall|i: int| 0 <= i < s.len() ==> #[trigger] dataset_models(s)[i] == s[i].model(),
    decreases s.len(),
{
    if s.len() > 0 {
        dataset_models_index(s.drop_last());
    }
}

impl Clone for DatasetNode {
    fn clone(&self) -> (r: DatasetNode)
        ensures
            r.model() == self.model(),
        decreases self,
    {
        let mut children: Vec<DatasetNode> = Vec::new();
        let mut i: usize = 0;
        while i < self.children.len()
            invariant
                i <= self.children.len(),
                children.len() == i,
                forall|j: int|
                    0 <= j < i ==> (#[trigger] children@[j]).model() == self.children@[j].model(),
            decreases self.children.len() - i,
        {
            let child: DatasetNode = self.children[i].clone();
            children.push(child);
            i = i + 1;
        }
        proof {
            dataset_models_index(children@);
            dataset_models_index(self.children@);
            assert(dataset_models(children@) =~= dataset_models(self.children@));
        }
        DatasetNode {
            name: self.name.clone(),
            kind: self.kind,
            used_bytes: self.used_bytes,
            refer_bytes: self.refer_bytes,
            available_bytes: self.available_bytes,
            compression_ratio: self.compression_ratio,
            properties: self.properties.clone(),
            children,
        }
    }
}

/// Where the datasets come from. `refresh` fetches them anew; `roots` hands out what was
/// fetched last.
pub trait DatasetsSource {
    fn refresh(&mut self) -> Result<(), String>;

    fn roots(&self) -> Vec<DatasetNode>;
}

/// The names of a dataset and of all below it.
pub open spec fn node_names(node: DatasetNode) -> Set<Seq<char>>
    decreases node,
{
    forest_names(node.children@).insert(node.name@)
}

/// The names of all datasets in the trees of `s`.
pub open spec fn forest_names(s: Seq<DatasetNode>) -> Set<Seq<char>>
    decreases s,
{
    if s.len() == 0 {
        Set::empty()
    } else {
        forest_names(s.drop_last()).union(node_names(s.last()))
    }
}

/// One row: a dataset and its depth; the roots have depth 0.
pub ghost struct DatasetRow {
    pub depth: nat,
    pub node: DatasetNode,
}

/// The row of a dataset, then, if it is expanded, those of all below it.
pub open spec fn node_rows(
    node: DatasetNode,
    depth: nat,
    expanded: Set<Seq<char>>,
) -> Seq<DatasetRow>
    decreases node,
{
    seq![DatasetRow { depth, node }] + if expanded.contains(node.name@) {
        forest_rows(node.children@, depth + 1, expanded)
    } else {
        Seq::empty()
    }
}

/// The rows of all trees of `s`, one after another.
pub open spec fn forest_rows(
    s: Seq<DatasetNode>,
    depth: nat,
    expanded: Set<Seq<char>>,
) -> Seq<DatasetRow>
    decreases s,
{
    if s.len() == 0 {
        Seq::empty()
    } else {
        forest_rows(s.drop_last(), depth, expanded) + node_rows(s.last(), depth, expanded)
    }
}

/// The visible rows of the tree under `roots`.
pub open spec fn dataset_rows(
    roots: Seq<DatasetNode>,
    expanded: Set<Seq<char>>,
) -> Seq<DatasetRow> {
    forest_rows(roots, 0, expanded)
}

/// Adds the names of a dataset and of all below it.
fn collect_node_names(node: &DatasetNode, into: &mut StringHashSet)
    ensures
        final(into)@ == old(into)@.union(node_names(*node)),
    decreases node, 0int,
{
    let ghost start = into@;
    into.insert(node.name.clone());
    collect_names(&node.children, into);
    assert(into@ =~= start.union(node_names(*node)));
}

/// Adds the names of all datasets in the trees of `nodes`.
pub fn collect_names(nodes: &Vec<DatasetNode>, into: &mut StringHashSet)
    ensures
        final(into)@ == old(into)@.union(forest_names(nodes@)),
    decreases nodes@, 1int,
{
    let ghost start = into@;
    let mut i: usize = 0;
    assert(nodes@.take(0) =~= Seq::empty());
    assert(start =~= start.union(forest_names(nodes@.take(0))));
    while i < nodes.len()
        invariant
            i <= nodes.len(),
            into@ == start.union(forest_names(nodes@.take(i as int))),
        decreases nodes.len() - i,
    {
        collect_node_names(&nodes[i], into);
        i = i + 1;
        assert(nodes@.take(i as int).drop_last() =~= nodes@.take(i - 1));
        assert(into@ =~= start.union(forest_names(nodes@.take(i as int))));
    }
    assert(nodes@.take(i as int) =~= nodes@);
}

/// Whether a dataset of that name is in one of the trees.
pub fn contains_name(nodes: &Vec<DatasetNode>, target: &String) -> (r: bool)
    ensures
        r == forest_names(nodes@).contains(target@),
    decreases nodes@,
{
    let mut i: usize = 0;
    assert(nodes@.take(0) =~= Seq::empty());
    while i < nodes.len()
        invariant
            i <= nodes.len(),
            !forest_names(nodes@.take(i as int)).contains(target@),
        decreases nodes.len() - i,
    {
        proof {
            assert(nodes@.take(i + 1).drop_last() =~= nodes@.take(i as int));
            let node = nodes@[i as int];
            assert(node_names(node) == forest_names(node.children@).insert(node.name@));
        }
        if nodes[i].name == *target || contains_name(&nodes[i].children, target) {
            proof {
                lemma_names_prefix(nodes@, i + 1);
            }
            return true;
        }
        i = i + 1;
    }
    assert(nodes@.take(i as int) =~= nodes@);
    false
}

proof fn lemma_names_prefix(s: Seq<DatasetNode>, n: int)
    requires
        0 <= n <= s.len(),
    ensures
        forest_names(s.take(n)).subset_of(forest_names(s)),
    decreases s.len(),
{
    if n == s.len() {
        assert(s.take(n) =~= s);
    } else {
        lemma_names_prefix(s.drop_last(), n);
        assert(s.drop_last().take(n) =~= s.take(n));
    }
}

/// The nearest row above row `i` that has depth `d`.
pub open spec fn nearest_above(rows: Seq<DatasetRow>, i: int, d: int) -> Option<int>
    decreases i,
{
    if i <= 0 {
        None
    } else if rows[i - 1].depth == d {
        Some(i - 1)
    } else {
        nearest_above(rows, i - 1, d)
    }
}

/// The row one level up that row `i` hangs from.
pub open spec fn parent_row(rows: Seq<DatasetRow>, i: int) -> Option<int> {
    nearest_above(rows, i, rows[i].depth - 1)
}

/// The first row of the dataset of that name.
pub open spec fn row_named(s: Seq<DatasetRow>, name: Seq<char>) -> Option<int>
    decreases s.len(),
{
    if s.len() == 0 {
        None
    } else {
        match row_named(s.drop_last(), name) {
            Some(i) => Some(i),
            None => if s.last().node.name@ == name {
                Some(s.len() - 1)
            } else {
                None
            },
        }
    }
}

/// The row of a tree lies at its depth, all others of the tree lie deeper.
proof fn lemma_node_depths(node: DatasetNode, depth: nat, expanded: Set<Seq<char>>)
    ensures
        node_rows(node, depth, expanded).len() > 0,
        node_rows(node, depth, expanded)[0].depth == depth,
        forall|i: int|
            0 <= i < node_rows(node, depth, expanded).len() ==> (#[trigger] node_rows(
                node,
                depth,
                expanded,
            )[i]).depth >= depth,
    decreases node, 0int,
{
    lemma_forest_depths(node.children@, depth + 1, expanded);
}

/// No row of a forest lies above the forest's depth.
proof fn lemma_forest_depths(s: Seq<DatasetNode>, depth: nat, expanded: Set<Seq<char>>)
    ensures
        forall|i: int|
            0 <= i < forest_rows(s, depth, expanded).len() ==> (#[trigger] forest_rows(
                s,
                depth,
                expanded,
            )[i]).depth >= depth,
    decreases s, 1int,
{
    if s.len() > 0 {
        lemma_forest_depths(s.drop_last(), depth, expanded);
        lemma_node_depths(s.last(), depth, expanded);
    }
}

/// Rows that all lie deeper than `d` change nothing about the nearest row of depth `d`.
proof fn lemma_nearest_past(a: Seq<DatasetRow>, b: Seq<DatasetRow>, n: int, d: int)
    requires
        0 <= n <= b.len(),
        forall|i: int| 0 <= i < b.len() ==> (#[trigger] b[i]).depth > d,
    ensures
        nearest_above(a + b, a.len() + n, d) == nearest_above(a, a.len() as int, d),
    decreases n,
{
    if n == 0 {
        lemma_nearest_prefix(a, a + b, a.len() as int, d);
    } else {
        assert((a + b)[a.len() + n - 1] == b[n - 1]);
        lemma_nearest_past(a, b, n - 1, d);
    }
}

/// Rows from `i` on do not matter for what lies above row `i`.
proof fn lemma_nearest_prefix(a: Seq<DatasetRow>, b: Seq<DatasetRow>, i: int, d: int)
    requires
        i <= a.len() <= b.len(),
        forall|j: int| 0 <= j < i ==> a[j] == b[j],
    ensures
        nearest_above(a, i, d) == nearest_above(b, i, d),
    decreases i,
{
    if i > 0 {
        lemma_nearest_prefix(a, b, i - 1, d);
    }
}

/// A visible dataset and the row that it hangs from.
pub struct LinkedRow<'a> {
    pub parent: Option<usize>,
    pub node: &'a DatasetNode,
}

/// An optional row number.
pub open spec fn opt_index(p: Option<usize>) -> Option<int> {
    match p {
        Some(i) => Some(i as int),
        None => None,
    }
}

/// Row by row, `out` holds the dataset and the parent of `rows`.
pub open spec fn linked(out: Seq<LinkedRow<'_>>, rows: Seq<DatasetRow>) -> bool {
    &&& out.len() == rows.len()
    &&& forall|i: int|
        0 <= i < rows.len() ==> *(#[trigger] out[i]).node == rows[i].node && opt_index(
            out[i].parent,
        ) == parent_row(rows, i)
}

/// Appends the rows of one tree.
fn link_node<'a>(
    node: &'a DatasetNode,
    parent: Option<usize>,
    expanded: &NameSet,
    out: &mut Vec<LinkedRow<'a>>,
    Ghost(rows): Ghost<Seq<DatasetRow>>,
    Ghost(depth): Ghost<nat>,
)
    requires
        linked(old(out)@, rows),
        opt_index(parent) == nearest_above(rows, rows.len() as int, depth - 1),
    ensures
        linked(final(out)@, rows + node_rows(*node, depth, expanded@)),
    decreases node, 0int,
{
    let here: usize = out.len();
    out.push(LinkedRow { parent, node });
    let ghost own = rows.push(DatasetRow { depth, node: *node });
    proof {
        assert forall|i: int| 0 <= i < own.len() implies *(#[trigger] out@[i]).node == own[i].node
            && opt_index(out@[i].parent) == parent_row(own, i) by {
            if i < rows.len() {
                lemma_nearest_prefix(rows, own, i, rows[i].depth - 1);
            } else {
                lemma_nearest_prefix(rows, own, rows.len() as int, depth - 1);
            }
        }
    }
    if expanded.contains(node.name.as_str()) {
        assert(nearest_above(own, own.len() as int, depth as int) == Some(here as int));
        link_forest(&node.children, Some(here), expanded, out, Ghost(own), Ghost(depth + 1));
        assert(own + forest_rows(node.children@, depth + 1, expanded@) =~= rows + node_rows(
            *node,
            depth,
            expanded@,
        ));
    } else {
        assert(own =~= rows + node_rows(*node, depth, expanded@));
    }
}

/// Appends the rows of all trees of `nodes`.
fn link_forest<'a>(
    nodes: &'a Vec<DatasetNode>,
    parent: Option<usize>,
    expanded: &NameSet,
    out: &mut Vec<LinkedRow<'a>>,
    Ghost(rows): Ghost<Seq<DatasetRow>>,
    Ghost(depth): Ghost<nat>,
)
    requires
        linked(old(out)@, rows),
        opt_index(parent) == nearest_above(rows, rows.len() as int, depth - 1),
    ensures
        linked(final(out)@, rows + forest_rows(nodes@, depth, expanded@)),
    decreases nodes@, 1int,
{
    let mut i: usize = 0;
    proof {
        assert(nodes@.take(0) =~= Seq::empty());
        assert(rows + forest_rows(nodes@.take(0), depth, expanded@) =~= rows);
    }
    while i < nodes.len()
        invariant
            i <= nodes.len(),
            opt_index(parent) == nearest_above(rows, rows.len() as int, depth - 1),
            linked(out@, rows + forest_rows(nodes@.take(i as int), depth, expanded@)),
        decreases nodes.len() - i,
    {
        let ghost done = forest_rows(nodes@.take(i as int), depth, expanded@);
        proof {
            lemma_forest_depths(nodes@.take(i as int), depth, expanded@);
            lemma_nearest_past(rows, done, done.len() as int, depth - 1);
        }
        link_node(&nodes[i], parent, expanded, out, Ghost(rows + done), Ghost(depth));
        proof {
            assert(nodes@.take(i + 1).drop_last() =~= nodes@.take(i as int));
            let own = node_rows(nodes@[i as int], depth, expanded@);
            assert(rows + done + own =~= rows + forest_rows(nodes@.take(i + 1), depth, expanded@));
        }
        i = i + 1;
    }
    assert(nodes@.take(i as int) =~= nodes@);
}

/// The visible rows under `roots`, each with the row that it hangs from.
pub fn linked_rows<'a>(roots: &'a Vec<DatasetNode>, expanded: &NameSet) -> (r: Vec<LinkedRow<'a>>)
    ensures
        linked(r@, dataset_rows(roots@, expanded@)),
{
    let mut out: Vec<LinkedRow<'a>> = Vec::new();
    let ghost none = Seq::<DatasetRow>::empty();
    link_forest(roots, None, expanded, &mut out, Ghost(none), Ghost(0));
    assert(none + forest_rows(roots@, 0, expanded@) =~= forest_rows(roots@, 0, expanded@));
    out
}

/// Row by row, `out` holds the depth and the dataset of `rows`.
pub open spec fn lists(out: Seq<(usize, &DatasetNode)>, rows: Seq<DatasetRow>) -> bool {
    &&& out.len() == rows.len()
    &&& forall|i: int|
        0 <= i < rows.len() ==> (#[trigger] out[i]).0 == rows[i].depth && *out[i].1 == rows[i].node
}

/// Every depth is a machine number.
pub open spec fn depths_fit(rows: Seq<DatasetRow>) -> bool {
    forall|i: int| 0 <= i < rows.len() ==> (#[trigger] rows[i]).depth <= usize::MAX
}

/// The rows of the first `n` trees, and of the next, are among the rows of all.
proof fn lemma_forest_sub(s: Seq<DatasetNode>, depth: nat, expanded: Set<Seq<char>>, n: int)
    requires
        0 <= n < s.len(),
    ensures
        forest_rows(s.take(n + 1), depth, expanded) == forest_rows(s.take(n), depth, expanded)
            + node_rows(s[n], depth, expanded),
        forest_rows(s.take(n + 1), depth, expanded).is_prefix_of(forest_rows(s, depth, expanded)),
    decreases s.len(),
{
    assert(s.take(n + 1).drop_last() =~= s.take(n));
    let a = forest_rows(s.take(n + 1), depth, expanded);
    let c = forest_rows(s, depth, expanded);
    if n + 1 == s.len() {
        assert(s.take(n + 1) =~= s);
        assert(c =~= c.take(c.len() as int));
    } else {
        let init = s.drop_last();
        lemma_forest_sub(init, depth, expanded, n);
        assert(init.take(n + 1) =~= s.take(n + 1));
        let b = forest_rows(init, depth, expanded);
        assert(c.take(b.len() as int) =~= b);
        assert(c.take(a.len() as int) =~= b.take(a.len() as int));
    }
}

/// Appends the rows of one tree, with their depths.
fn list_node<'a>(
    node: &'a DatasetNode,
    depth: usize,
    expanded: &NameSet,
    out: &mut Vec<(usize, &'a DatasetNode)>,
    Ghost(rows): Ghost<Seq<DatasetRow>>,
)
    requires
        lists(old(out)@, rows),
        depths_fit(node_rows(*node, depth as nat, expanded@)),
    ensures
        lists(final(out)@, rows + node_rows(*node, depth as nat, expanded@)),
    decreases node, 0int,
{
    out.push((depth, node));
    let ghost own = rows.push(DatasetRow { depth: depth as nat, node: *node });
    let ghost all = node_rows(*node, depth as nat, expanded@);
    assert(lists(out@, own));
    if expanded.contains(node.name.as_str()) && node.children.len() > 0 {
        let ghost below = forest_rows(node.children@, (depth + 1) as nat, expanded@);
        proof {
            assert(all =~= seq![DatasetRow { depth: depth as nat, node: *node }] + below);
            lemma_forest_sub(node.children@, (depth + 1) as nat, expanded@, 0);
            lemma_node_depths(node.children@[0], (depth + 1) as nat, expanded@);
            assert(node.children@.take(0) =~= Seq::empty());
            assert(below[0].depth == depth + 1);
            assert(all[1] == below[0]);
            assert forall|i: int| 0 <= i < below.len() implies (#[trigger] below[i]).depth
                <= usize::MAX by {
                assert(all[i + 1] == below[i]);
            }
        }
        list_forest(&node.children, depth + 1, expanded, out, Ghost(own));
        assert(own + below =~= rows + all);
    } else {
        proof {
            if node.children@.len() == 0 {
                assert(forest_rows(node.children@, (depth + 1) as nat, expanded@) =~= Seq::empty());
            }
            assert(own =~= rows + all);
        }
    }
}

/// Appends the rows of all trees of `nodes`, with their depths.
fn list_forest<'a>(
    nodes: &'a Vec<DatasetNode>,
    depth: usize,
    expanded: &NameSet,
    out: &mut Vec<(usize, &'a DatasetNode)>,
    Ghost(rows): Ghost<Seq<DatasetRow>>,
)
    requires
        lists(old(out)@, rows),
        depths_fit(forest_rows(nodes@, depth as nat, expanded@)),
    ensures
        lists(final(out)@, rows + forest_rows(nodes@, depth as nat, expanded@)),
    decreases nodes@, 1int,
{
    let mut i: usize = 0;
    let ghost all = forest_rows(nodes@, depth as nat, expanded@);
    proof {
        assert(nodes@.take(0) =~= Seq::empty());
        assert(rows + forest_rows(nodes@.take(0), depth as nat, expanded@) =~= rows);
    }
    while i < nodes.len()
        invariant
            i <= nodes.len(),
            all == forest_rows(nodes@, depth as nat, expanded@),
            depths_fit(all),
            lists(out@, rows + forest_rows(nodes@.take(i as int), depth as nat, expanded@)),
        decreases nodes.len() - i,
    {
        let ghost done = forest_rows(nodes@.take(i as int), depth as nat, expanded@);
        let ghost own = node_rows(nodes@[i as int], depth as nat, expanded@);
        proof {
            lemma_forest_sub(nodes@, depth as nat, expanded@, i as int);
            assert forall|j: int| 0 <= j < own.len() implies (#[trigger] own[j]).depth
                <= usize::MAX by {
                let part = done + own;
                assert(part[done.len() + j] == own[j]);
                assert(all.take(part.len() as int)[done.len() + j] == part[done.len() + j]);
                assert(all[done.len() + j].depth <= usize::MAX);
            }
        }
        list_node(&nodes[i], depth, expanded, out, Ghost(rows + done));
        assert(rows + done + own =~= rows + (done + own));
        i = i + 1;
    }
    assert(nodes@.take(i as int) =~= nodes@);
}

/// The visible rows under `roots`, with their depths.
pub fn flatten_rows<'a>(roots: &'a Vec<DatasetNode>, expanded: &NameSet) -> (r: Vec<
    (usize, &'a DatasetNode),
>)
    requires
        depths_fit(dataset_rows(roots@, expanded@)),
    ensures
        lists(r@, dataset_rows(roots@, expanded@)),
{
    let mut out: Vec<(usize, &'a DatasetNode)> = Vec::new();
    let ghost none = Seq::<DatasetRow>::empty();
    list_forest(roots, 0, expanded, &mut out, Ghost(none));
    assert(none + forest_rows(roots@, 0, expanded@) =~= forest_rows(roots@, 0, expanded@));
    out
}

/// The more datasets are expanded, the more rows are visible.
pub proof fn dataset_rows_grow(
    s: Seq<DatasetNode>,
    depth: nat,
    a: Set<Seq<char>>,
    b: Set<Seq<char>>,
)
    requires
        a.subset_of(b),
    ensures
        forest_rows(s, depth, a).len() <= forest_rows(s, depth, b).len(),
    decreases s, 1int,
{
    if s.len() > 0 {
        dataset_rows_grow(s.drop_last(), depth, a, b);
        lemma_node_grows(s.last(), depth, a, b);
    }
}

proof fn lemma_node_grows(node: DatasetNode, depth: nat, a: Set<Seq<char>>, b: Set<Seq<char>>)
    requires
        a.subset_of(b),
    ensures
        node_rows(node, depth, a).len() <= node_rows(node, depth, b).len(),
    decreases node, 0int,
{
    dataset_rows_grow(node.children@, depth + 1, a, b);
}

/// There is a row for every root at least.
pub proof fn roots_are_visible(s: Seq<DatasetNode>, depth: nat, expanded: Set<Seq<char>>)
    ensures
        forest_rows(s, depth, expanded).len() >= s.len(),
    decreases s.len(),
{
    if s.len() > 0 {
        roots_are_visible(s.drop_last(), depth, expanded);
        lemma_node_depths(s.last(), depth, expanded);
    }
}

/// Every visible row shows a dataset of the trees.
pub proof fn rows_are_named(s: Seq<DatasetNode>, depth: nat, expanded: Set<Seq<char>>)
    ensures
        forall|i: int|
            0 <= i < forest_rows(s, depth, expanded).len() ==> forest_names(s).contains(
                (#[trigger] forest_rows(s, depth, expanded)[i]).node.name@,
            ),
    decreases s, 1int,
{
    if s.len() > 0 {
        rows_are_named(s.drop_last(), depth, expanded);
        lemma_node_rows_named(s.last(), depth, expanded);
        let a = forest_rows(s.drop_last(), depth, expanded);
        let b = node_rows(s.last(), depth, expanded);
        assert forall|i: int| 0 <= i < (a + b).len() implies forest_names(s).contains(
            (#[trigger] (a + b)[i]).node.name@,
        ) by {
            if i < a.len() {
                assert((a + b)[i] == a[i]);
            } else {
                assert((a + b)[i] == b[i - a.len()]);
            }
        }
    }
}

proof fn lemma_node_rows_named(node: DatasetNode, depth: nat, expanded: Set<Seq<char>>)
    ensures
        forall|i: int|
            0 <= i < node_rows(node, depth, expanded).len() ==> node_names(node).contains(
                (#[trigger] node_rows(node, depth, expanded)[i]).node.name@,
            ),
    decreases node, 0int,
{
    rows_are_named(node.children@, depth + 1, expanded);
    assert(node_names(node) == forest_names(node.children@).insert(node.name@));
    let r = node_rows(node, depth, expanded);
    let below = forest_rows(node.children@, depth + 1, expanded);
    assert forall|i: int| 0 <= i < r.len() implies node_names(node).contains(
        (#[trigger] r[i]).node.name@,
    ) by {
        if i > 0 {
            assert(r[i] == below[i - 1]);
        }
    }
}

/// A row that `row_named` finds has the name, and none above it does; where it finds none, no
/// row has the name.
pub proof fn row_named_is_first(s: Seq<DatasetRow>, name: Seq<char>)
    ensures
        match row_named(s, name) {
            Some(i) => 0 <= i < s.len() && s[i].node.name@ == name && forall|j: int|
                0 <= j < i ==> (#[trigger] s[j]).node.name@ != name,
            None => forall|j: int| 0 <= j < s.len() ==> (#[trigger] s[j]).node.name@ != name,
        },
    decreases s.len(),
{
    if s.len() > 0 {
        row_named_is_first(s.drop_last(), name);
        let init = s.drop_last();
        assert(forall|j: int| 0 <= j < init.len() ==> (#[trigger] s[j]) == init[j]);
    }
}

/// The first row of that name is the one at `i`.
pub open spec fn first_at(s: Seq<DatasetRow>, i: int, name: Seq<char>) -> bool {
    &&& 0 <= i < s.len()
    &&& s[i].node.name@ == name
    &&& forall|j: int| 0 <= j < i ==> (#[trigger] s[j]).node.name@ != name
}

/// No row has the name.
pub open spec fn unnamed(s: Seq<DatasetRow>, name: Seq<char>) -> bool {
    forall|j: int| 0 <= j < s.len() ==> (#[trigger] s[j]).node.name@ != name
}

/// Two expanded sets that differ in one name only show the same rows down to the first row of
/// that name: to expand or to collapse a dataset leaves all rows above it, and its own, in
/// place.
pub proof fn rows_above_stay(
    s: Seq<DatasetNode>,
    depth: nat,
    a: Set<Seq<char>>,
    b: Set<Seq<char>>,
    name: Seq<char>,
)
    requires
        forall|n: Seq<char>| n != name ==> (#[trigger] a.contains(n) == b.contains(n)),
    ensures
        unnamed(forest_rows(s, depth, a), name) ==> forest_rows(s, depth, b) == forest_rows(
            s,
            depth,
            a,
        ),
        forall|i: int| #[trigger]
            first_at(forest_rows(s, depth, a), i, name) ==> i < forest_rows(s, depth, b).len()
                && forest_rows(s, depth, b).take(i + 1) == forest_rows(s, depth, a).take(i + 1),
    decreases s, 1int,
{
    if s.len() > 0 {
        let init = s.drop_last();
        let node = s.last();
        rows_above_stay(init, depth, a, b, name);
        lemma_node_above_stays(node, depth, a, b, name);
        let ia = forest_rows(init, depth, a);
        let ib = forest_rows(init, depth, b);
        let na = node_rows(node, depth, a);
        let nb = node_rows(node, depth, b);
        lemma_parts(ia, na, ib, nb, name);
    }
}

proof fn lemma_node_above_stays(
    node: DatasetNode,
    depth: nat,
    a: Set<Seq<char>>,
    b: Set<Seq<char>>,
    name: Seq<char>,
)
    requires
        forall|n: Seq<char>| n != name ==> (#[trigger] a.contains(n) == b.contains(n)),
    ensures
        unnamed(node_rows(node, depth, a), name) ==> node_rows(node, depth, b) == node_rows(
            node,
            depth,
            a,
        ),
        forall|i: int| #[trigger]
            first_at(node_rows(node, depth, a), i, name) ==> i < node_rows(node, depth, b).len()
                && node_rows(node, depth, b).take(i + 1) == node_rows(node, depth, a).take(i + 1),
    decreases node, 0int,
{
    let own = seq![DatasetRow { depth, node }];
    let ra = node_rows(node, depth, a);
    let rb = node_rows(node, depth, b);
    assert(ra[0] == own[0] && rb[0] == own[0]);
    if node.name@ == name {
        assert(rb.take(1) =~= ra.take(1));
    } else if a.contains(node.name@) {
        rows_above_stay(node.children@, depth + 1, a, b, name);
        let fa = forest_rows(node.children@, depth + 1, a);
        let fb = forest_rows(node.children@, depth + 1, b);
        assert(own.take(own.len() as int) =~= own);
        lemma_parts(own, fa, own, fb, name);
    }
}

/// Rows that agree down to the first row of a name do so behind other such rows as well.
proof fn lemma_parts(
    pa: Seq<DatasetRow>,
    qa: Seq<DatasetRow>,
    pb: Seq<DatasetRow>,
    qb: Seq<DatasetRow>,
    name: Seq<char>,
)
    requires
        unnamed(pa, name) ==> pb == pa,
        forall|i: int| #[trigger]
            first_at(pa, i, name) ==> i < pb.len() && pb.take(i + 1) == pa.take(i + 1),
        unnamed(qa, name) ==> qb == qa,
        forall|i: int| #[trigger]
            first_at(qa, i, name) ==> i < qb.len() && qb.take(i + 1) == qa.take(i + 1),
    ensures
        unnamed(pa + qa, name) ==> pb + qb == pa + qa,
        forall|i: int| #[trigger]
            first_at(pa + qa, i, name) ==> i < (pb + qb).len() && (pb + qb).take(i + 1) == (pa
                + qa).take(i + 1),
{
    let ra = pa + qa;
    let rb = pb + qb;
    if unnamed(ra, name) {
        assert forall|j: int| 0 <= j < pa.len() implies (#[trigger] pa[j]).node.name@ != name by {
            assert(ra[j] == pa[j]);
        }
        assert forall|j: int| 0 <= j < qa.len() implies (#[trigger] qa[j]).node.name@ != name by {
            assert(ra[pa.len() + j] == qa[j]);
        }
    }
    assert forall|i: int| #[trigger] first_at(ra, i, name) implies i < rb.len() && rb.take(i + 1)
        == ra.take(i + 1) by {
        if i < pa.len() {
            assert forall|j: int| 0 <= j < i implies (#[trigger] pa[j]).node.name@ != name by {
                assert(ra[j] == pa[j]);
            }
            assert(first_at(pa, i, name));
            assert(ra.take(i + 1) =~= pa.take(i + 1));
            assert(rb.take(i + 1) =~= pb.take(i + 1));
        } else {
            let k = i - pa.len();
            assert forall|j: int| 0 <= j < pa.len() implies (#[trigger] pa[j]).node.name@
                != name by {
                assert(ra[j] == pa[j]);
            }
            assert forall|j: int| 0 <= j < k implies (#[trigger] qa[j]).node.name@ != name by {
                assert(ra[pa.len() + j] == qa[j]);
            }
            assert(qa[k] == ra[i]);
            assert(first_at(qa, k, name));
            assert(ra.take(i + 1) =~= pa + qa.take(k + 1));
            assert(rb.take(i + 1) =~= pb + qb.take(k + 1));
        }
    }
}

/// Row `i` is that of a root, or its parent row is that of an expanded dataset that has the
/// row's dataset among its children.
pub open spec fn hangs(rows: Seq<DatasetRow>, i: int, expanded: Set<Seq<char>>) -> bool {
    match parent_row(rows, i) {
        None => rows[i].depth == 0,
        Some(p) => {
            &&& 0 <= p < i
            &&& rows[p].depth + 1 == rows[i].depth
            &&& rows[p].node.children@.contains(rows[i].node)
            &&& expanded.contains(rows[p].node.name@)
        },
    }
}

/// Rows of depth `depth` that come next hang from row `q`.
spec fn hangs_from(
    rows: Seq<DatasetRow>,
    depth: nat,
    q: int,
    s: Seq<DatasetNode>,
    expanded: Set<Seq<char>>,
) -> bool {
    depth > 0 ==> {
        &&& 0 <= q < rows.len()
        &&& nearest_above(rows, rows.len() as int, depth - 1) == Some(q)
        &&& rows[q].depth + 1 == depth
        &&& expanded.contains(rows[q].node.name@)
        &&& forall|k: int| 0 <= k < s.len() ==> rows[q].node.children@.contains(#[trigger] s[k])
    }
}

/// No row lies above the roots.
proof fn lemma_nothing_above_roots(rows: Seq<DatasetRow>, i: int)
    ensures
        nearest_above(rows, i, -1) is None,
    decreases i,
{
    if i > 0 {
        lemma_nothing_above_roots(rows, i - 1);
    }
}

proof fn lemma_node_hangs(
    rows: Seq<DatasetRow>,
    node: DatasetNode,
    depth: nat,
    q: int,
    expanded: Set<Seq<char>>,
)
    requires
        forall|i: int| 0 <= i < rows.len() ==> #[trigger] hangs(rows, i, expanded),
        hangs_from(rows, depth, q, seq![node], expanded),
    ensures
        forall|i: int|
            0 <= i < (rows + node_rows(node, depth, expanded)).len() ==> #[trigger] hangs(
                rows + node_rows(node, depth, expanded),
                i,
                expanded,
            ),
    decreases node, 0int,
{
    let own = rows.push(DatasetRow { depth, node });
    assert forall|i: int| 0 <= i < own.len() implies #[trigger] hangs(own, i, expanded) by {
        if i < rows.len() {
            assert(hangs(rows, i, expanded));
            lemma_nearest_prefix(rows, own, i, rows[i].depth - 1);
        } else {
            lemma_nearest_prefix(rows, own, i, depth - 1);
            if depth == 0 {
                lemma_nothing_above_roots(own, i);
            } else {
                assert(seq![node][0] == node);
                assert(own[q] == rows[q]);
            }
        }
    }
    if expanded.contains(node.name@) {
        let here: int = rows.len() as int;
        let kids = node.children@;
        assert(nearest_above(own, own.len() as int, depth as int) == Some(here));
        assert(forall|k: int| 0 <= k < kids.len() ==> own[here].node.children@.contains(#[trigger] kids[k]));
        lemma_forest_hangs(own, kids, depth + 1, here, expanded);
        assert(own + forest_rows(kids, depth + 1, expanded) =~= rows + node_rows(
            node,
            depth,
            expanded,
        ));
    } else {
        assert(own =~= rows + node_rows(node, depth, expanded));
    }
}

proof fn lemma_forest_hangs(
    rows: Seq<DatasetRow>,
    s: Seq<DatasetNode>,
    depth: nat,
    q: int,
    expanded: Set<Seq<char>>,
)
    requires
        forall|i: int| 0 <= i < rows.len() ==> #[trigger] hangs(rows, i, expanded),
        hangs_from(rows, depth, q, s, expanded),
    ensures
        forall|i: int|
            0 <= i < (rows + forest_rows(s, depth, expanded)).len() ==> #[trigger] hangs(
                rows + forest_rows(s, depth, expanded),
                i,
                expanded,
            ),
    decreases s, 1int,
{
    if s.len() == 0 {
        assert(rows + forest_rows(s, depth, expanded) =~= rows);
    } else {
        let init = s.drop_last();
        let done = forest_rows(init, depth, expanded);
        let node = s.last();
        assert(hangs_from(rows, depth, q, init, expanded)) by {
            assert(forall|k: int| 0 <= k < init.len() ==> (#[trigger] init[k]) == s[k]);
        }
        lemma_forest_hangs(rows, init, depth, q, expanded);
        lemma_forest_depths(init, depth, expanded);
        lemma_nearest_past(rows, done, done.len() as int, depth - 1);
        assert(hangs_from(rows + done, depth, q, seq![node], expanded)) by {
            if depth > 0 {
                assert((rows + done)[q] == rows[q]);
                assert(s[s.len() - 1] == node);
            }
        }
        lemma_node_hangs(rows + done, node, depth, q, expanded);
        assert(rows + done + node_rows(node, depth, expanded) =~= rows + forest_rows(
            s,
            depth,
            expanded,
        ));
    }
}

/// The parent row of a visible row is that of the dataset it is a child of: it lies above, one
/// level up, and is expanded. Only the roots have no parent row.
pub proof fn rows_hang_from_parents(roots: Seq<DatasetNode>, expanded: Set<Seq<char>>)
    ensures
        forall|i: int|
            0 <= i < dataset_rows(roots, expanded).len() ==> #[trigger] hangs(
                dataset_rows(roots, expanded),
                i,
                expanded,
            ),
{
    let none = Seq::<DatasetRow>::empty();
    lemma_forest_hangs(none, roots, 0, 0, expanded);
    assert(none + forest_rows(roots, 0, expanded) =~= dataset_rows(roots, expanded));
}

} // verus!
