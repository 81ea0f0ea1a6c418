//! What reading a pool gives, told by what its configuration lists.
use vstd::prelude::*;

use crate::pools::libzfs;
use crate::pools::libzfs::{
    build_pool_info, derive_pool_health, map_vdev_state, read_scan_state, read_vdev_stats,
    walk_child_vdev, walk_root_vdev, LibzfsPoolsSource, ListError, PoolConfig, PoolError,
    TreeLookup, VdevConfig,
};
use crate::pools::types;
use crate::pools::types::{
    ErrorCounts, PoolHealth, PoolInfo, ScrubState, VdevKind, VdevNode, VdevState,
};

verus! {

/// `v` is the number of `state` among the states that libzfs counts up from 0: unknown, closed,
/// offline, removed, cannot be opened, faulted, degraded, healthy.
pub open spec fn numbers_state(v: u64, state: VdevState) -> bool {
    &&& state is Online <==> v == 7
    &&& state is Degraded <==> v == 6
    &&& state is Faulted <==> v == 5 || v == 4
    &&& state is Removed <==> v == 3
    &&& state is Offline <==> v == 2 || v == 1
    &&& state is Unavail <==> v == 0 || v > 7
}

/// State and errors are those that the statistics list: the state in the second place, the
/// errors in the last three of the first twenty-three. Shorter statistics list nothing.
pub open spec fn stats_listed(
    stats: Option<Vec<u64>>,
    state: VdevState,
    errors: ErrorCounts,
) -> bool {
    if stats is Some && stats->0@.len() >= 23 {
        &&& numbers_state(stats->0@[1], state)
        &&& errors.read == stats->0@[20]
        &&& errors.write == stats->0@[21]
        &&& errors.checksum == stats->0@[22]
    } else {
        state is Online && errors.read == 0 && errors.write == 0 && errors.checksum == 0
    }
}

/// The size is the fifth number of the statistics.
pub open spec fn size_listed(stats: Option<Vec<u64>>, size: Option<u64>) -> bool {
    if stats is Some && stats->0@.len() > 4 {
        size == Some(stats->0@[4])
    } else {
        size is None
    }
}

/// What the `type` key spells; nothing where it is missing.
pub open spec fn spelled(c: VdevConfig) -> Seq<char> {
    match c.vdev_type {
        Some(t) => t@,
        None => Seq::empty(),
    }
}

/// A device or a file.
pub open spec fn is_device(kind: VdevKind) -> bool {
    kind is Disk || kind is File || kind is LogVdev || kind is CacheVdev || kind is SpareVdev
}

/// A group of log, cache or spare devices.
pub open spec fn gathers(kind: VdevKind) -> bool {
    kind is LogGroup || kind is CacheGroup || kind is SpareGroup
}

/// The kind is the one that the type spells, inside the given group.
pub open spec fn kind_spelled(
    kind: VdevKind,
    t: Seq<char>,
    parity: u8,
    group: Option<VdevKind>,
) -> bool {
    let device = t == "disk"@ || t == "file"@;
    &&& kind is Mirror <==> t == "mirror"@ || t == "replacing"@
    &&& kind is Raidz <==> t == "raidz"@ || t == "draid"@
    &&& kind is Raidz ==> kind == (VdevKind::Raidz { parity })
    &&& kind is LogGroup <==> t == "log"@
    &&& kind is CacheGroup <==> t == "l2cache"@
    &&& kind is SpareGroup <==> t == "spare"@
    &&& kind is LogVdev <==> device && group == Some(VdevKind::LogGroup)
    &&& kind is CacheVdev <==> device && group == Some(VdevKind::CacheGroup)
    &&& kind is SpareVdev <==> device && group == Some(VdevKind::SpareGroup)
    &&& kind is File <==> t == "file"@ && !(group is Some && gathers(group->0))
    &&& !(kind is Root)
}

/// A device goes by its path, without a leading `/dev/`; all else goes by its type.
pub open spec fn name_listed(n: VdevNode, c: VdevConfig) -> bool {
    if is_device(n.kind) && c.path is Some {
        let path = c.path->0@;
        if "/dev/"@.is_prefix_of(path) {
            path == "/dev/"@ + n.name@
        } else {
            n.name@ == path
        }
    } else {
        n.name@ == spelled(c)
    }
}

/// The path is kept of a device, and of nothing else.
pub open spec fn path_listed(n: VdevNode, c: VdevConfig) -> bool {
    if is_device(n.kind) && c.path is Some {
        n.device_path is Some && n.device_path->0@ == c.path->0@
    } else {
        n.device_path is None
    }
}

/// The group that what is below a vdev is in.
pub open spec fn inside(kind: VdevKind, group: Option<VdevKind>) -> Option<VdevKind> {
    if gathers(kind) {
        Some(kind)
    } else {
        group
    }
}

/// The vdev is the one that the configuration lists, and so is each below it, in order.
pub open spec fn vdev_listed(n: VdevNode, c: VdevConfig, group: Option<VdevKind>) -> bool
    decreases c,
{
    &&& stats_listed(c.vdev_stats, n.state, n.errors)
    &&& kind_spelled(n.kind, spelled(c), c.parity, group)
    &&& if gathers(n.kind) {
        n.size_bytes is None
    } else {
        size_listed(c.vdev_stats, n.size_bytes)
    }
    &&& name_listed(n, c)
    &&& path_listed(n, c)
    &&& vdevs_listed(n.children@, c.children@, inside(n.kind, group))
}

/// One by one, the vdevs are those that the configurations list.
pub open spec fn vdevs_listed(
    s: Seq<VdevNode>,
    cs: Seq<VdevConfig>,
    group: Option<VdevKind>,
) -> bool
    decreases cs,
{
    if cs.len() == 0 {
        s.len() == 0
    } else {
        &&& s.len() == cs.len()
        &&& vdevs_listed(s.drop_last(), cs.drop_last(), group)
        &&& vdev_listed(s.last(), cs.last(), group)
    }
}

/// What is listed one by one is listed at every place.
pub proof fn listed_at_every_place(
    s: Seq<VdevNode>,
    cs: Seq<VdevConfig>,
    group: Option<VdevKind>,
)
    requires
        vdevs_listed(s, cs, group),
    ensures
        s.len() == cs.len(),
        forall|i: int| 0 <= i < cs.len() ==> #[trigger] vdev_listed(s[i], cs[i], group),
    decreases cs.len(),
{
    if cs.len() > 0 {
        listed_at_every_place(s.drop_last(), cs.drop_last(), group);
        assert forall|i: int| 0 <= i < cs.len() implies #[trigger] vdev_listed(
            s[i],
            cs[i],
            group,
        ) by {
            if i < cs.len() - 1 {
                assert(vdev_listed(s.drop_last()[i], cs.drop_last()[i], group));
            }
        }
    }
}

/// The spelled types are all different.
proof fn lemma_spellings()
    ensures
        "mirror"@.len() == 6,
        "replacing"@.len() == 9,
        "raidz"@.len() == 5 && "raidz"@[0] == 'r',
        "draid"@.len() == 5 && "draid"@[0] == 'd',
        "log"@.len() == 3,
        "l2cache"@.len() == 7,
        "spare"@.len() == 5 && "spare"@[0] == 's',
        "disk"@.len() == 4 && "disk"@[0] == 'd',
        "file"@.len() == 4 && "file"@[0] == 'f',
{
    reveal_strlit("mirror");
    reveal_strlit("replacing");
    reveal_strlit("raidz");
    reveal_strlit("draid");
    reveal_strlit("log");
    reveal_strlit("l2cache");
    reveal_strlit("spare");
    reveal_strlit("disk");
    reveal_strlit("file");
}

proof fn lemma_vdev_listed(n: VdevNode, c: VdevConfig, group: Option<VdevKind>)
    requires
        n.model() == libzfs::child_model(c, group),
    ensures
        vdev_listed(n, c, group),
    decreases c, 0int,
{
    lemma_spellings();
    let below = inside(n.kind, group);
    assert(types::vdev_models(n.children@) == libzfs::child_models(c.children@, below));
    lemma_vdevs_listed(n.children@, c.children@, below);
    if is_device(n.kind) && c.path is Some {
        let path = c.path->0@;
        let dev = "/dev/"@;
        if dev.is_prefix_of(path) {
            assert(dev + path.skip(dev.len() as int) =~= path);
        }
    }
}

proof fn lemma_vdevs_listed(s: Seq<VdevNode>, cs: Seq<VdevConfig>, group: Option<VdevKind>)
    requires
        types::vdev_models(s) == libzfs::child_models(cs, group),
    ensures
        vdevs_listed(s, cs, group),
    decreases cs, 1int,
{
    types::vdev_models_index(s);
    if cs.len() > 0 {
        let ms = libzfs::child_models(cs, group);
        assert(ms.drop_last() =~= libzfs::child_models(cs.drop_last(), group));
        assert(ms.last() == libzfs::child_model(cs.last(), group));
        assert(types::vdev_models(s).drop_last() =~= types::vdev_models(s.drop_last()));
        assert(types::vdev_models(s).last() == s.last().model());
        lemma_vdevs_listed(s.drop_last(), cs.drop_last(), group);
        lemma_vdev_listed(s.last(), cs.last(), group);
    }
}

/// `map_vdev_state` goes by the numbers that libzfs gives its states.
pub proof fn states_go_by_number(v: u64, r: VdevState)
    requires
        call_ensures(map_vdev_state, (v,), r),
    ensures
        numbers_state(v, r),
{
}

/// `read_vdev_stats` gives what the statistics list.
pub proof fn stats_are_read(stats: Option<Vec<u64>>, r: (VdevState, ErrorCounts))
    requires
        call_ensures(read_vdev_stats, (&stats,), r),
    ensures
        stats_listed(stats, r.0, r.1),
{
}

/// `walk_child_vdev` gives the vdev that is listed, with all below it at every depth: each with
/// the state, the errors, the size, the kind, the name and the path of its own configuration.
pub proof fn children_are_read(c: VdevConfig, group: Option<VdevKind>, r: VdevNode)
    requires
        call_ensures(walk_child_vdev, (&c, group), r),
    ensures
        vdev_listed(r, c, group),
{
    lemma_vdev_listed(r, c, group);
}

/// The root goes by the name of its pool; all else about it is listed.
pub open spec fn root_listed(n: VdevNode, c: VdevConfig, pool_name: Seq<char>) -> bool {
    &&& n.name@ == pool_name
    &&& n.kind is Root
    &&& n.device_path is None
    &&& stats_listed(c.vdev_stats, n.state, n.errors)
    &&& size_listed(c.vdev_stats, n.size_bytes)
    &&& vdevs_listed(n.children@, c.children@, None)
}

proof fn lemma_root_listed(n: VdevNode, c: VdevConfig, pool_name: Seq<char>)
    requires
        n.model() == libzfs::root_model(c, pool_name),
    ensures
        root_listed(n, c, pool_name),
{
    assert(types::vdev_models(n.children@) == libzfs::child_models(c.children@, None));
    lemma_vdevs_listed(n.children@, c.children@, None);
}

/// `walk_root_vdev` gives the whole tree that is listed.
pub proof fn roots_are_read(c: VdevConfig, pool_name: &str, r: VdevNode)
    requires
        call_ensures(walk_root_vdev, (&c, pool_name), r),
    ensures
        root_listed(r, c, pool_name@),
{
    lemma_root_listed(r, c, pool_name@);
}

/// `q` is `a / b`, rounded down.
pub open spec fn divides(a: int, b: int, q: int) -> bool {
    q * b <= a < (q + 1) * b
}

/// The scan is the one that the statistics list: what is scanned for, the state, the start, the
/// end, how much there is to examine and how much is examined stand in the first six places,
/// the errors in the ninth. Shorter statistics list no scan.
pub open spec fn scan_listed(stats: Option<Vec<u64>>, now: u64, r: ScrubState) -> bool {
    if stats is None || stats->0@.len() < 9 {
        r is Never
    } else {
        let s = stats->0@;
        &&& r is InProgress <==> s[1] == 1
        &&& r is Finished <==> s[1] == 2
        &&& r is Error <==> s[1] == 3
        &&& r is Never <==> s[1] == 0 || s[1] > 3
        &&& r matches ScrubState::Finished { completed_at, errors_repaired } ==> completed_at
            == s[3] && errors_repaired == s[8]
        &&& r matches ScrubState::InProgress {
            progress_pct,
            eta_seconds,
            speed_bytes_per_sec,
            is_resilver,
        } ==> {
            let rest = s[4] - s[5];
            &&& is_resilver <==> s[0] == 2
            &&& s[4] == 0 ==> progress_pct == 0
            &&& s[4] > 0 && rest <= 0 ==> progress_pct == 100
            &&& s[4] > 0 && rest > 0 ==> divides(s[5] * 100, s[4] as int, progress_pct as int)
            &&& speed_bytes_per_sec is Some <==> s[2] > 0 && now > s[2]
            &&& speed_bytes_per_sec matches Some(v) ==> divides(
                s[5] as int,
                now - s[2],
                v as int,
            )
            &&& eta_seconds is Some <==> s[5] > 0 && rest > 0 && speed_bytes_per_sec is Some
                && speed_bytes_per_sec->0 > 0
            &&& eta_seconds matches Some(t) ==> divides(
                rest,
                speed_bytes_per_sec->0 as int,
                t as int,
            )
        }
    }
}

proof fn lemma_divides(a: int, b: int)
    requires
        0 <= a,
        0 < b,
    ensures
        divides(a, b, a / b),
        0 <= a / b <= a,
{
    assert((a / b) * b <= a && a < (a / b + 1) * b && 0 <= a / b <= a) by (nonlinear_arith)
        requires
            0 <= a,
            0 < b,
    ;
}

proof fn lemma_scan_listed(stats: Option<Vec<u64>>, now: u64)
    ensures
        scan_listed(stats, now, libzfs::scan_state(libzfs::opt_numbers(stats), now)),
{
    if stats is Some && stats->0@.len() >= 9 {
        let s = stats->0@;
        let to = s[4] as int;
        let done = s[5] as int;
        if s[2] > 0 && now > s[2] {
            lemma_divides(done, now - s[2]);
            let v = done / (now - s[2]);
            if to > done && v > 0 {
                lemma_divides(to - done, v);
            }
        }
        if to > 0 {
            lemma_divides(done * 100, to);
            let q = done * 100 / to;
            if done >= to {
                assert(q >= 100) by (nonlinear_arith)
                    requires
                        divides(done * 100, to, q),
                        done >= to > 0,
                ;
            } else {
                assert(q < 100) by (nonlinear_arith)
                    requires
                        divides(done * 100, to, q),
                        done < to,
                ;
            }
        }
    }
}

/// `read_scan_state` gives the scan that is listed.
pub proof fn scans_are_read(stats: Option<Vec<u64>>, now: u64, r: ScrubState)
    requires
        call_ensures(read_scan_state, (&stats, now), r),
    ensures
        scan_listed(stats, now, r),
{
    lemma_scan_listed(stats, now);
}

/// A pool is as healthy as its root.
pub open spec fn same_health(state: VdevState, health: PoolHealth) -> bool {
    &&& health is Online <==> state is Online
    &&& health is Degraded <==> state is Degraded
    &&& health is Faulted <==> state is Faulted
    &&& health is Offline <==> state is Offline
    &&& health is Removed <==> state is Removed
    &&& health is Unavail <==> state is Unavail
}

/// `derive_pool_health` gives the health of the root.
pub proof fn health_is_the_roots(root: VdevNode, r: PoolHealth)
    requires
        call_ensures(derive_pool_health, (&root,), r),
    ensures
        same_health(root.state, r),
{
}

/// All errors that a configuration and those below it list.
pub open spec fn errors_listed(c: VdevConfig) -> nat
    decreases c,
{
    let own = if c.vdev_stats is Some && c.vdev_stats->0@.len() >= 23 {
        (c.vdev_stats->0@[20] + c.vdev_stats->0@[21] + c.vdev_stats->0@[22]) as nat
    } else {
        0
    };
    own + all_errors_listed(c.children@)
}

/// All errors that the configurations of `s` and those below them list.
pub open spec fn all_errors_listed(s: Seq<VdevConfig>) -> nat
    decreases s,
{
    if s.len() == 0 {
        0
    } else {
        all_errors_listed(s.drop_last()) + errors_listed(s.last())
    }
}

proof fn lemma_errors_listed(c: VdevConfig, group: Option<VdevKind>)
    ensures
        types::model_errors(libzfs::child_model(c, group)) == errors_listed(c),
    decreases c, 0int,
{
    let m = libzfs::child_model(c, group);
    lemma_all_errors_listed(c.children@, libzfs::group_below(m.kind, group));
    assert(types::model_errors(m) == m.errors.total() + types::forest_errors(m.children));
    assert(m.children == libzfs::child_models(
        c.children@,
        libzfs::group_below(m.kind, group),
    ));
}

proof fn lemma_all_errors_listed(s: Seq<VdevConfig>, group: Option<VdevKind>)
    ensures
        types::forest_errors(libzfs::child_models(s, group)) == all_errors_listed(s),
    decreases s, 1int,
{
    if s.len() > 0 {
        let all = libzfs::child_models(s, group);
        assert(all.drop_last() =~= libzfs::child_models(s.drop_last(), group));
        assert(all.last() == libzfs::child_model(s.last(), group));
        lemma_all_errors_listed(s.drop_last(), group);
        lemma_errors_listed(s.last(), group);
    }
}

/// The pool has a name and a vdev tree.
pub open spec fn can_be_read(c: PoolConfig) -> bool {
    c.name is Some && c.vdev_tree is Found
}

/// The pool is the one that is listed.
pub open spec fn pool_listed(p: PoolInfo, c: PoolConfig) -> bool {
    &&& c.name matches Some(name) && p.name@ == name@
    &&& c.vdev_tree matches TreeLookup::Found(tree) && {
        &&& root_listed(p.root_vdev, tree, p.name@)
        &&& scan_listed(tree.scan_stats, c.read_at, p.scrub)
        &&& p.errors.read == errors_listed(tree)
    }
    &&& p.errors.write == 0 && p.errors.checksum == 0
    &&& same_health(p.root_vdev.state, p.health)
    &&& p.size_bytes == c.size_bytes
    &&& p.allocated_bytes == c.allocated_bytes
    &&& p.free_bytes == c.free_bytes
    &&& if c.fragmentation <= 100 {
        p.fragmentation_pct is Some && p.fragmentation_pct->0 == c.fragmentation
    } else {
        p.fragmentation_pct is None
    }
}

proof fn lemma_pool_listed(p: PoolInfo, c: PoolConfig)
    requires
        libzfs::pool_fits(c),
        libzfs::pool_model(c) matches Ok(m) && p.model() == m,
    ensures
        pool_listed(p, c),
        can_be_read(c),
{
    let tree = c.vdev_tree->Found_0;
    let name = c.name->0@;
    lemma_root_listed(p.root_vdev, tree, name);
    lemma_scan_listed(tree.scan_stats, c.read_at);
    let root = libzfs::root_model(tree, name);
    lemma_all_errors_listed(tree.children@, None);
    assert(types::model_errors(root) == root.errors.total() + types::forest_errors(root.children));
}

/// `build_pool_info` gives the pool that is listed; it fails where the name, the configuration
/// or its vdev tree is missing, and nowhere else.
pub proof fn pools_are_read(c: PoolConfig, r: Result<PoolInfo, PoolError>)
    requires
        libzfs::pool_fits(c),
        call_ensures(build_pool_info, (&c,), r),
    ensures
        r is Ok <==> can_be_read(c),
        r matches Ok(p) ==> pool_listed(p, c),
        r matches Err(PoolError::NoName) <==> c.name is None,
        r matches Err(PoolError::NoConfig { name }) <==> (c.name is Some
            && c.vdev_tree is NoConfig),
        r matches Err(PoolError::NoConfig { name }) ==> Some(name) == c.name,
        r matches Err(PoolError::NoVdevTree { rc }) <==> (c.name is Some
            && c.vdev_tree is Failed),
        r matches Err(PoolError::NoVdevTree { rc }) ==> c.vdev_tree == (TreeLookup::Failed { rc }),
{
    if r is Ok {
        lemma_pool_listed(r->Ok_0, c);
    }
}

/// The pools are those of the listing that can be read, in order.
pub open spec fn pools_listed(s: Seq<PoolInfo>, cs: Seq<PoolConfig>) -> bool
    decreases cs.len(),
{
    if cs.len() == 0 {
        s.len() == 0
    } else if can_be_read(cs.last()) {
        s.len() > 0 && pool_listed(s.last(), cs.last()) && pools_listed(
            s.drop_last(),
            cs.drop_last(),
        )
    } else {
        pools_listed(s, cs.drop_last())
    }
}

proof fn lemma_pools_listed(s: Seq<PoolInfo>, cs: Seq<PoolConfig>)
    requires
        forall|i: int| 0 <= i < cs.len() ==> libzfs::pool_fits(#[trigger] cs[i]),
        libzfs::pool_models(s) == libzfs::readable(cs),
    ensures
        pools_listed(s, cs),
    decreases cs.len(),
{
    assert(libzfs::pool_models(s).len() == s.len());
    if cs.len() > 0 {
        let c = cs.last();
        let init = cs.drop_last();
        assert(cs[cs.len() - 1] == c);
        assert forall|i: int| 0 <= i < init.len() implies libzfs::pool_fits(#[trigger] init[i]) by {
            assert(init[i] == cs[i]);
        }
        if can_be_read(c) {
            let m = libzfs::pool_model(c)->Ok_0;
            assert(libzfs::readable(cs).last() == m);
            assert(libzfs::pool_models(s).last() == s.last().model());
            lemma_pool_listed(s.last(), c);
            assert(libzfs::pool_models(s.drop_last()) =~= libzfs::pool_models(s).drop_last());
            assert(libzfs::readable(cs).drop_last() =~= libzfs::readable(init));
            lemma_pools_listed(s.drop_last(), init);
        } else {
            lemma_pools_listed(s, init);
        }
    }
}

/// After a listing the source hands out the pools of it that can be read, in order, and tells
/// of each other why not; after a failed listing it hands out what it did before.
pub proof fn listings_are_taken_over(
    x: &mut LibzfsPoolsSource,
    before: LibzfsPoolsSource,
    after: LibzfsPoolsSource,
    listing: Result<Vec<PoolConfig>, ListError>,
    r: Result<Vec<PoolError>, ListError>,
    had: Vec<PoolInfo>,
    has: Vec<PoolInfo>,
)
    requires
        before == *old(x),
        after == *final(x),
        listing is Ok ==> forall|i: int|
            0 <= i < listing->Ok_0@.len() ==> libzfs::pool_fits(#[trigger] listing->Ok_0@[i]),
        call_ensures(LibzfsPoolsSource::refresh, (x, listing), r),
        call_ensures(LibzfsPoolsSource::pools, (&before,), had),
        call_ensures(LibzfsPoolsSource::pools, (&after,), has),
    ensures
        r is Ok <==> listing is Ok,
        listing matches Ok(cs) ==> pools_listed(has@, cs@) && has@.len() + r->Ok_0@.len()
            == cs@.len(),
        listing matches Err(e) ==> r->Err_0 == e && has@.len() == had@.len() && forall|i: int|
            0 <= i < has@.len() ==> pools_alike(#[trigger] has@[i], had@[i]),
{
    if listing is Err {
        let a = libzfs::pool_models(has@);
        let b = libzfs::pool_models(had@);
        assert(a == b && a.len() == has@.len() && b.len() == had@.len());
        assert forall|i: int| 0 <= i < has@.len() implies pools_alike(
            #[trigger] has@[i],
            had@[i],
        ) by {
            assert(a[i] == has@[i].model());
            assert(b[i] == had@[i].model());
            lemma_alike(has@[i].root_vdev, had@[i].root_vdev);
        }
    }
    if let Ok(cs) = listing {
        lemma_pools_listed(has@, cs@);
        libzfs::no_pool_is_lost(cs@);
        assert(libzfs::pool_models(has@).len() == has@.len());
    }
}

/// The error tells why the pool cannot be read.
pub open spec fn error_told(e: PoolError, c: PoolConfig) -> bool {
    match e {
        PoolError::NoName => c.name is None,
        PoolError::NoConfig { name } => c.name == Some(name) && c.vdev_tree is NoConfig,
        PoolError::NoVdevTree { rc } => c.name is Some && c.vdev_tree == (TreeLookup::Failed {
            rc,
        }),
    }
}

/// The errors tell of the pools of the listing that cannot be read, in order.
pub open spec fn errors_told(s: Seq<PoolError>, cs: Seq<PoolConfig>) -> bool
    decreases cs.len(),
{
    if cs.len() == 0 {
        s.len() == 0
    } else if can_be_read(cs.last()) {
        errors_told(s, cs.drop_last())
    } else {
        s.len() > 0 && error_told(s.last(), cs.last()) && errors_told(
            s.drop_last(),
            cs.drop_last(),
        )
    }
}

proof fn lemma_errors_told(cs: Seq<PoolConfig>)
    ensures
        errors_told(libzfs::unreadable(cs), cs),
    decreases cs.len(),
{
    if cs.len() > 0 {
        lemma_errors_told(cs.drop_last());
        let s = libzfs::unreadable(cs);
        if !can_be_read(cs.last()) {
            assert(s.drop_last() =~= libzfs::unreadable(cs.drop_last()));
        }
    }
}

/// A listing tells of each pool that cannot be read why not.
pub proof fn unreadable_pools_are_told_of(
    x: &mut LibzfsPoolsSource,
    cs: Vec<PoolConfig>,
    r: Result<Vec<PoolError>, ListError>,
)
    requires
        forall|i: int| 0 <= i < cs@.len() ==> libzfs::pool_fits(#[trigger] cs@[i]),
        call_ensures(LibzfsPoolsSource::refresh, (x, Ok(cs)), r),
    ensures
        r matches Ok(es) && errors_told(es@, cs@),
{
    lemma_errors_told(cs@);
}

/// Before any listing a source hands out no pools.
pub proof fn sources_start_empty(source: LibzfsPoolsSource, r: Vec<PoolInfo>)
    requires
        call_ensures(LibzfsPoolsSource::new, (), source),
        call_ensures(LibzfsPoolsSource::pools, (&source,), r),
    ensures
        r@.len() == 0,
{
    assert(libzfs::pool_models(r@).len() == r@.len());
}

/// The errors of all vdevs together are a 64-bit number, and so is a hundred times what a scan
/// in progress has examined, where there is something to examine.
pub open spec fn sums_fit(c: PoolConfig) -> bool {
    c.name is Some ==> (c.vdev_tree matches TreeLookup::Found(tree) ==> {
        &&& errors_listed(tree) <= u64::MAX
        &&& tree.scan_stats matches Some(v) ==> (v@.len() >= 9 && v@[1] == 1 && v@[4] > 0
            ==> v@[5] * 100 <= u64::MAX)
    })
}

/// `counters_fit` tells whether the sums over a pool are 64-bit numbers.
pub proof fn fitting_sums_are_told(c: PoolConfig, r: bool)
    requires
        call_ensures(libzfs::counters_fit, (&c,), r),
    ensures
        r == sums_fit(c),
{
    if c.name is Some && c.vdev_tree is Found {
        let tree = c.vdev_tree->Found_0;
        let root = libzfs::root_model(tree, c.name->0@);
        lemma_all_errors_listed(tree.children@, None);
        assert(types::model_errors(root) == root.errors.total() + types::forest_errors(
            root.children,
        ));
    }
}

/// All errors of a vdev and of those below it.
pub open spec fn errors_below(n: VdevNode) -> nat
    decreases n,
{
    (n.errors.read + n.errors.write + n.errors.checksum) as nat + all_errors_below(n.children@)
}

/// All errors of the vdevs of `s` and of those below them.
pub open spec fn all_errors_below(s: Seq<VdevNode>) -> nat
    decreases s,
{
    if s.len() == 0 {
        0
    } else {
        all_errors_below(s.drop_last()) + errors_below(s.last())
    }
}

proof fn lemma_errors_below(n: VdevNode)
    ensures
        types::model_errors(n.model()) == errors_below(n),
    decreases n, 0int,
{
    lemma_all_errors_below(n.children@);
    let m = n.model();
    assert(types::model_errors(m) == m.errors.total() + types::forest_errors(m.children));
}

proof fn lemma_all_errors_below(s: Seq<VdevNode>)
    ensures
        types::forest_errors(types::vdev_models(s)) == all_errors_below(s),
    decreases s, 1int,
{
    if s.len() > 0 {
        let all = types::vdev_models(s);
        assert(all.drop_last() =~= types::vdev_models(s.drop_last()));
        assert(all.last() == s.last().model());
        lemma_all_errors_below(s.drop_last());
        lemma_errors_below(s.last());
    }
}

/// The total of a vdev counts the errors of all kinds, its own and those of all vdevs below it.
pub proof fn totals_count_every_vdev(n: VdevNode, total: u64, checked: Option<u64>)
    requires
        errors_below(n) <= u64::MAX,
        call_ensures(VdevNode::total_errors, (&n,), total),
        call_ensures(VdevNode::checked_total_errors, (&n,), checked),
    ensures
        total == errors_below(n),
        checked == Some(total),
{
    lemma_errors_below(n);
}

/// A total that is not a 64-bit number is told.
pub proof fn large_totals_are_told(n: VdevNode, checked: Option<u64>)
    requires
        errors_below(n) > u64::MAX,
        call_ensures(VdevNode::checked_total_errors, (&n,), checked),
    ensures
        checked is None,
{
    lemma_errors_below(n);
}

/// Errors of all kinds count alike.
pub proof fn sums_count_every_kind(e: ErrorCounts, none: ErrorCounts, r: u64)
    requires
        e.read + e.write + e.checksum <= u64::MAX,
        call_ensures(ErrorCounts::sum, (&e,), r),
        call_ensures(ErrorCounts::default, (), none),
    ensures
        r == e.read + e.write + e.checksum,
        none.read == 0 && none.write == 0 && none.checksum == 0,
{
}

/// The two vdevs are alike, and so are those below them.
pub open spec fn alike(a: VdevNode, b: VdevNode) -> bool
    decreases a,
{
    &&& a.name@ == b.name@
    &&& a.kind == b.kind
    &&& a.state == b.state
    &&& a.size_bytes == b.size_bytes
    &&& a.errors == b.errors
    &&& a.device_path is Some <==> b.device_path is Some
    &&& a.device_path is Some ==> a.device_path->0@ == b.device_path->0@
    &&& all_alike(a.children@, b.children@)
}

/// The vdevs of `a` and `b` are alike, one by one.
pub open spec fn all_alike(a: Seq<VdevNode>, b: Seq<VdevNode>) -> bool
    decreases a,
{
    &&& a.len() == b.len()
    &&& a.len() > 0 ==> alike(a.last(), b.last()) && all_alike(a.drop_last(), b.drop_last())
}

proof fn lemma_alike(a: VdevNode, b: VdevNode)
    requires
        a.model() == b.model(),
    ensures
        alike(a, b),
    decreases a, 0int,
{
    lemma_all_alike(a.children@, b.children@);
}

proof fn lemma_all_alike(a: Seq<VdevNode>, b: Seq<VdevNode>)
    requires
        types::vdev_models(a) == types::vdev_models(b),
    ensures
        all_alike(a, b),
    decreases a, 1int,
{
    types::vdev_models_index(a);
    types::vdev_models_index(b);
    assert(a.len() == b.len());
    if a.len() > 0 {
        let x = types::vdev_models(a);
        let y = types::vdev_models(b);
        assert(x.drop_last() =~= types::vdev_models(a.drop_last()));
        assert(y.drop_last() =~= types::vdev_models(b.drop_last()));
        assert(x.last() == a.last().model());
        assert(y.last() == b.last().model());
        lemma_alike(a.last(), b.last());
        lemma_all_alike(a.drop_last(), b.drop_last());
    }
}

/// The two pools are alike, down to the last vdev.
pub open spec fn pools_alike(a: PoolInfo, b: PoolInfo) -> bool {
    &&& a.name@ == b.name@
    &&& a.health == b.health
    &&& a.allocated_bytes == b.allocated_bytes
    &&& a.size_bytes == b.size_bytes
    &&& a.free_bytes == b.free_bytes
    &&& a.fragmentation_pct == b.fragmentation_pct
    &&& a.scrub == b.scrub
    &&& a.errors == b.errors
    &&& alike(a.root_vdev, b.root_vdev)
}

/// A copy of a vdev or of a pool is like it in everything.
pub proof fn copies_are_alike(n: VdevNode, copy: VdevNode, p: PoolInfo, copied: PoolInfo)
    requires
        call_ensures(VdevNode::clone, (&n,), copy),
        call_ensures(PoolInfo::clone, (&p,), copied),
    ensures
        alike(copy, n),
        pools_alike(copied, p),
{
    lemma_alike(copy, n);
    lemma_alike(copied.root_vdev, p.root_vdev);
}

} // verus!
