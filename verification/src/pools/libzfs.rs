//! Reading a pool from the configuration that libzfs holds of it.
use vstd::prelude::*;

use crate::pools::layout;
use crate::pools::types;
use crate::pools::types::{
    ErrorCounts, PoolHealth, PoolInfo, ScrubState, VdevKind, VdevNode, VdevState,
};
use crate::text;

verus! {

/// One vdev's configuration: what its name-value list holds under each key, and its children.
#[derive(Debug)]
pub struct VdevConfig {
    /// The `type` key.
    pub vdev_type: Option<String>,
    /// The `path` key.
    pub path: Option<String>,
    /// Parity devices of a raidz group; zero where the list names none.
    pub parity: u8,
    /// The `vdev_stats` array.
    pub vdev_stats: Option<Vec<u64>>,
    /// The `scan_stats` array.
    pub scan_stats: Option<Vec<u64>>,
    pub children: Vec<VdevConfig>,
}

/// The numbers of an optional array.
pub open spec fn opt_numbers(v: Option<Vec<u64>>) -> Option<Seq<u64>> {
    match v {
        Some(w) => Some(w@),
        None => None,
    }
}

/// The state that a `vdev_state_t` stands for.
pub open spec fn vdev_state(v: u64) -> VdevState {
    if v == layout::VDEV_STATE_HEALTHY {
        VdevState::Online
    } else if v == layout::VDEV_STATE_DEGRADED {
        VdevState::Degraded
    } else if v == layout::VDEV_STATE_FAULTED || v == layout::VDEV_STATE_CANT_OPEN {
        VdevState::Faulted
    } else if v == layout::VDEV_STATE_OFFLINE || v == layout::VDEV_STATE_CLOSED {
        VdevState::Offline
    } else if v == layout::VDEV_STATE_REMOVED {
        VdevState::Removed
    } else {
        VdevState::Unavail
    }
}

/// The state that a `vdev_state_t` stands for; a value it does not name is unavailable.
pub fn map_vdev_state(v: u64) -> (r: VdevState)
    ensures
        r == vdev_state(v),
{
    match v {
        layout::VDEV_STATE_HEALTHY => VdevState::Online,
        layout::VDEV_STATE_DEGRADED => VdevState::Degraded,
        layout::VDEV_STATE_FAULTED | layout::VDEV_STATE_CANT_OPEN => VdevState::Faulted,
        layout::VDEV_STATE_OFFLINE | layout::VDEV_STATE_CLOSED => VdevState::Offline,
        layout::VDEV_STATE_REMOVED => VdevState::Removed,
        _ => VdevState::Unavail,
    }
}

/// The number at position `i`, if the array is there and reaches that far.
pub open spec fn stat_at(stats: Option<Seq<u64>>, i: int) -> Option<u64> {
    match stats {
        Some(s) if 0 <= i < s.len() => Some(s[i]),
        _ => None,
    }
}

/// State by a `vdev_stats` array: online where there is none, or where it is too short to be
/// one of the known layout.
pub open spec fn stats_state(stats: Option<Seq<u64>>) -> VdevState {
    match stats {
        Some(s) if s.len() >= layout::VS_MIN_LEN => vdev_state(s[layout::VS_IDX_STATE as int]),
        _ => VdevState::Online,
    }
}

/// Errors by a `vdev_stats` array: none counted unless it reaches past all three counters.
pub open spec fn stats_errors(stats: Option<Seq<u64>>) -> ErrorCounts {
    match stats {
        Some(s) if s.len() >= layout::VS_MIN_LEN => ErrorCounts {
            read: s[layout::VS_IDX_READ_ERRORS as int],
            write: s[layout::VS_IDX_WRITE_ERRORS as int],
            checksum: s[layout::VS_IDX_CHECKSUM_ERRORS as int],
        },
        _ => ErrorCounts { read: 0, write: 0, checksum: 0 },
    }
}

/// State and errors by a `vdev_stats` array.
pub fn read_vdev_stats(stats: &Option<Vec<u64>>) -> (r: (VdevState, ErrorCounts))
    ensures
        r.0 == stats_state(opt_numbers(*stats)),
        r.1 == stats_errors(opt_numbers(*stats)),
{
    match stats {
        Some(s) => if s.len() >= layout::VS_MIN_LEN {
            let errors: ErrorCounts = ErrorCounts {
                read: s[layout::VS_IDX_READ_ERRORS],
                write: s[layout::VS_IDX_WRITE_ERRORS],
                checksum: s[layout::VS_IDX_CHECKSUM_ERRORS],
            };
            (map_vdev_state(s[layout::VS_IDX_STATE]), errors)
        } else {
            (VdevState::Online, ErrorCounts::default())
        },
        None => (VdevState::Online, ErrorCounts::default()),
    }
}

/// Size by a `vdev_stats` array, if it reaches that far.
fn read_size(stats: &Option<Vec<u64>>) -> (r: Option<u64>)
    ensures
        r == stat_at(opt_numbers(*stats), layout::VS_IDX_SPACE as int),
{
    match stats {
        Some(s) => if layout::VS_IDX_SPACE < s.len() {
            Some(s[layout::VS_IDX_SPACE])
        } else {
            None
        },
        None => None,
    }
}

/// How much of a scan is done, in whole percent.
pub open spec fn scan_progress(to_examine: u64, examined: u64) -> u8 {
    if to_examine == 0 {
        0
    } else {
        let pct = (examined * 100) / (to_examine as int);
        if pct > 100 {
            100
        } else {
            pct as u8
        }
    }
}

/// Bytes examined per second since the scan began; unknown before a second has passed, or
/// where the start was not recorded.
pub open spec fn scan_speed(start_time: u64, examined: u64, now: u64) -> Option<u64> {
    if start_time > 0 && now > start_time {
        Some((examined as int / (now - start_time)) as u64)
    } else {
        None
    }
}

/// Seconds that the rest of a scan takes at the given speed.
pub open spec fn scan_eta(to_examine: u64, examined: u64, speed: Option<u64>) -> Option<u64> {
    match speed {
        Some(v) if v > 0 && 0 < examined < to_examine => Some(
            ((to_examine - examined) / (v as int)) as u64,
        ),
        _ => None,
    }
}

/// The scan described by a `scan_stats` array, seen at second `now`.
pub open spec fn scan_state(stats: Option<Seq<u64>>, now: u64) -> ScrubState {
    match stats {
        Some(s) if s.len() >= layout::PSS_MIN_LEN => {
            let state = s[layout::PSS_IDX_STATE as int];
            let to_examine = s[layout::PSS_IDX_TO_EXAMINE as int];
            let examined = s[layout::PSS_IDX_EXAMINED as int];
            let speed = scan_speed(s[layout::PSS_IDX_START_TIME as int], examined, now);
            if state == layout::DSS_SCANNING {
                ScrubState::InProgress {
                    progress_pct: scan_progress(to_examine, examined),
                    eta_seconds: scan_eta(to_examine, examined, speed),
                    speed_bytes_per_sec: speed,
                    is_resilver: s[layout::PSS_IDX_FUNC as int] == layout::POOL_SCAN_RESILVER,
                }
            } else if state == layout::DSS_FINISHED {
                ScrubState::Finished {
                    completed_at: s[layout::PSS_IDX_END_TIME as int],
                    errors_repaired: s[layout::PSS_IDX_ERRORS as int],
                }
            } else if state == layout::DSS_CANCELED {
                ScrubState::Error
            } else {
                ScrubState::Never
            }
        },
        _ => ScrubState::Never,
    }
}

/// A hundred times the bytes examined by a running scan is still a 64-bit number.
pub open spec fn scan_fits(stats: Option<Seq<u64>>) -> bool {
    match stats {
        Some(s) => s.len() >= layout::PSS_MIN_LEN && s[layout::PSS_IDX_STATE as int]
            == layout::DSS_SCANNING && s[layout::PSS_IDX_TO_EXAMINE as int] != 0
            ==> s[layout::PSS_IDX_EXAMINED as int] * 100 <= u64::MAX,
        None => true,
    }
}

/// The scan described by a `scan_stats` array, seen at second `now`; never scanned where the
/// array is missing or too short.
pub fn read_scan_state(stats: &Option<Vec<u64>>, now: u64) -> (r: ScrubState)
    requires
        scan_fits(opt_numbers(*stats)),
    ensures
        r == scan_state(opt_numbers(*stats), now),
{
    let s: &Vec<u64> = match stats {
        Some(v) => v,
        None => {
            return ScrubState::Never;
        },
    };
    if s.len() < layout::PSS_MIN_LEN {
        return ScrubState::Never;
    }
    let func: u64 = s[layout::PSS_IDX_FUNC];
    match s[layout::PSS_IDX_STATE] {
        layout::DSS_NONE => ScrubState::Never,
        layout::DSS_SCANNING => {
            let to_examine: u64 = s[layout::PSS_IDX_TO_EXAMINE];
            let examined: u64 = s[layout::PSS_IDX_EXAMINED];
            let progress_pct: u8 = if to_examine == 0 {
                0
            } else {
                let pct: u64 = (examined * 100) / to_examine;
                if pct > 100 {
                    100
                } else {
                    pct as u8
                }
            };
            let start_time: u64 = s[layout::PSS_IDX_START_TIME];
            let speed: Option<u64> = if start_time > 0 && now > start_time {
                let elapsed: u64 = now - start_time;
                proof {
                    lemma_quotient_at_most(examined as int, elapsed as int);
                }
                Some(examined / elapsed)
            } else {
                None
            };
            let eta: Option<u64> = match speed {
                Some(v) => if v > 0 && examined > 0 && to_examine > examined {
                    proof {
                        lemma_quotient_at_most(to_examine - examined, v as int);
                    }
                    Some((to_examine - examined) / v)
                } else {
                    None
                },
                None => None,
            };
            ScrubState::InProgress {
                progress_pct,
                eta_seconds: eta,
                speed_bytes_per_sec: speed,
                is_resilver: func == layout::POOL_SCAN_RESILVER,
            }
        },
        layout::DSS_FINISHED => ScrubState::Finished {
            completed_at: s[layout::PSS_IDX_END_TIME],
            errors_repaired: s[layout::PSS_IDX_ERRORS],
        },
        layout::DSS_CANCELED => ScrubState::Error,
        _ => ScrubState::Never,
    }
}

proof fn lemma_quotient_at_most(a: int, b: int)
    requires
        0 <= a,
        0 < b,
    ensures
        0 <= a / b <= a,
{
    assert(0 <= a / b <= a) by (nonlinear_arith)
        requires
            0 <= a,
            0 < b,
    ;
}

/// No scan is more than done, one that has examined all is done, and the rest of a scan takes
/// at least the estimated time at the estimated speed.
pub proof fn scan_estimates(stats: Option<Seq<u64>>, now: u64)
    ensures
        scan_state(stats, now) matches ScrubState::InProgress {
            progress_pct,
            eta_seconds,
            speed_bytes_per_sec,
            ..
        } ==> {
            let to_examine = stats->0[layout::PSS_IDX_TO_EXAMINE as int];
            let examined = stats->0[layout::PSS_IDX_EXAMINED as int];
            &&& progress_pct <= 100
            &&& examined >= to_examine > 0 ==> progress_pct == 100
            &&& eta_seconds matches Some(t) ==> (speed_bytes_per_sec matches Some(v) && t * v
                <= to_examine - examined)
        },
{
    if scan_state(stats, now) is InProgress {
        let to_examine = stats->0[layout::PSS_IDX_TO_EXAMINE as int] as int;
        let examined = stats->0[layout::PSS_IDX_EXAMINED as int] as int;
        if to_examine > 0 {
            assert(0 <= (examined * 100) / to_examine) by (nonlinear_arith)
                requires
                    0 <= examined,
                    to_examine > 0,
            ;
            if examined >= to_examine {
                assert((examined * 100) / to_examine >= 100) by (nonlinear_arith)
                    requires
                        examined >= to_examine > 0,
                ;
            }
        }
        let speed = scan_speed(
            stats->0[layout::PSS_IDX_START_TIME as int],
            examined as u64,
            now,
        );
        if let Some(v) = speed {
            let rest = to_examine - examined;
            if v > 0 && rest > 0 {
                lemma_quotient_at_most(rest, v as int);
                assert((rest / v as int) * v <= rest) by (nonlinear_arith)
                    requires
                        rest > 0,
                        v > 0,
                ;
            }
        }
    }
}

/// Whether a type names a device or a file.
pub open spec fn is_leaf_type(t: Seq<char>) -> bool {
    t == layout::VDEV_TYPE_DISK@ || t == layout::VDEV_TYPE_FILE@
}

/// What a vdev of type `t` is, inside the given group of log, cache or spare devices. A type that
/// is not known counts as a disk.
pub open spec fn kind_of(group: Option<VdevKind>, t: Seq<char>, parity: u8) -> VdevKind {
    if t == layout::VDEV_TYPE_MIRROR@ || t == layout::VDEV_TYPE_REPLACING@ {
        VdevKind::Mirror
    } else if t == layout::VDEV_TYPE_RAIDZ@ || t == layout::VDEV_TYPE_DRAID@ {
        VdevKind::Raidz { parity }
    } else if t == layout::VDEV_TYPE_LOG@ {
        VdevKind::LogGroup
    } else if t == layout::VDEV_TYPE_L2CACHE@ {
        VdevKind::CacheGroup
    } else if t == layout::VDEV_TYPE_SPARE@ {
        VdevKind::SpareGroup
    } else if is_leaf_type(t) && group == Some(VdevKind::LogGroup) {
        VdevKind::LogVdev
    } else if is_leaf_type(t) && group == Some(VdevKind::CacheGroup) {
        VdevKind::CacheVdev
    } else if is_leaf_type(t) && group == Some(VdevKind::SpareGroup) {
        VdevKind::SpareVdev
    } else if t == layout::VDEV_TYPE_FILE@ {
        VdevKind::File
    } else {
        VdevKind::Disk
    }
}

/// Whether a vdev of this kind is a device or a file of its own.
pub open spec fn is_leaf(kind: VdevKind) -> bool {
    kind is Disk || kind is File || kind is LogVdev || kind is CacheVdev || kind is SpareVdev
}

/// Whether a vdev of this kind only gathers log, cache or spare devices.
pub open spec fn is_group(kind: VdevKind) -> bool {
    kind is LogGroup || kind is CacheGroup || kind is SpareGroup
}

/// The group that the children of a vdev of this kind are in.
pub open spec fn group_below(kind: VdevKind, group: Option<VdevKind>) -> Option<VdevKind> {
    if is_group(kind) {
        Some(kind)
    } else {
        group
    }
}

/// The `type` key; empty where it is missing.
pub open spec fn type_text(c: VdevConfig) -> Seq<char> {
    match c.vdev_type {
        Some(t) => t@,
        None => Seq::empty(),
    }
}

/// A device path without its leading directory.
pub open spec fn short_path(path: Seq<char>) -> Seq<char> {
    match text::after_prefix(path, "/dev/"@) {
        Some(rest) => rest,
        None => path,
    }
}

/// What a vdev is called: a device by its path, everything else by its type.
pub open spec fn display_name(c: VdevConfig, kind: VdevKind) -> Seq<char> {
    match c.path {
        Some(p) if is_leaf(kind) => short_path(p@),
        _ => type_text(c),
    }
}

/// The vdev that a configuration describes, inside the given group.
pub open spec fn child_model(c: VdevConfig, group: Option<VdevKind>) -> types::VdevModel
    decreases c,
{
    let kind = kind_of(group, type_text(c), c.parity);
    let stats = opt_numbers(c.vdev_stats);
    types::VdevModel {
        name: display_name(c, kind),
        kind,
        state: stats_state(stats),
        size_bytes: if is_group(kind) {
            None
        } else {
            stat_at(stats, layout::VS_IDX_SPACE as int)
        },
        errors: stats_errors(stats),
        children: child_models(c.children@, group_below(kind, group)),
        device_path: if is_leaf(kind) {
            text::opt_text(c.path)
        } else {
            None
        },
    }
}

/// The vdevs that the configurations of `s` describe, in order.
pub open spec fn child_models(s: Seq<VdevConfig>, group: Option<VdevKind>) -> Seq<types::VdevModel>
    decreases s,
{
    if s.len() == 0 {
        Seq::empty()
    } else {
        child_models(s.drop_last(), group).push(child_model(s.last(), group))
    }
}

/// The root vdev that a configuration describes; it goes by the name of its pool.
pub open spec fn root_model(c: VdevConfig, pool_name: Seq<char>) -> types::VdevModel {
    let stats = opt_numbers(c.vdev_stats);
    types::VdevModel {
        name: pool_name,
        kind: VdevKind::Root,
        state: stats_state(stats),
        size_bytes: stat_at(stats, layout::VS_IDX_SPACE as int),
        errors: stats_errors(stats),
        children: child_models(c.children@, None),
        device_path: None,
    }
}

/// The type names a device, a file, or what gathers them.
pub open spec fn is_known_type(t: Seq<char>) -> bool {
    ||| is_leaf_type(t)
    ||| t == layout::VDEV_TYPE_MIRROR@
    ||| t == layout::VDEV_TYPE_REPLACING@
    ||| t == layout::VDEV_TYPE_RAIDZ@
    ||| t == layout::VDEV_TYPE_DRAID@
    ||| t == layout::VDEV_TYPE_LOG@
    ||| t == layout::VDEV_TYPE_L2CACHE@
    ||| t == layout::VDEV_TYPE_SPARE@
}

/// All types in a configuration and below it are known.
pub open spec fn types_known(c: VdevConfig) -> bool
    decreases c,
{
    is_known_type(type_text(c)) && all_types_known(c.children@)
}

/// All types in the configurations of `s` and below them are known.
pub open spec fn all_types_known(s: Seq<VdevConfig>) -> bool
    decreases s,
{
    s.len() == 0 || (all_types_known(s.drop_last()) && types_known(s.last()))
}

/// Every device and file in a tree is marked as one for logs, caches or spares.
pub open spec fn all_marked(m: types::VdevModel) -> bool
    decreases m,
{
    !(m.kind is Disk) && !(m.kind is File) && all_marked_in(m.children)
}

/// Every device and file in the trees of `s` is marked as one for logs, caches or spares.
pub open spec fn all_marked_in(s: Seq<types::VdevModel>) -> bool
    decreases s,
{
    s.len() == 0 || (all_marked_in(s.drop_last()) && all_marked(s.last()))
}

/// A vdev of a group type is that group and has no size of its own.
pub proof fn group_types_are_groups(c: VdevConfig, group: Option<VdevKind>)
    ensures
        type_text(c) == layout::VDEV_TYPE_LOG@ ==> child_model(c, group).kind is LogGroup,
        type_text(c) == layout::VDEV_TYPE_L2CACHE@ ==> child_model(c, group).kind is CacheGroup,
        type_text(c) == layout::VDEV_TYPE_SPARE@ ==> child_model(c, group).kind is SpareGroup,
        is_group(child_model(c, group).kind) ==> child_model(c, group).size_bytes is None
            && child_model(c, group).children == child_models(
            c.children@,
            Some(child_model(c, group).kind),
        ),
{
    lemma_types_differ();
}

/// Lengths and first letters tell the types apart.
proof fn lemma_types_differ()
    ensures
        layout::VDEV_TYPE_MIRROR@.len() == 6,
        layout::VDEV_TYPE_REPLACING@.len() == 9,
        layout::VDEV_TYPE_RAIDZ@.len() == 5 && layout::VDEV_TYPE_RAIDZ@[0] == 'r',
        layout::VDEV_TYPE_DRAID@.len() == 5 && layout::VDEV_TYPE_DRAID@[0] == 'd',
        layout::VDEV_TYPE_LOG@.len() == 3,
        layout::VDEV_TYPE_L2CACHE@.len() == 7,
        layout::VDEV_TYPE_SPARE@.len() == 5 && layout::VDEV_TYPE_SPARE@[0] == 's',
        layout::VDEV_TYPE_DISK@.len() == 4,
        layout::VDEV_TYPE_FILE@.len() == 4,
{
    reveal_strlit("mirror");
    reveal_strlit("replacing");
    reveal_strlit("raidz");
    reveal_strlit("draid");
    reveal_strlit("log");
    reveal_strlit("l2cache");
    reveal_strlit("spare");
    reveal_strlit("disk");
    reveal_strlit("file");
}

/// Inside a group every device and file is marked as one of a group, also those of mirrors and
/// raidz vdevs in it, as far as the types are known.
pub proof fn groups_mark_their_devices(c: VdevConfig, group: VdevKind)
    requires
        is_group(group),
        types_known(c),
    ensures
        all_marked(child_model(c, Some(group))),
        type_text(c) == layout::VDEV_TYPE_DISK@ || type_text(c) == layout::VDEV_TYPE_FILE@ ==> {
            let kind = child_model(c, Some(group)).kind;
            &&& group is LogGroup ==> kind is LogVdev
            &&& group is CacheGroup ==> kind is CacheVdev
            &&& group is SpareGroup ==> kind is SpareVdev
        },
    decreases c, 0int,
{
    lemma_types_differ();
    let m = child_model(c, Some(group));
    let below = group_below(m.kind, Some(group));
    lemma_groups_mark_all(c.children@, below->0);
    assert(m.children == child_models(c.children@, below));
}

proof fn lemma_groups_mark_all(s: Seq<VdevConfig>, group: VdevKind)
    requires
        is_group(group),
        all_types_known(s),
    ensures
        all_marked_in(child_models(s, Some(group))),
    decreases s, 1int,
{
    if s.len() > 0 {
        lemma_groups_mark_all(s.drop_last(), group);
        groups_mark_their_devices(s.last(), group);
        let all = child_models(s, Some(group));
        assert(all.drop_last() =~= child_models(s.drop_last(), Some(group)));
        assert(all.last() == child_model(s.last(), Some(group)));
    }
}

/// What a vdev of type `t` is, inside the given group.
fn classify(group: Option<VdevKind>, t: &String, parity: u8) -> (r: VdevKind)
    ensures
        r == kind_of(group, t@, parity),
{
    if text::same_text(t, layout::VDEV_TYPE_MIRROR) || text::same_text(
        t,
        layout::VDEV_TYPE_REPLACING,
    ) {
        return VdevKind::Mirror;
    }
    if text::same_text(t, layout::VDEV_TYPE_RAIDZ) || text::same_text(t, layout::VDEV_TYPE_DRAID) {
        return VdevKind::Raidz { parity };
    }
    if text::same_text(t, layout::VDEV_TYPE_LOG) {
        return VdevKind::LogGroup;
    }
    if text::same_text(t, layout::VDEV_TYPE_L2CACHE) {
        return VdevKind::CacheGroup;
    }
    if text::same_text(t, layout::VDEV_TYPE_SPARE) {
        return VdevKind::SpareGroup;
    }
    let file: bool = text::same_text(t, layout::VDEV_TYPE_FILE);
    if file || text::same_text(t, layout::VDEV_TYPE_DISK) {
        match group {
            Some(VdevKind::LogGroup) => {
                return VdevKind::LogVdev;
            },
            Some(VdevKind::CacheGroup) => {
                return VdevKind::CacheVdev;
            },
            Some(VdevKind::SpareGroup) => {
                return VdevKind::SpareVdev;
            },
            _ => {},
        }
    }
    if file {
        VdevKind::File
    } else {
        VdevKind::Disk
    }
}

/// Walks the configurations of `nodes` in order.
fn walk_children(nodes: &Vec<VdevConfig>, group: Option<VdevKind>) -> (r: Vec<VdevNode>)
    ensures
        types::vdev_models(r@) == child_models(nodes@, group),
    decreases nodes@, 0int,
{
    let mut out: Vec<VdevNode> = Vec::new();
    let mut i: usize = 0;
    assert(nodes@.take(0) =~= Seq::empty());
    while i < nodes.len()
        invariant
            i <= nodes.len(),
            types::vdev_models(out@) == child_models(nodes@.take(i as int), group),
        decreases nodes.len() - i,
    {
        let ghost before = out@;
        let child: VdevNode = walk_child_vdev(&nodes[i], group);
        out.push(child);
        assert(out@.drop_last() =~= before);
        assert(nodes@.take(i + 1).drop_last() =~= nodes@.take(i as int));
        i = i + 1;
    }
    assert(nodes@.take(i as int) =~= nodes@);
    out
}

/// Builds the vdev that a configuration describes, with all vdevs below it. `parent_group`
/// tells devices of a log, cache or spare group apart from ordinary ones.
pub fn walk_child_vdev(c: &VdevConfig, parent_group: Option<VdevKind>) -> (r: VdevNode)
    ensures
        r.model() == child_model(*c, parent_group),
    decreases c, 1int,
{
    let type_str: String = match &c.vdev_type {
        Some(t) => t.clone(),
        None => String::new(),
    };
    let kind: VdevKind = classify(parent_group, &type_str, c.parity);
    let leaf: bool = match kind {
        VdevKind::Disk
        | VdevKind::File
        | VdevKind::LogVdev
        | VdevKind::CacheVdev
        | VdevKind::SpareVdev => true,
        _ => false,
    };
    let group: bool = match kind {
        VdevKind::LogGroup | VdevKind::CacheGroup | VdevKind::SpareGroup => true,
        _ => false,
    };
    let name: String = match &c.path {
        Some(p) => if leaf {
            match text::strip_prefix(p.as_str(), "/dev/") {
                Some(rest) => rest,
                None => p.clone(),
            }
        } else {
            type_str
        },
        None => type_str,
    };
    let (state, errors) = read_vdev_stats(&c.vdev_stats);
    let size_bytes: Option<u64> = if group {
        None
    } else {
        read_size(&c.vdev_stats)
    };
    let child_group: Option<VdevKind> = if group {
        Some(kind)
    } else {
        parent_group
    };
    let children: Vec<VdevNode> = walk_children(&c.children, child_group);
    let device_path: Option<String> = if leaf {
        text::copy_opt(&c.path)
    } else {
        None
    };
    VdevNode { name, kind, state, size_bytes, errors, children, device_path }
}

/// Builds the root vdev of the named pool, with all vdevs below it.
pub fn walk_root_vdev(c: &VdevConfig, pool_name: &str) -> (r: VdevNode)
    ensures
        r.model() == root_model(*c, pool_name@),
{
    let (state, errors) = read_vdev_stats(&c.vdev_stats);
    let size_bytes: Option<u64> = read_size(&c.vdev_stats);
    let children: Vec<VdevNode> = walk_children(&c.children, None);
    VdevNode {
        name: pool_name.to_owned(),
        kind: VdevKind::Root,
        state,
        size_bytes,
        errors,
        children,
        device_path: None,
    }
}

/// The health of a pool whose root vdev is in the given state.
pub open spec fn health_of(state: VdevState) -> PoolHealth {
    match state {
        VdevState::Online => PoolHealth::Online,
        VdevState::Degraded => PoolHealth::Degraded,
        VdevState::Faulted => PoolHealth::Faulted,
        VdevState::Offline => PoolHealth::Offline,
        VdevState::Removed => PoolHealth::Removed,
        VdevState::Unavail => PoolHealth::Unavail,
    }
}

/// The health of a pool: the state of its root vdev.
pub fn derive_pool_health(root: &VdevNode) -> (r: PoolHealth)
    ensures
        r == health_of(root.state),
{
    match root.state {
        VdevState::Online => PoolHealth::Online,
        VdevState::Degraded => PoolHealth::Degraded,
        VdevState::Faulted => PoolHealth::Faulted,
        VdevState::Offline => PoolHealth::Offline,
        VdevState::Removed => PoolHealth::Removed,
        VdevState::Unavail => PoolHealth::Unavail,
    }
}

/// What looking up a pool's vdev tree came to.
#[derive(Debug)]
pub enum TreeLookup {
    /// The pool has no configuration.
    NoConfig,
    /// The configuration has no vdev tree; `rc` is the code that the lookup returned.
    Failed { rc: i32 },
    Found(VdevConfig),
}

/// One pool as libzfs hands it out.
#[derive(Debug)]
pub struct PoolConfig {
    pub name: Option<String>,
    pub size_bytes: u64,
    pub allocated_bytes: u64,
    pub free_bytes: u64,
    /// Percentage of fragmentation, or a larger number where it is not known.
    pub fragmentation: u64,
    pub vdev_tree: TreeLookup,
    /// When the pool was read, in seconds since the Unix epoch.
    pub read_at: u64,
}

/// Why a pool could not be read.
#[derive(Debug)]
pub enum PoolError {
    NoName,
    NoConfig { name: String },
    NoVdevTree { rc: i32 },
}

/// The counters of a pool's vdev tree are small enough to be added up.
pub open spec fn tree_fits(c: VdevConfig, pool_name: Seq<char>) -> bool {
    &&& scan_fits(opt_numbers(c.scan_stats))
    &&& types::model_errors(root_model(c, pool_name)) <= u64::MAX
}

/// The counters of a pool are small enough to be added up.
pub open spec fn pool_fits(p: PoolConfig) -> bool {
    match (p.name, p.vdev_tree) {
        (Some(name), TreeLookup::Found(c)) => tree_fits(c, name@),
        _ => true,
    }
}

/// The pool that `p` describes, or why it describes none.
pub open spec fn pool_model(p: PoolConfig) -> Result<types::PoolModel, PoolError> {
    match p.name {
        None => Err(PoolError::NoName),
        Some(name) => match p.vdev_tree {
            TreeLookup::NoConfig => Err(PoolError::NoConfig { name }),
            TreeLookup::Failed { rc } => Err(PoolError::NoVdevTree { rc }),
            TreeLookup::Found(c) => {
                let root = root_model(c, name@);
                Ok(
                    types::PoolModel {
                        name: name@,
                        health: health_of(root.state),
                        allocated_bytes: p.allocated_bytes,
                        size_bytes: p.size_bytes,
                        free_bytes: p.free_bytes,
                        fragmentation_pct: if p.fragmentation <= 100 {
                            Some(p.fragmentation as u8)
                        } else {
                            None
                        },
                        scrub: scan_state(opt_numbers(c.scan_stats), p.read_at),
                        errors: ErrorCounts {
                            read: types::model_errors(root) as u64,
                            write: 0,
                            checksum: 0,
                        },
                        root_vdev: root,
                    },
                )
            },
        },
    }
}

/// Reads one pool. Its errors are those of all its vdevs together, kept under `read`.
pub fn build_pool_info(p: &PoolConfig) -> (r: Result<PoolInfo, PoolError>)
    requires
        pool_fits(*p),
    ensures
        match pool_model(*p) {
            Ok(m) => r is Ok && r->Ok_0.model() == m,
            Err(e) => r == Err::<PoolInfo, PoolError>(e),
        },
{
    let name: String = match &p.name {
        Some(name) => name.clone(),
        None => {
            return Err(PoolError::NoName);
        },
    };
    let fragmentation_pct: Option<u8> = if p.fragmentation <= 100 {
        Some(p.fragmentation as u8)
    } else {
        None
    };
    let tree: &VdevConfig = match &p.vdev_tree {
        TreeLookup::NoConfig => {
            return Err(PoolError::NoConfig { name });
        },
        TreeLookup::Failed { rc } => {
            return Err(PoolError::NoVdevTree { rc: *rc });
        },
        TreeLookup::Found(c) => c,
    };
    let root_vdev: VdevNode = walk_root_vdev(tree, name.as_str());
    let scrub: ScrubState = read_scan_state(&tree.scan_stats, p.read_at);
    let errors: ErrorCounts = ErrorCounts {
        read: root_vdev.total_errors(),
        write: 0,
        checksum: 0,
    };
    Ok(
        PoolInfo {
            name,
            health: derive_pool_health(&root_vdev),
            allocated_bytes: p.allocated_bytes,
            size_bytes: p.size_bytes,
            free_bytes: p.free_bytes,
            fragmentation_pct,
            scrub,
            errors,
            root_vdev,
        },
    )
}

/// Whether the counters of a pool are small enough to be added up.
pub fn counters_fit(p: &PoolConfig) -> (r: bool)
    ensures
        r == pool_fits(*p),
{
    let name: &String = match &p.name {
        Some(name) => name,
        None => {
            return true;
        },
    };
    let tree: &VdevConfig = match &p.vdev_tree {
        TreeLookup::Found(c) => c,
        _ => {
            return true;
        },
    };
    if let Some(s) = &tree.scan_stats {
        if s.len() >= layout::PSS_MIN_LEN && s[layout::PSS_IDX_STATE] == layout::DSS_SCANNING
            && s[layout::PSS_IDX_TO_EXAMINE] != 0 && s[layout::PSS_IDX_EXAMINED].checked_mul(
            100,
        ).is_none() {
            return false;
        }
    }
    walk_root_vdev(tree, name.as_str()).checked_total_errors().is_some()
}

/// The pools that can be read from `s`, in order.
pub open spec fn readable(s: Seq<PoolConfig>) -> Seq<types::PoolModel>
    decreases s.len(),
{
    if s.len() == 0 {
        Seq::empty()
    } else {
        match pool_model(s.last()) {
            Ok(m) => readable(s.drop_last()).push(m),
            Err(_) => readable(s.drop_last()),
        }
    }
}

/// Why the other pools of `s` cannot be read, in order.
pub open spec fn unreadable(s: Seq<PoolConfig>) -> Seq<PoolError>
    decreases s.len(),
{
    if s.len() == 0 {
        Seq::empty()
    } else {
        match pool_model(s.last()) {
            Ok(_) => unreadable(s.drop_last()),
            Err(e) => unreadable(s.drop_last()).push(e),
        }
    }
}

/// Every pool of a listing is either read or accounted for, and one that can be read is read
/// whatever the others are.
pub proof fn no_pool_is_lost(s: Seq<PoolConfig>)
    ensures
        readable(s).len() + unreadable(s).len() == s.len(),
        forall|i: int|
            0 <= i < s.len() ==> match #[trigger] pool_model(s[i]) {
                Ok(m) => readable(s).contains(m),
                Err(e) => unreadable(s).contains(e),
            },
    decreases s.len(),
{
    if s.len() > 0 {
        let init = s.drop_last();
        no_pool_is_lost(init);
        assert forall|i: int| 0 <= i < s.len() implies match #[trigger] pool_model(s[i]) {
            Ok(m) => readable(s).contains(m),
            Err(e) => unreadable(s).contains(e),
        } by {
            let last = s.len() - 1;
            match pool_model(s[i]) {
                Ok(m) => if i < last {
                    assert(init[i] == s[i]);
                    let k = choose|k: int| 0 <= k < readable(init).len() && readable(init)[k] == m;
                    assert(readable(s)[k] == m);
                } else {
                    assert(readable(s)[readable(init).len() as int] == m);
                },
                Err(e) => if i < last {
                    assert(init[i] == s[i]);
                    let k = choose|k: int|
                        0 <= k < unreadable(init).len() && unreadable(init)[k] == e;
                    assert(unreadable(s)[k] == e);
                } else {
                    assert(unreadable(s)[unreadable(init).len() as int] == e);
                },
            }
        }
    }
}

/// What each pool of `s` holds.
pub open spec fn pool_models(s: Seq<PoolInfo>) -> Seq<types::PoolModel> {
    Seq::new(s.len(), |i: int| s[i].model())
}

/// Why the pools could not be listed at all.
#[derive(Debug)]
pub struct ListError {
    pub rc: i32,
    pub description: String,
}

/// The pools of the last successful listing.
#[derive(Debug)]
pub struct LibzfsPoolsSource {
    snapshot: Vec<PoolInfo>,
}

impl View for LibzfsPoolsSource {
    type V = Seq<types::PoolModel>;

    closed spec fn view(&self) -> Seq<types::PoolModel> {
        pool_models(self.snapshot@)
    }
}

impl LibzfsPoolsSource {
    /// A source that has not listed any pool yet.
    pub fn new() -> (r: LibzfsPoolsSource)
        ensures
            r@ == Seq::<types::PoolModel>::empty(),
    {
        let r = LibzfsPoolsSource { snapshot: Vec::new() };
        assert(r@ =~= Seq::<types::PoolModel>::empty());
        r
    }

    /// Takes over a new listing. One bad pool does not spoil the others: it is left out, and
    /// the reason is handed back. Where the pools could not be listed, the last snapshot stays.
    pub fn refresh(&mut self, listing: Result<Vec<PoolConfig>, ListError>) -> (r: Result<
        Vec<PoolError>,
        ListError,
    >)
        requires
            listing is Ok ==> forall|i: int|
                0 <= i < listing->Ok_0.len() ==> pool_fits(#[trigger] listing->Ok_0[i]),
        ensures
            match listing {
                Ok(configs) => {
                    &&& r is Ok
                    &&& r->Ok_0@ == unreadable(configs@)
                    &&& final(self)@ == readable(configs@)
                },
                Err(e) => {
                    &&& r == Err::<Vec<PoolError>, ListError>(e)
                    &&& final(self)@ == old(self)@
                },
            },
    {
        let configs: Vec<PoolConfig> = match listing {
            Ok(c) => c,
            Err(e) => {
                return Err(e);
            },
        };
        let ghost all = configs@;
        let mut pools: Vec<PoolInfo> = Vec::new();
        let mut skipped: Vec<PoolError> = Vec::new();
        let mut i: usize = 0;
        assert(all.take(0) =~= Seq::empty());
        assert(pool_models(pools@) =~= Seq::empty());
        while i < configs.len()
            invariant
                i <= configs.len(),
                configs@ == all,
                forall|j: int| 0 <= j < all.len() ==> pool_fits(#[trigger] all[j]),
                pool_models(pools@) == readable(all.take(i as int)),
                skipped@ == unreadable(all.take(i as int)),
            decreases configs.len() - i,
        {
            let ghost before = pools@;
            assert(all.take(i + 1).drop_last() =~= all.take(i as int));
            match build_pool_info(&configs[i]) {
                Ok(p) => {
                    pools.push(p);
                    assert(pool_models(pools@) =~= pool_models(before).push(p.model()));
                },
                Err(e) => {
                    skipped.push(e);
                },
            }
            i = i + 1;
        }
        assert(all.take(i as int) =~= all);
        self.snapshot = pools;
        Ok(skipped)
    }

    /// A copy of the pools of the last successful listing.
    pub fn pools(&self) -> (r: Vec<PoolInfo>)
        ensures
            pool_models(r@) == self@,
    {
        let mut out: Vec<PoolInfo> = Vec::new();
        let mut i: usize = 0;
        while i < self.snapshot.len()
            invariant
                i <= self.snapshot.len(),
                pool_models(out@) == pool_models(self.snapshot@.take(i as int)),
            decreases self.snapshot.len() - i,
        {
            let ghost before = out@;
            let p: PoolInfo = self.snapshot[i].clone();
            out.push(p);
            i = i + 1;
            proof {
                assert(pool_models(out@) =~= pool_models(before).push(p.model()));
                assert(pool_models(self.snapshot@.take(i as int)) =~= pool_models(
                    self.snapshot@.take(i - 1),
                ).push(self.snapshot@[i - 1].model()));
            }
        }
        assert(self.snapshot@.take(i as int) =~= self.snapshot@);
        out
    }
}

} // verus!
