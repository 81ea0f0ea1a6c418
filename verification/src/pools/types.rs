//! Pools, vdevs and their state.
use vstd::prelude::*;

use crate::text;

verus! {

/// Health of a whole pool.
#[derive(Copy, Clone, Debug, PartialEq, Eq, Structural)]
pub enum PoolHealth {
    Online,
    Degraded,
    Faulted,
    Offline,
    Removed,
    Unavail,
}

/// State of one vdev.
#[derive(Copy, Clone, Debug, PartialEq, Eq, Structural)]
pub enum VdevState {
    Online,
    Degraded,
    Faulted,
    Offline,
    Removed,
    Unavail,
}

/// What a vdev is.
#[derive(Copy, Clone, Debug, PartialEq, Eq, Structural)]
pub enum VdevKind {
    Root,
    Mirror,
    Raidz { parity: u8 },
    Disk,
    File,
    LogGroup,
    LogVdev,
    CacheGroup,
    CacheVdev,
    SpareGroup,
    SpareVdev,
}

/// I/O errors counted on a vdev.
#[derive(Copy, Clone, Debug, PartialEq, Eq, Structural)]
pub struct ErrorCounts {
    pub read: u64,
    pub write: u64,
    pub checksum: u64,
}

impl ErrorCounts {
    /// All errors together.
    pub open spec fn total(self) -> nat {
        (self.read + self.write + self.checksum) as nat
    }

    /// All errors together.
    pub fn sum(&self) -> (r: u64)
        requires
            self.total() <= u64::MAX,
        ensures
            r == self.total(),
    {
        self.read + self.write + self.checksum
    }
}

impl Default for ErrorCounts {
    fn default() -> (r: ErrorCounts)
        ensures
            r == (ErrorCounts { read: 0, write: 0, checksum: 0 }),
    {
        ErrorCounts { read: 0, write: 0, checksum: 0 }
    }
}

/// Where the last scrub or resilver of a pool stands.
#[derive(Copy, Clone, Debug, PartialEq, Eq, Structural)]
pub enum ScrubState {
    Never,
    InProgress {
        progress_pct: u8,
        eta_seconds: Option<u64>,
        speed_bytes_per_sec: Option<u64>,
        is_resilver: bool,
    },
    /// `completed_at` counts seconds since the Unix epoch.
    Finished { completed_at: u64, errors_repaired: u64 },
    Error,
}

/// One node of a pool's vdev tree.
#[derive(Debug)]
pub struct VdevNode {
    pub name: String,
    pub kind: VdevKind,
    pub state: VdevState,
    pub size_bytes: Option<u64>,
    pub errors: ErrorCounts,
    pub children: Vec<VdevNode>,
    pub device_path: Option<String>,
}

/// One pool.
#[derive(Debug)]
pub struct PoolInfo {
    pub name: String,
    pub health: PoolHealth,
    pub allocated_bytes: u64,
    pub size_bytes: u64,
    pub free_bytes: u64,
    pub fragmentation_pct: Option<u8>,
    pub scrub: ScrubState,
    pub errors: ErrorCounts,
    pub root_vdev: VdevNode,
}

/// Where the pools come from. `refresh` fetches them anew; `pools` hands out what was fetched
/// last.
pub trait PoolsSource {
    fn refresh(&mut self) -> Result<(), String>;

    fn pools(&self) -> Vec<PoolInfo>;
}

/// What a `VdevNode` holds.
#[verifier::ext_equal]
pub ghost struct VdevModel {
    pub name: Seq<char>,
    pub kind: VdevKind,
    pub state: VdevState,
    pub size_bytes: Option<u64>,
    pub errors: ErrorCounts,
    pub children: Seq<VdevModel>,
    pub device_path: Option<Seq<char>>,
}

impl VdevNode {
    /// What the node holds, its children taken the same way.
    pub open spec fn model(self) -> VdevModel
        decreases self,
    {
        VdevModel {
            name: self.name@,
            kind: self.kind,
            state: self.state,
            size_bytes: self.size_bytes,
            errors: self.errors,
            children: vdev_models(self.children@),
            device_path: text::opt_text(self.device_path),
        }
    }
}

/// What each node of `s` holds.
pub open spec fn vdev_models(s: Seq<VdevNode>) -> Seq<VdevModel>
    decreases s,
{
    if s.len() == 0 {
        Seq::empty()
    } else {
        vdev_models(s.drop_last()).push(s.last().model())
    }
}

/// Errors counted on a node and on every vdev below it.
pub open spec fn model_errors(m: VdevModel) -> nat
    decreases m,
{
    m.errors.total() + forest_errors(m.children)
}

/// Errors counted in all trees of `s`.
pub open spec fn forest_errors(s: Seq<VdevModel>) -> nat
    decreases s,
{
    if s.len() == 0 {
        0
    } else {
        forest_errors(s.drop_last()) + model_errors(s.last())
    }
}

/// `vdev_models` takes node by node.
pub proof fn vdev_models_index(s: Seq<VdevNode>)
    ensures
        vdev_models(s).len() == s.len(),
        forall|i: int| 0 <= i < s.len() ==> #[trigger] vdev_models(s)[i] == s[i].model(),
    decreases s.len(),
{
    if s.len() > 0 {
        vdev_models_index(s.drop_last());
    }
}

/// The errors of the first `n + 1` trees are those of the first `n` and of the next.
proof fn lemma_forest_errors_step(s: Seq<VdevModel>, n: int)
    requires
        0 <= n < s.len(),
    ensures
        forest_errors(s.take(n + 1)) == forest_errors(s.take(n)) + model_errors(s[n]),
        forest_errors(s.take(n + 1)) <= forest_errors(s),
    decreases s.len() - n,
{
    assert(s.take(n + 1).drop_last() =~= s.take(n));
    if n + 1 == s.len() {
        assert(s.take(n + 1) =~= s);
    } else {
        lemma_forest_errors_step(s, n + 1);
    }
}

impl VdevNode {
    /// Errors counted on this vdev and on every vdev below it.
    pub fn total_errors(&self) -> (r: u64)
        requires
            model_errors(self.model()) <= u64::MAX,
        ensures
            r == model_errors(self.model()),
        decreases self,
    {
        let ghost models = vdev_models(self.children@);
        proof {
            vdev_models_index(self.children@);
            assert(models.take(0) =~= Seq::empty());
            assert(models.take(models.len() as int) =~= models);
        }
        let mut total: u64 = self.errors.sum();
        let mut i: usize = 0;
        while i < self.children.len()
            invariant
                i <= self.children.len(),
                models == vdev_models(self.children@),
                models.len() == self.children@.len(),
                forall|j: int| 0 <= j < models.len() ==> models[j] == self.children@[j].model(),
                total == self.errors.total() + forest_errors(models.take(i as int)),
                self.errors.total() + forest_errors(models) <= u64::MAX,
            decreases self.children.len() - i,
        {
            proof {
                lemma_forest_errors_step(models, i as int);
            }
            total = total + self.children[i].total_errors();
            i = i + 1;
        }
        total
    }
}

impl VdevNode {
    /// Errors counted on this vdev and on every vdev below it, or `None` where they do not
    /// fit a 64-bit number.
    pub fn checked_total_errors(&self) -> (r: Option<u64>)
        ensures
            match r {
                Some(n) => n == model_errors(self.model()),
                None => model_errors(self.model()) > u64::MAX,
            },
        decreases self,
    {
        let ghost models = vdev_models(self.children@);
        proof {
            vdev_models_index(self.children@);
            assert(models.take(0) =~= Seq::empty());
            assert(models.take(models.len() as int) =~= models);
        }
        let mut total: u64 = match self.errors.read.checked_add(self.errors.write) {
            Some(n) => match n.checked_add(self.errors.checksum) {
                Some(m) => m,
                None => {
                    return None;
                },
            },
            None => {
                return None;
            },
        };
        let mut i: usize = 0;
        while i < self.children.len()
            invariant
                i <= self.children.len(),
                models == vdev_models(self.children@),
                models.len() == self.children@.len(),
                forall|j: int| 0 <= j < models.len() ==> models[j] == self.children@[j].model(),
                total == self.errors.total() + forest_errors(models.take(i as int)),
            decreases self.children.len() - i,
        {
            proof {
                lemma_forest_errors_step(models, i as int);
            }
            total = match self.children[i].checked_total_errors() {
                Some(n) => match total.checked_add(n) {
                    Some(m) => m,
                    None => {
                        return None;
                    },
                },
                None => {
                    return None;
                },
            };
            i = i + 1;
        }
        Some(total)
    }
}

impl Clone for VdevNode {
    fn clone(&self) -> (r: VdevNode)
        ensures
            r.model() == self.model(),
        decreases self,
    {
        let mut children: Vec<VdevNode> = Vec::new();
        let mut i: usize = 0;
        while i < self.children.len()
            invariant
                i <= self.children.len(),
                children.len() == i,
                forall|j: int|
                    0 <= j < i ==> (#[trigger] children@[j]).model() == self.children@[j].model(),
            decreases self.children.len() - i,
        {
            let child: VdevNode = self.children[i].clone();
            children.push(child);
            i = i + 1;
        }
        proof {
            vdev_models_index(children@);
            vdev_models_index(self.children@);
            assert(vdev_models(children@) =~= vdev_models(self.children@));
        }
        VdevNode {
            name: self.name.clone(),
            kind: self.kind,
            state: self.state,
            size_bytes: self.size_bytes,
            errors: self.errors,
            children,
            device_path: text::copy_opt(&self.device_path),
        }
    }
}

/// What a `PoolInfo` holds.
#[verifier::ext_equal]
pub ghost struct PoolModel {
    pub name: Seq<char>,
    pub health: PoolHealth,
    pub allocated_bytes: u64,
    pub size_bytes: u64,
    pub free_bytes: u64,
    pub fragmentation_pct: Option<u8>,
    pub scrub: ScrubState,
    pub errors: ErrorCounts,
    pub root_vdev: VdevModel,
}

impl PoolInfo {
    /// What the pool holds.
    pub open spec fn model(self) -> PoolModel {
        PoolModel {
            name: self.name@,
            health: self.health,
            allocated_bytes: self.allocated_bytes,
            size_bytes: self.size_bytes,
            free_bytes: self.free_bytes,
            fragmentation_pct: self.fragmentation_pct,
            scrub: self.scrub,
            errors: self.errors,
            root_vdev: self.root_vdev.model(),
        }
    }
}

impl Clone for PoolInfo {
    fn clone(&self) -> (r: PoolInfo)
        ensures
            r.model() == self.model(),
    {
        PoolInfo {
            name: self.name.clone(),
            health: self.health,
            allocated_bytes: self.allocated_bytes,
            size_bytes: self.size_bytes,
            free_bytes: self.free_bytes,
            fragmentation_pct: self.fragmentation_pct,
            scrub: self.scrub,
            errors: self.errors,
            root_vdev: self.root_vdev.clone(),
        }
    }
}

} // verus!
