//! The tabs at the top of the screen.
use vstd::prelude::*;

verus! {

/// Top-level navigation tab.
#[derive(Copy, Clone, Debug, PartialEq, Eq, Structural)]
pub enum Tab {
    Overview,
    Pools,
    Datasets,
    Arc,
}

impl Tab {
    /// All tabs, from left to right.
    pub const ALL: [Tab; 4] = [Tab::Overview, Tab::Pools, Tab::Datasets, Tab::Arc];

    /// Position of the tab, from the left.
    pub open spec fn position(self) -> int {
        match self {
            Tab::Overview => 0,
            Tab::Pools => 1,
            Tab::Datasets => 2,
            Tab::Arc => 3,
        }
    }

    /// The tab at `delta` positions to the right, going round at both ends.
    pub open spec fn offset(self, delta: int) -> Tab {
        Tab::ALL@[(self.position() + delta) % 4]
    }

    /// The key that switches to the tab.
    pub open spec fn key(self) -> char {
        match self {
            Tab::Overview => '1',
            Tab::Pools => '2',
            Tab::Datasets => '3',
            Tab::Arc => '4',
        }
    }

    /// What the tab is called on the screen.
    pub fn title(&self) -> (r: &'static str)
        ensures
            r@ == (match *self {
                Tab::Overview => "Overview"@,
                Tab::Pools => "Pools"@,
                Tab::Datasets => "Datasets"@,
                Tab::Arc => "ARC"@,
            }),
    {
        match self {
            Tab::Overview => "Overview",
            Tab::Pools => "Pools",
            Tab::Datasets => "Datasets",
            Tab::Arc => "ARC",
        }
    }

    /// The key that switches to the tab.
    pub fn hotkey(&self) -> (r: char)
        ensures
            r == self.key(),
    {
        match self {
            Tab::Overview => '1',
            Tab::Pools => '2',
            Tab::Datasets => '3',
            Tab::Arc => '4',
        }
    }

    /// Position of the tab, from the left.
    pub fn index(&self) -> (r: usize)
        ensures
            r == self.position(),
            r < 4,
            Tab::ALL@[r as int] == *self,
    {
        match self {
            Tab::Overview => 0,
            Tab::Pools => 1,
            Tab::Datasets => 2,
            Tab::Arc => 3,
        }
    }
}

/// A tab's place among all tabs is its position.
pub proof fn tab_positions(t: Tab)
    ensures
        0 <= t.position() < 4,
        Tab::ALL@[t.position()] == t,
{
}

/// Going on by `a` positions and then by `b` is going on by both at once.
pub proof fn offset_adds(t: Tab, a: int, b: int)
    ensures
        t.offset(a).offset(b) == t.offset(a + b),
{
    tab_positions(t);
    assert(forall|k: int| 0 <= k < 4 ==> (#[trigger] Tab::ALL@[k]).position() == k);
    let p = t.position();
    assert(((p + a) % 4 + b) % 4 == (p + (a + b)) % 4);
}

/// Going one tab forth and one back, in either order, ends on the same tab, and so does going
/// forth four times.
pub proof fn offset_goes_round(t: Tab)
    ensures
        t.offset(1).offset(-1) == t,
        t.offset(-1).offset(1) == t,
        t.offset(4) == t,
        t.offset(0) == t,
{
    offset_adds(t, 1, -1);
    offset_adds(t, -1, 1);
    tab_positions(t);
}

} // verus!
