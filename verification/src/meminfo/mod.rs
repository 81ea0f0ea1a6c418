//! Memory of the system, as the segments of a bar.
use vstd::prelude::*;

pub mod laws;
pub mod linux;

verus! {

/// Colours of the bar: those of the terminal's palette, or one of its 256 by number.
#[derive(Copy, Clone, Debug, PartialEq, Eq, Structural)]
pub enum Color {
    Green,
    Yellow,
    Magenta,
    Indexed(u8),
}

/// One coloured segment of the memory bar.
#[derive(Copy, Clone, Debug)]
pub struct RamSegment {
    pub label: &'static str,
    pub color: Color,
    pub bytes: u64,
}

/// Memory at one moment. `total_bytes` is the whole bar; the segments are drawn in order, and
/// what they do not cover is free.
#[derive(Debug)]
pub struct MemSnapshot {
    pub total_bytes: u64,
    pub segments: Vec<RamSegment>,
}

impl Clone for MemSnapshot {
    fn clone(&self) -> (r: MemSnapshot)
        ensures
            r.total_bytes == self.total_bytes,
            r.segments@ == self.segments@,
    {
        let mut segments: Vec<RamSegment> = Vec::new();
        let mut i: usize = 0;
        while i < self.segments.len()
            invariant
                i <= self.segments.len(),
                segments@ == self.segments@.take(i as int),
            decreases self.segments.len() - i,
        {
            segments.push(self.segments[i]);
            i = i + 1;
            assert(segments@ =~= self.segments@.take(i as int));
        }
        assert(segments@ =~= self.segments@);
        MemSnapshot { total_bytes: self.total_bytes, segments }
    }
}

/// Where the state of memory comes from. `refresh` fetches it anew; `snapshot` makes a bar of
/// what was fetched last and of the given segments of the ARC.
pub trait MemSource {
    fn refresh(&mut self) -> Result<(), String>;

    fn snapshot(&self, arc_segments: &[RamSegment]) -> Option<MemSnapshot>;
}

/// The bytes of all segments together.
pub open spec fn total_of(s: Seq<RamSegment>) -> nat
    decreases s.len(),
{
    if s.len() == 0 {
        0
    } else {
        total_of(s.drop_last()) + s.last().bytes as nat
    }
}

/// The bytes of the first `n + 1` segments are those of the first `n` and of the next.
proof fn lemma_total_step(s: Seq<RamSegment>, n: int)
    requires
        0 <= n < s.len(),
    ensures
        total_of(s.take(n + 1)) == total_of(s.take(n)) + s[n].bytes,
        total_of(s.take(n + 1)) <= total_of(s),
    decreases s.len() - n,
{
    assert(s.take(n + 1).drop_last() =~= s.take(n));
    if n + 1 == s.len() {
        assert(s.take(n + 1) =~= s);
    } else {
        lemma_total_step(s, n + 1);
    }
}

/// The bytes of all segments together, or `None` where they do not fit a 64-bit number.
pub fn checked_total(s: &[RamSegment]) -> (r: Option<u64>)
    ensures
        match r {
            Some(n) => n == total_of(s@),
            None => total_of(s@) > u64::MAX,
        },
{
    let mut total: u64 = 0;
    let mut i: usize = 0;
    assert(s@.take(0) =~= Seq::empty());
    while i < s.len()
        invariant
            i <= s.len(),
            total == total_of(s@.take(i as int)),
        decreases s.len() - i,
    {
        proof {
            lemma_total_step(s@, i as int);
        }
        total = match total.checked_add(s[i].bytes) {
            Some(n) => n,
            None => {
                return None;
            },
        };
        i = i + 1;
    }
    assert(s@.take(i as int) =~= s@);
    Some(total)
}

} // verus!
