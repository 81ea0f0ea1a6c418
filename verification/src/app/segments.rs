//! The ARC's segments of the memory bar.
use vstd::prelude::*;

use crate::arcstats::ArcStats;
use crate::meminfo::{Color, RamSegment};

verus! {

/// Colour of the ARC itself.
pub fn arc_size_color() -> (r: Color)
    ensures
        r == Color::Indexed(171),
{
    Color::Indexed(171)
}

/// Colour of the ARC's overhead, darker than that of the ARC, which it stands beside.
pub fn arc_overhead_color() -> (r: Color)
    ensures
        r == Color::Magenta,
{
    Color::Magenta
}

/// The ARC's size, then its overhead, which the size leaves out.
pub open spec fn segments_of(stats: ArcStats) -> Seq<RamSegment> {
    seq![
        RamSegment { label: "ARC", color: Color::Indexed(171), bytes: stats.size },
        RamSegment { label: "ARC ovh", color: Color::Magenta, bytes: stats.overhead_size },
    ]
}

/// The segments of the memory bar that stand for the ARC.
pub fn arc_segments(stats: &ArcStats) -> (r: Vec<RamSegment>)
    ensures
        r@ == segments_of(*stats),
{
    let mut out: Vec<RamSegment> = Vec::new();
    out.push(RamSegment { label: "ARC", color: arc_size_color(), bytes: stats.size });
    out.push(
        RamSegment { label: "ARC ovh", color: arc_overhead_color(), bytes: stats.overhead_size },
    );
    assert(out@ =~= segments_of(*stats));
    out
}

} // verus!
