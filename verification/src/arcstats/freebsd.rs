//! The ARC's counters on FreeBSD: one line for each, its key and its value around a colon.
use vstd::hash_map::StringHashMap;
use vstd::prelude::*;

use crate::arcstats;
use crate::arcstats::{ArcStats, ArcStatsError, Listing};
use crate::text;

verus! {

/// What the keys of all counters begin with.
pub const KSTAT_PREFIX: &'static str = "kstat.zfs.misc.arcstats.";

/// The number in a sysctl's value, spaces around it aside.
pub open spec fn value_of(s: Seq<char>) -> Option<u64> {
    text::number(text::trim(s))
}

/// The name and the value on a line, if it lists a counter.
pub open spec fn entry(line: Seq<char>) -> Option<(Seq<char>, u64)> {
    match text::around(line, ':') {
        Some((key, value)) => match text::after_prefix(key, KSTAT_PREFIX@) {
            Some(name) => match value_of(value) {
                Some(v) => Some((name, v)),
                None => None,
            },
            None => None,
        },
        None => None,
    }
}

/// The counters listed in `lines`, by name; a later line overrides an earlier.
pub open spec fn table(lines: Seq<Seq<char>>) -> Map<Seq<char>, u64>
    decreases lines.len(),
{
    if lines.len() == 0 {
        Map::empty()
    } else {
        match entry(lines.last()) {
            Some((name, v)) => table(lines.drop_last()).insert(name, v),
            None => table(lines.drop_last()),
        }
    }
}

/// The number in a sysctl's value, spaces around it aside.
pub fn parse_value(s: &str) -> (r: Option<u64>)
    ensures
        r == value_of(s@),
{
    let chars: Vec<char> = text::chars_of(s);
    text::parse_number(&text::trimmed(&chars))
}

/// The name and the value on a line, if it lists a counter.
fn parse_entry(line: &Vec<char>) -> (r: Option<(String, u64)>)
    ensures
        match r {
            Some(p) => entry(line@) == Some((p.0@, p.1)),
            None => entry(line@) is None,
        },
{
    match text::split_once(line, ':') {
        Some((key, value)) => {
            let key: String = text::to_text(&key);
            match text::strip_prefix(key.as_str(), KSTAT_PREFIX) {
                Some(name) => match text::parse_number(&text::trimmed(&value)) {
                    Some(v) => Some((name, v)),
                    None => None,
                },
                None => None,
            }
        },
        None => None,
    }
}

/// Lists the counters by name.
fn parse_to_map(content: &str) -> (r: StringHashMap<u64>)
    ensures
        r@ == table(text::lines(content@)),
{
    let lines: Vec<Vec<char>> = text::lines_of(content);
    let ghost all = text::lines(content@);
    let mut map: StringHashMap<u64> = StringHashMap::new();
    let mut i: usize = 0;
    assert(all.take(0) =~= Seq::empty());
    while i < lines.len()
        invariant
            i <= lines.len(),
            all == text::views(lines@),
            map@ == table(all.take(i as int)),
        decreases lines.len() - i,
    {
        proof {
            assert(all[i as int] == lines@[i as int]@);
            assert(all.take(i + 1).drop_last() =~= all.take(i as int));
            assert(all.take(i + 1).last() == all[i as int]);
        }
        match parse_entry(&lines[i]) {
            Some((name, v)) => {
                map.insert(name, v);
            },
            None => {},
        }
        i = i + 1;
    }
    assert(all.take(i as int) =~= all);
    map
}

/// Reads the counters out of `content`, as `sysctl kstat.zfs.misc.arcstats` prints them.
pub fn parse_sysctl_text(content: &str) -> (r: Result<ArcStats, ArcStatsError>)
    ensures
        arcstats::populated_from(table(text::lines(content@)), Listing::Sysctl, r),
{
    let map: StringHashMap<u64> = parse_to_map(content);
    arcstats::populate_from_map(&map, Listing::Sysctl)
}

} // verus!
