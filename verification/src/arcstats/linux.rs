//! The ARC's counters on Linux: a text of two header lines, then a line for each counter
//! with its name, its type and its value.
use vstd::hash_map::StringHashMap;
use vstd::prelude::*;

use crate::arcstats;
use crate::arcstats::{ArcStats, ArcStatsError, Listing};
use crate::text;

verus! {

/// The counters listed in `lines`, by name: of a line with three words the first is the name,
/// the third the value; other lines do not count, and a later line overrides an earlier. If a
/// value is not a number, the name on the first such line.
pub open spec fn table(lines: Seq<Seq<char>>) -> Result<Map<Seq<char>, u64>, Seq<char>>
    decreases lines.len(),
{
    if lines.len() == 0 {
        Ok(Map::empty())
    } else {
        match table(lines.drop_last()) {
            Err(name) => Err(name),
            Ok(m) => {
                let parts = text::words(lines.last());
                if parts.len() != 3 {
                    Ok(m)
                } else {
                    match text::number(parts[2]) {
                        Some(v) => Ok(m.insert(parts[0], v)),
                        None => Err(parts[0]),
                    }
                }
            },
        }
    }
}

/// The lines after the two header lines.
pub open spec fn body(content: Seq<char>) -> Seq<Seq<char>> {
    let lines = text::lines(content);
    if lines.len() <= 2 {
        Seq::empty()
    } else {
        lines.skip(2)
    }
}

/// What reading `content` comes to.
pub open spec fn parsed(content: Seq<char>, r: Result<ArcStats, ArcStatsError>) -> bool {
    match table(body(content)) {
        Ok(m) => arcstats::populated_from(m, Listing::Arcstats, r),
        Err(name) => r is Err && r->Err_0@ == arcstats::ArcErrorModel::BadValue(name),
    }
}

/// A line that stops the reading stops it whatever follows.
proof fn lemma_table_stops(lines: Seq<Seq<char>>, n: int)
    requires
        0 <= n <= lines.len(),
        table(lines.take(n)) is Err,
    ensures
        table(lines) == table(lines.take(n)),
    decreases lines.len(),
{
    if n == lines.len() {
        assert(lines.take(n) =~= lines);
    } else {
        assert(lines.drop_last().take(n) =~= lines.take(n));
        lemma_table_stops(lines.drop_last(), n);
    }
}

/// Lists the counters by name.
pub(crate) fn parse_to_map(content: &str) -> (r: Result<StringHashMap<u64>, ArcStatsError>)
    ensures
        match table(body(content@)) {
            Ok(m) => r is Ok && r->Ok_0@ == m,
            Err(name) => r is Err && r->Err_0@ == arcstats::ArcErrorModel::BadValue(name),
        },
{
    let lines: Vec<Vec<char>> = text::lines_of(content);
    let mut map: StringHashMap<u64> = StringHashMap::new();
    let ghost rest = body(content@);
    let mut i: usize = 2;
    assert(rest.take(0) =~= Seq::empty());
    while i < lines.len()
        invariant
            2 <= i,
            i <= (if lines.len() > 2 { lines.len() } else { 2 }),
            text::views(lines@) == text::lines(content@),
            rest == body(content@),
            table(rest.take(i - 2)) == Ok::<Map<Seq<char>, u64>, Seq<char>>(map@),
        decreases lines.len() - i,
    {
        let parts: Vec<Vec<char>> = text::words_of(&lines[i]);
        proof {
            assert(text::views(lines@)[i as int] == lines@[i as int]@);
            assert(rest[i - 2] == lines@[i as int]@);
            assert(rest.take(i - 1).drop_last() =~= rest.take(i - 2));
            assert(rest.take(i - 1).last() == rest[i - 2]);
            assert(text::views(parts@).len() == parts@.len());
        }
        if parts.len() == 3 {
            let name: String = text::to_text(&parts[0]);
            proof {
                assert(text::views(parts@)[0] == parts@[0]@);
                assert(text::views(parts@)[2] == parts@[2]@);
            }
            match text::parse_number(&parts[2]) {
                Some(v) => {
                    map.insert(name, v);
                },
                None => {
                    proof {
                        lemma_table_stops(rest, i - 1);
                    }
                    return Err(ArcStatsError::BadValue { name });
                },
            }
        }
        i = i + 1;
    }
    assert(rest.take(i - 2) =~= rest);
    Ok(map)
}

/// Reads the counters out of `content`.
pub fn parse(content: &str) -> (r: Result<ArcStats, ArcStatsError>)
    ensures
        parsed(content@, r),
{
    match parse_to_map(content) {
        Ok(map) => arcstats::populate_from_map(&map, Listing::Arcstats),
        Err(e) => Err(e),
    }
}

} // verus!
