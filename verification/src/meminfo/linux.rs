//! Memory on Linux: `/proc/meminfo`, a key and a number of kibibytes on each line.
use vstd::hash_map::StringHashMap;
use vstd::prelude::*;

use crate::meminfo;
use crate::meminfo::{Color, MemSnapshot, RamSegment};
use crate::text;

verus! {

/// Amounts of memory, in kibibytes.
#[derive(Copy, Clone, Debug, PartialEq, Eq, Structural)]
pub struct MemInfo {
    pub total: u64,
    pub free: u64,
    pub available: u64,
    pub buffers: u64,
    pub cached: u64,
    pub s_reclaimable: u64,
}

/// An amount that the text does not list.
#[derive(Debug)]
pub struct MissingField {
    pub field: &'static str,
}

impl MissingField {
    /// The error in words.
    pub fn describe(&self) -> (r: String)
        ensures
            r@ == "missing field '"@ + self.field@ + "' in meminfo"@,
    {
        let mut s: String = "missing field '".to_owned();
        s.append(self.field);
        s.append("' in meminfo");
        s
    }
}

/// The key on a line and the number after it; zero where there is none.
pub open spec fn entry(line: Seq<char>) -> Option<(Seq<char>, u64)> {
    match text::around(line, ':') {
        Some((key, rest)) => {
            let words = text::words(rest);
            let value = if words.len() == 0 {
                None
            } else {
                text::number(words[0])
            };
            match value {
                Some(v) => Some((key, v)),
                None => Some((key, 0)),
            }
        },
        None => None,
    }
}

/// The amounts listed in `lines`, by key; a later line overrides an earlier.
pub open spec fn table(lines: Seq<Seq<char>>) -> Map<Seq<char>, u64>
    decreases lines.len(),
{
    if lines.len() == 0 {
        Map::empty()
    } else {
        match entry(lines.last()) {
            Some((key, v)) => table(lines.drop_last()).insert(key, v),
            None => table(lines.drop_last()),
        }
    }
}

/// The keys that a text must list, in the order in which they are asked for.
pub const REQUIRED_KEYS: [&'static str; 5] = [
    "MemTotal",
    "MemFree",
    "MemAvailable",
    "Buffers",
    "Cached",
];

/// `info` holds the amounts that `m` lists; what the kernel can reclaim counts as nothing where
/// it is not listed.
pub open spec fn taken_from(info: MemInfo, m: Map<Seq<char>, u64>) -> bool {
    &&& forall|i: int| 0 <= i < 5 ==> m.contains_key(#[trigger] REQUIRED_KEYS@[i]@)
    &&& info.total == m[REQUIRED_KEYS@[0]@]
    &&& info.free == m[REQUIRED_KEYS@[1]@]
    &&& info.available == m[REQUIRED_KEYS@[2]@]
    &&& info.buffers == m[REQUIRED_KEYS@[3]@]
    &&& info.cached == m[REQUIRED_KEYS@[4]@]
    &&& info.s_reclaimable == if m.contains_key("SReclaimable"@) {
        m["SReclaimable"@]
    } else {
        0
    }
}

/// `m` lacks the required key at position `i` and none before it.
pub open spec fn first_missing(m: Map<Seq<char>, u64>, i: int) -> bool {
    &&& 0 <= i < 5
    &&& !m.contains_key(REQUIRED_KEYS@[i]@)
    &&& forall|j: int| 0 <= j < i ==> m.contains_key(#[trigger] REQUIRED_KEYS@[j]@)
}

/// What reading the amounts out of `m` comes to.
pub open spec fn read_from(m: Map<Seq<char>, u64>, r: Result<MemInfo, MissingField>) -> bool {
    match r {
        Ok(info) => taken_from(info, m),
        Err(e) => exists|i: int|
            #![trigger REQUIRED_KEYS@[i]]
            first_missing(m, i) && e.field == REQUIRED_KEYS@[i],
    }
}

/// The key on a line and the number after it.
fn parse_entry(line: &Vec<char>) -> (r: Option<(String, u64)>)
    ensures
        match r {
            Some(p) => entry(line@) == Some((p.0@, p.1)),
            None => entry(line@) is None,
        },
{
    match text::split_once(line, ':') {
        Some((key, rest)) => {
            let words: Vec<Vec<char>> = text::words_of(&rest);
            assert(text::views(words@).len() == words@.len());
            let value: Option<u64> = if words.len() == 0 {
                None
            } else {
                assert(text::views(words@)[0] == words@[0]@);
                text::parse_number(&words[0])
            };
            let key: String = text::to_text(&key);
            match value {
                Some(v) => Some((key, v)),
                None => Some((key, 0)),
            }
        },
        None => None,
    }
}

/// Lists the amounts by key.
fn parse_to_map(content: &str) -> (r: StringHashMap<u64>)
    ensures
        r@ == table(text::lines(content@)),
{
    let lines: Vec<Vec<char>> = text::lines_of(content);
    let ghost all = text::lines(content@);
    let mut map: StringHashMap<u64> = StringHashMap::new();
    let mut i: usize = 0;
    assert(all.take(0) =~= Seq::empty());
    while i < lines.len()
        invariant
            i <= lines.len(),
            all == text::views(lines@),
            map@ == table(all.take(i as int)),
        decreases lines.len() - i,
    {
        proof {
            assert(all[i as int] == lines@[i as int]@);
            assert(all.take(i + 1).drop_last() =~= all.take(i as int));
            assert(all.take(i + 1).last() == all[i as int]);
        }
        match parse_entry(&lines[i]) {
            Some((key, v)) => {
                map.insert(key, v);
            },
            None => {},
        }
        i = i + 1;
    }
    assert(all.take(i as int) =~= all);
    map
}

/// The amount listed under `key`.
fn get_kb(map: &StringHashMap<u64>, key: &'static str) -> (r: Result<u64, MissingField>)
    ensures
        match r {
            Ok(v) => map@.contains_key(key@) && v == map@[key@],
            Err(e) => !map@.contains_key(key@) && e.field == key,
        },
{
    match map.get(key) {
        Some(v) => Ok(*v),
        None => Err(MissingField { field: key }),
    }
}

impl MemInfo {
    /// Reads the text of `/proc/meminfo`.
    pub fn parse(content: &str) -> (r: Result<MemInfo, MissingField>)
        ensures
            read_from(table(text::lines(content@)), r),
    {
        let map: StringHashMap<u64> = parse_to_map(content);
        let keys: [&'static str; 5] = REQUIRED_KEYS;
        let mut values: Vec<u64> = Vec::new();
        let mut i: usize = 0;
        while i < 5
            invariant
                i <= 5,
                values.len() == i,
                keys == REQUIRED_KEYS,
                map@ == table(text::lines(content@)),
                forall|j: int|
                    0 <= j < i ==> map@.contains_key(#[trigger] REQUIRED_KEYS@[j]@) && values@[j]
                        == map@[REQUIRED_KEYS@[j]@],
            decreases 5 - i,
        {
            match get_kb(&map, keys[i]) {
                Ok(v) => {
                    values.push(v);
                },
                Err(e) => {
                    assert(first_missing(map@, i as int));
                    assert(e.field == REQUIRED_KEYS@[i as int]);
                    return Err(e);
                },
            }
            i = i + 1;
        }
        let s_reclaimable: u64 = match get_kb(&map, "SReclaimable") {
            Ok(v) => v,
            Err(_) => 0,
        };
        proof {
            assert(values@[0] == map@[REQUIRED_KEYS@[0]@]);
            assert(values@[1] == map@[REQUIRED_KEYS@[1]@]);
            assert(values@[2] == map@[REQUIRED_KEYS@[2]@]);
            assert(values@[3] == map@[REQUIRED_KEYS@[3]@]);
            assert(values@[4] == map@[REQUIRED_KEYS@[4]@]);
        }
        Ok(
            MemInfo {
                total: values[0],
                free: values[1],
                available: values[2],
                buffers: values[3],
                cached: values[4],
                s_reclaimable,
            },
        )
    }

    /// Memory that holds buffers and cached files, as the `free` command counts it.
    pub open spec fn buf_cache_kb(self) -> nat {
        (self.buffers + self.cached + self.s_reclaimable) as nat
    }

    /// Memory of applications: what is neither free nor buffers and cache nor ARC.
    pub open spec fn app_used_kb(self, arc_bytes: nat) -> nat {
        let rest = self.total - self.free - self.buf_cache_kb() - arc_bytes / 1024;
        if rest > 0 {
            rest as nat
        } else {
            0
        }
    }

    /// Memory that holds buffers and cached files, as the `free` command counts it.
    pub fn buf_cache(&self) -> (r: u64)
        requires
            self.buf_cache_kb() <= u64::MAX,
        ensures
            r == self.buf_cache_kb(),
    {
        self.buffers + self.cached + self.s_reclaimable
    }

    /// Memory of applications, in kibibytes: what is neither free nor buffers and cache nor ARC.
    pub fn app_used(&self, arc_bytes: u64) -> (r: u64)
        requires
            self.buf_cache_kb() <= u64::MAX,
        ensures
            r == self.app_used_kb(arc_bytes as nat),
    {
        let arc_kb: u64 = arc_bytes / 1024;
        self.total.saturating_sub(self.free).saturating_sub(self.buf_cache()).saturating_sub(arc_kb)
    }

    /// The amounts, in bytes, are 64-bit numbers.
    pub open spec fn fits(self) -> bool {
        self.total * 1024 <= u64::MAX && self.buf_cache_kb() * 1024 <= u64::MAX
    }

    /// Whether the amounts, in bytes, are 64-bit numbers.
    pub fn amounts_fit(&self) -> (r: bool)
        ensures
            r == self.fits(),
    {
        let total: u128 = self.total as u128;
        let used: u128 = self.buffers as u128 + self.cached as u128 + self.s_reclaimable as u128;
        total * 1024 <= u64::MAX as u128 && used * 1024 <= u64::MAX as u128
    }
}

/// `s` is the bar for `info`: applications, then the segments of the ARC as they are given,
/// then buffers and cache.
pub open spec fn is_bar(s: MemSnapshot, info: MemInfo, arc: Seq<RamSegment>) -> bool {
    let n = arc.len() as int;
    &&& s.total_bytes == info.total * 1024
    &&& s.segments@.len() == n + 2
    &&& s.segments@[0].label@ == "App"@
    &&& s.segments@[0].color == Color::Green
    &&& s.segments@[0].bytes == info.app_used_kb(meminfo::total_of(arc)) * 1024
    &&& s.segments@.subrange(1, n + 1) == arc
    &&& s.segments@[n + 1].label@ == "Buf/Cache"@
    &&& s.segments@[n + 1].color == Color::Yellow
    &&& s.segments@[n + 1].bytes == info.buf_cache_kb() * 1024
}

/// Applications, the ARC, buffers and cache, and free memory make up all memory, wherever the
/// last three do not come to more than there is; applications never come to more than all
/// memory.
pub proof fn bar_accounts_for_all(info: MemInfo, arc_bytes: nat)
    ensures
        info.app_used_kb(arc_bytes) <= info.total,
        info.free + info.buf_cache_kb() + arc_bytes / 1024 <= info.total ==> info.app_used_kb(
            arc_bytes,
        ) + arc_bytes / 1024 + info.buf_cache_kb() + info.free == info.total,
{
}

/// The state of memory that was fetched last.
#[derive(Debug)]
pub struct LinuxMemSource {
    pub last: Option<MemInfo>,
}

impl LinuxMemSource {
    /// A source that starts with `content`, if that could be read.
    pub fn new(content: Option<&str>) -> (r: LinuxMemSource)
        ensures
            match content {
                Some(text) => exists|got: Result<MemInfo, MissingField>| #[trigger]
                    read_from(table(text::lines(text@)), got) && r.last == (match got {
                        Ok(info) => Some(info),
                        Err(_) => None,
                    }),
                None => r.last is None,
            },
    {
        match content {
            Some(text) => {
                let got: Result<MemInfo, MissingField> = MemInfo::parse(text);
                assert(read_from(table(text::lines(text@)), got));
                match got {
                    Ok(info) => LinuxMemSource { last: Some(info) },
                    Err(_) => LinuxMemSource { last: None },
                }
            },
            None => LinuxMemSource { last: None },
        }
    }

    /// Takes over new `content`; what cannot be read leaves the last state as it is.
    pub fn refresh(&mut self, content: &str) -> (r: Result<(), MissingField>)
        ensures
            match r {
                Ok(_) => final(self).last is Some && read_from(
                    table(text::lines(content@)),
                    Ok(final(self).last->0),
                ),
                Err(e) => final(self).last == old(self).last && read_from(
                    table(text::lines(content@)),
                    Err(e),
                ),
            },
    {
        match MemInfo::parse(content) {
            Ok(info) => {
                self.last = Some(info);
                Ok(())
            },
            Err(e) => Err(e),
        }
    }

    /// The bar with the given segments of the ARC; none before any memory is known.
    pub fn compose(&self, arc_segments: &[RamSegment]) -> (r: Option<MemSnapshot>)
        requires
            self.last is Some && self.last->0.total != 0 ==> self.last->0.fits()
                && meminfo::total_of(arc_segments@) <= u64::MAX,
        ensures
            r is Some <==> self.last is Some && self.last->0.total != 0,
            r is Some ==> is_bar(r->0, self.last->0, arc_segments@),
    {
        let m: MemInfo = match self.last {
            Some(m) => m,
            None => {
                return None;
            },
        };
        if m.total == 0 {
            return None;
        }
        let arc_bytes: u64 = match meminfo::checked_total(arc_segments) {
            Some(n) => n,
            None => {
                return None;
            },
        };
        let app_used_kb: u64 = m.app_used(arc_bytes);
        let buf_cache_kb: u64 = m.buf_cache();
        let mut segments: Vec<RamSegment> = Vec::new();
        segments.push(RamSegment { label: "App", color: Color::Green, bytes: app_used_kb * 1024 });
        let ghost app = segments@[0];
        let mut i: usize = 0;
        while i < arc_segments.len()
            invariant
                i <= arc_segments.len(),
                segments@.len() == i + 1,
                segments@[0] == app,
                forall|j: int| 0 <= j < i ==> segments@[j + 1] == #[trigger] arc_segments@[j],
            decreases arc_segments.len() - i,
        {
            segments.push(arc_segments[i]);
            i = i + 1;
        }
        segments.push(
            RamSegment { label: "Buf/Cache", color: Color::Yellow, bytes: buf_cache_kb * 1024 },
        );
        assert(segments@.subrange(1, arc_segments.len() + 1) =~= arc_segments@);
        Some(MemSnapshot { total_bytes: m.total * 1024, segments })
    }

    /// The bar with one segment for all of the ARC; none before any memory is known.
    pub fn snapshot(&self, arc_bytes: u64) -> (r: Option<MemSnapshot>)
        requires
            self.last is Some && self.last->0.total != 0 ==> self.last->0.fits(),
        ensures
            r is Some <==> self.last is Some && self.last->0.total != 0,
            r is Some ==> exists|arc: RamSegment|
                arc.label@ == "ARC"@ && arc.color == Color::Magenta && arc.bytes == arc_bytes
                    && #[trigger] is_bar(r->0, self.last->0, seq![arc]),
    {
        let arc: RamSegment = RamSegment { label: "ARC", color: Color::Magenta, bytes: arc_bytes };
        let mut segments: Vec<RamSegment> = Vec::new();
        segments.push(arc);
        assert(segments@ =~= seq![arc]);
        assert(segments@.drop_last() =~= Seq::empty());
        assert(meminfo::total_of(segments@.drop_last()) == 0);
        self.compose(segments.as_slice())
    }
}

} // verus!
