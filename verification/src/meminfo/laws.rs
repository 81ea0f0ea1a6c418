//! Laws of reading memory and of the memory bar.
use vstd::prelude::*;

use crate::meminfo;
use crate::meminfo::linux;
use crate::meminfo::linux::{LinuxMemSource, MemInfo, MissingField};
use crate::meminfo::{Color, MemSnapshot, RamSegment};
use crate::text;

verus! {

/// `v` is the number that the first word of `rest` spells, or 0 where it spells none.
pub open spec fn first_number(rest: Seq<char>, v: u64) -> bool {
    if text::words(rest).len() > 0 && text::number(text::words(rest)[0]) is Some {
        text::number(text::words(rest)[0]) == Some(v)
    } else {
        v == 0
    }
}

/// The line lists this amount under this key: the key, a colon, and the number behind it.
pub open spec fn lists(line: Seq<char>, key: Seq<char>, v: u64) -> bool {
    exists|rest: Seq<char>|
        #![trigger text::words(rest)]
        line == key + seq![':'] + rest && !key.contains(':') && first_number(rest, v)
}

/// The last line with this key lists this amount.
pub open spec fn last_listed(lines: Seq<Seq<char>>, key: Seq<char>, v: u64) -> bool {
    exists|i: int|
        #![trigger lines[i]]
        0 <= i < lines.len() && lists(lines[i], key, v) && forall|j: int, w: u64|
            i < j < lines.len() ==> !(#[trigger] lists(lines[j], key, w))
}

/// Some line has this key.
pub open spec fn listed(lines: Seq<Seq<char>>, key: Seq<char>) -> bool {
    exists|i: int, v: u64| 0 <= i < lines.len() && #[trigger] lists(lines[i], key, v)
}

proof fn lemma_position(s: Seq<char>, from: int, c: char)
    requires
        0 <= from <= s.len(),
    ensures
        from <= text::position(s, from, c) <= s.len(),
        forall|i: int| from <= i < text::position(s, from, c) ==> #[trigger] s[i] != c,
        text::position(s, from, c) < s.len() ==> s[text::position(s, from, c)] == c,
    decreases s.len() - from,
{
    if from < s.len() && s[from] != c {
        lemma_position(s, from + 1, c);
    }
}

proof fn lemma_entry(line: Seq<char>, key: Seq<char>, v: u64)
    ensures
        lists(line, key, v) <==> linux::entry(line) == Some((key, v)),
{
    let k = text::position(line, 0, ':');
    lemma_position(line, 0, ':');
    if lists(line, key, v) {
        let rest = choose|rest: Seq<char>|
            #![trigger text::words(rest)]
            line == key + seq![':'] + rest && !key.contains(':') && first_number(rest, v);
        let n = key.len() as int;
        assert(line[n] == ':');
        assert forall|i: int| 0 <= i < n implies #[trigger] line[i] != ':' by {
            assert(line[i] == key[i]);
        }
        assert(k == n);
        assert(line.take(k) =~= key);
        assert(line.skip(k + 1) =~= rest);
    }
    if linux::entry(line) == Some((key, v)) {
        let rest = line.skip(k + 1);
        assert(line =~= key + seq![':'] + rest);
        assert(!key.contains(':')) by {
            if key.contains(':') {
                let i = choose|i: int| 0 <= i < key.len() && key[i] == ':';
                assert(line[i] == key[i]);
            }
        }
        assert(first_number(rest, v));
    }
}

proof fn lemma_table(lines: Seq<Seq<char>>)
    ensures
        forall|key: Seq<char>| #[trigger]
            linux::table(lines).contains_key(key) <==> listed(lines, key),
        forall|key: Seq<char>| #[trigger]
            linux::table(lines).contains_key(key) ==> last_listed(
                lines,
                key,
                linux::table(lines)[key],
            ),
    decreases lines.len(),
{
    if lines.len() > 0 {
        let init = lines.drop_last();
        let n = lines.len() - 1;
        let m = linux::table(init);
        let all = linux::table(lines);
        lemma_table(init);
        assert(forall|j: int| 0 <= j < n ==> #[trigger] lines[j] == init[j]);
        assert(lines[n] == lines.last());
        assert forall|key: Seq<char>| #[trigger] all.contains_key(key) implies listed(lines, key)
            && last_listed(lines, key, all[key]) by {
            let v = all[key];
            if linux::entry(lines.last()) == Some((key, v)) {
                lemma_entry(lines[n], key, v);
                assert(lists(lines[n], key, v));
            } else {
                assert(m.contains_key(key) && m[key] == v);
                let i = choose|i: int|
                    #![trigger init[i]]
                    0 <= i < init.len() && lists(init[i], key, v) && forall|j: int, w: u64|
                        i < j < init.len() ==> !(#[trigger] lists(init[j], key, w));
                assert(lists(lines[i], key, v));
                assert forall|j: int, w: u64| i < j < lines.len() implies !(#[trigger] lists(
                    lines[j],
                    key,
                    w,
                )) by {
                    if j < n {
                        assert(!lists(init[j], key, w));
                    } else {
                        lemma_entry(lines[n], key, w);
                    }
                }
            }
        }
        assert forall|key: Seq<char>| listed(lines, key) implies #[trigger] all.contains_key(
            key,
        ) by {
            let (i, v) = choose|i: int, v: u64|
                0 <= i < lines.len() && #[trigger] lists(lines[i], key, v);
            lemma_entry(lines[i], key, v);
            if i < n {
                assert(lists(init[i], key, v));
                assert(m.contains_key(key));
            }
        }
    }
}

/// Each amount is the one that the last line with its key lists; what can be reclaimed may be
/// missing and counts as nothing then.
pub open spec fn amounts_read(content: Seq<char>, info: MemInfo) -> bool {
    let lines = text::lines(content);
    &&& last_listed(lines, "MemTotal"@, info.total)
    &&& last_listed(lines, "MemFree"@, info.free)
    &&& last_listed(lines, "MemAvailable"@, info.available)
    &&& last_listed(lines, "Buffers"@, info.buffers)
    &&& last_listed(lines, "Cached"@, info.cached)
    &&& if listed(lines, "SReclaimable"@) {
        last_listed(lines, "SReclaimable"@, info.s_reclaimable)
    } else {
        info.s_reclaimable == 0
    }
}

/// The field is the first of the amounts that must be listed and is not.
pub open spec fn first_absent(content: Seq<char>, field: Seq<char>) -> bool {
    let lines = text::lines(content);
    let total = listed(lines, "MemTotal"@);
    let free = listed(lines, "MemFree"@);
    let available = listed(lines, "MemAvailable"@);
    let buffers = listed(lines, "Buffers"@);
    let cached = listed(lines, "Cached"@);
    ||| field == "MemTotal"@ && !total
    ||| field == "MemFree"@ && total && !free
    ||| field == "MemAvailable"@ && total && free && !available
    ||| field == "Buffers"@ && total && free && available && !buffers
    ||| field == "Cached"@ && total && free && available && buffers && !cached
}

/// What reading the text comes to.
pub open spec fn memory_read(content: Seq<char>, r: Result<MemInfo, MissingField>) -> bool {
    match r {
        Ok(info) => amounts_read(content, info),
        Err(e) => first_absent(content, e.field@),
    }
}

proof fn lemma_keys()
    ensures
        linux::REQUIRED_KEYS@[0]@ == "MemTotal"@,
        linux::REQUIRED_KEYS@[1]@ == "MemFree"@,
        linux::REQUIRED_KEYS@[2]@ == "MemAvailable"@,
        linux::REQUIRED_KEYS@[3]@ == "Buffers"@,
        linux::REQUIRED_KEYS@[4]@ == "Cached"@,
{
}

proof fn lemma_memory_read(content: Seq<char>, r: Result<MemInfo, MissingField>)
    requires
        linux::read_from(linux::table(text::lines(content)), r),
    ensures
        memory_read(content, r),
{
    let m = linux::table(text::lines(content));
    lemma_table(text::lines(content));
    lemma_keys();
    match r {
        Ok(info) => {
            assert(m.contains_key(linux::REQUIRED_KEYS@[0]@));
            assert(m.contains_key(linux::REQUIRED_KEYS@[1]@));
            assert(m.contains_key(linux::REQUIRED_KEYS@[2]@));
            assert(m.contains_key(linux::REQUIRED_KEYS@[3]@));
            assert(m.contains_key(linux::REQUIRED_KEYS@[4]@));
            assert(m.contains_key("SReclaimable"@) <==> listed(
                text::lines(content),
                "SReclaimable"@,
            ));
        },
        Err(e) => {
            let i = choose|i: int|
                #![trigger linux::REQUIRED_KEYS@[i]]
                linux::first_missing(m, i) && e.field == linux::REQUIRED_KEYS@[i];
            assert(!m.contains_key(linux::REQUIRED_KEYS@[i]@));
            assert(i > 0 ==> m.contains_key(linux::REQUIRED_KEYS@[0]@));
            assert(i > 1 ==> m.contains_key(linux::REQUIRED_KEYS@[1]@));
            assert(i > 2 ==> m.contains_key(linux::REQUIRED_KEYS@[2]@));
            assert(i > 3 ==> m.contains_key(linux::REQUIRED_KEYS@[3]@));
            assert(i == 0 || i == 1 || i == 2 || i == 3 || i == 4);
        },
    }
}

/// `MemInfo::parse` reads each amount off the last line with its key.
pub proof fn amounts_are_read_by_key(content: &str, r: Result<MemInfo, MissingField>)
    requires
        call_ensures(MemInfo::parse, (content,), r),
    ensures
        memory_read(content@, r),
{
    lemma_memory_read(content@, r);
}

/// A source starts with what its first text lists, if it lists all that it must.
pub proof fn sources_start_with_their_text(content: Option<&str>, r: LinuxMemSource)
    requires
        call_ensures(LinuxMemSource::new, (content,), r),
    ensures
        content is None ==> r.last is None,
        content matches Some(t) ==> match r.last {
            Some(info) => amounts_read(t@, info),
            None => exists|field: Seq<char>| first_absent(t@, field),
        },
{
    if let Some(t) = content {
        let got = choose|got: Result<MemInfo, MissingField>| #[trigger]
            linux::read_from(linux::table(text::lines(t@)), got) && r.last == (match got {
                Ok(info) => Some(info),
                Err(_) => None,
            });
        lemma_memory_read(t@, got);
        if let Err(e) = got {
            assert(first_absent(t@, e.field@));
        }
    }
}

/// A text that lists all that it must takes the place of what was known; another leaves it.
pub proof fn texts_take_the_place_of_the_last(
    x: &mut LinuxMemSource,
    content: &str,
    r: Result<(), MissingField>,
)
    requires
        call_ensures(LinuxMemSource::refresh, (x, content), r),
    ensures
        r is Ok ==> (final(x).last matches Some(info) && amounts_read(content@, info)),
        r matches Err(e) ==> first_absent(content@, e.field@) && final(x).last == old(x).last,
{
    if r is Ok {
        lemma_memory_read(content@, Ok(final(x).last->0));
    } else {
        lemma_memory_read(content@, Err(r->Err_0));
    }
}

/// Buffers and cache are buffers, cached files and what can be reclaimed. Applications use what
/// is left of all memory without what is free, buffers and cache, and the ARC, rounded down to
/// kibibytes; nothing if nothing is left.
pub proof fn memory_adds_up(info: MemInfo, arc_bytes: u64, cache: u64, app: u64, arc: int)
    requires
        info.buffers + info.cached + info.s_reclaimable <= u64::MAX,
        arc * 1024 <= arc_bytes < (arc + 1) * 1024,
        call_ensures(MemInfo::buf_cache, (&info,), cache),
        call_ensures(MemInfo::app_used, (&info, arc_bytes), app),
    ensures
        cache == info.buffers + info.cached + info.s_reclaimable,
        info.free + cache + arc <= info.total ==> app + info.free + cache + arc == info.total,
        info.free + cache + arc > info.total ==> app == 0,
{
    assert(arc == arc_bytes as nat / 1024);
}

/// `amounts_fit` tells whether all memory, and buffers and cache, are 64-bit numbers of bytes.
pub proof fn fitting_amounts_are_told(info: MemInfo, r: bool)
    requires
        call_ensures(MemInfo::amounts_fit, (&info,), r),
    ensures
        r <==> info.total * 1024 <= u64::MAX && (info.buffers + info.cached + info.s_reclaimable)
            * 1024 <= u64::MAX,
{
}

/// The bytes of all segments together.
pub open spec fn bytes_of(s: Seq<RamSegment>) -> nat
    decreases s.len(),
{
    if s.len() == 0 {
        0
    } else {
        s[0].bytes as nat + bytes_of(s.skip(1))
    }
}

proof fn lemma_bytes_push(s: Seq<RamSegment>, last: RamSegment)
    ensures
        bytes_of(s.push(last)) == bytes_of(s) + last.bytes,
    decreases s.len(),
{
    if s.len() == 0 {
        assert(s.push(last).skip(1) =~= s);
    } else {
        assert(s.push(last).skip(1) =~= s.skip(1).push(last));
        lemma_bytes_push(s.skip(1), last);
    }
}

proof fn lemma_bytes(s: Seq<RamSegment>)
    ensures
        meminfo::total_of(s) == bytes_of(s),
    decreases s.len(),
{
    if s.len() > 0 {
        lemma_bytes(s.drop_last());
        lemma_bytes_push(s.drop_last(), s.last());
        assert(s.drop_last().push(s.last()) =~= s);
    }
}

/// `checked_total` adds up all segments, if the sum is a 64-bit number.
pub proof fn segments_are_added_up(s: &[RamSegment], r: Option<u64>)
    requires
        call_ensures(meminfo::checked_total, (s,), r),
    ensures
        r matches Some(n) ==> n == bytes_of(s@),
        r is None <==> bytes_of(s@) > u64::MAX,
{
    lemma_bytes(s@);
}

/// The bar of `info`: as long as all memory, with applications first, then the ARC as it is
/// given, then buffers and cache, all in bytes.
pub open spec fn bar_shows(s: MemSnapshot, info: MemInfo, arc: Seq<RamSegment>) -> bool {
    let n = arc.len() as int;
    let app = s.segments@[0];
    let cache = s.segments@[n + 1];
    let arc_kb = bytes_of(arc) / 1024;
    let cache_kb = info.buffers + info.cached + info.s_reclaimable;
    &&& s.total_bytes == info.total * 1024
    &&& s.segments@.len() == n + 2
    &&& app.label@ == "App"@ && app.color == Color::Green
    &&& info.free + cache_kb + arc_kb <= info.total ==> app.bytes == (info.total - info.free
        - cache_kb - arc_kb) * 1024
    &&& info.free + cache_kb + arc_kb > info.total ==> app.bytes == 0
    &&& forall|i: int| 0 <= i < n ==> s.segments@[i + 1] == #[trigger] arc[i]
    &&& cache.label@ == "Buf/Cache"@ && cache.color == Color::Yellow && cache.bytes == cache_kb
        * 1024
}

proof fn lemma_bar(s: MemSnapshot, info: MemInfo, arc: Seq<RamSegment>)
    requires
        linux::is_bar(s, info, arc),
    ensures
        bar_shows(s, info, arc),
{
    lemma_bytes(arc);
    let n = arc.len() as int;
    assert forall|i: int| 0 <= i < n implies s.segments@[i + 1] == #[trigger] arc[i] by {
        assert(s.segments@.subrange(1, n + 1)[i] == arc[i]);
    }
}

/// There is a bar once memory is known, and it shows applications, the ARC, and buffers and
/// cache, in this order.
pub proof fn bars_show_all_memory(
    source: LinuxMemSource,
    arc_segments: &[RamSegment],
    r: Option<MemSnapshot>,
)
    requires
        call_ensures(LinuxMemSource::compose, (&source, arc_segments), r),
    ensures
        source.last is None ==> r is None,
        source.last matches Some(info) ==> (r is Some <==> info.total > 0),
        source.last matches Some(info) ==> (r matches Some(s) ==> bar_shows(
            s,
            info,
            arc_segments@,
        )),
{
    if r is Some {
        lemma_bar(r->0, source.last->0, arc_segments@);
    }
}

/// A bar for the ARC as a whole has one segment for it.
pub proof fn bars_show_the_arc_as_a_whole(
    source: LinuxMemSource,
    arc_bytes: u64,
    r: Option<MemSnapshot>,
)
    requires
        call_ensures(LinuxMemSource::snapshot, (&source, arc_bytes), r),
    ensures
        source.last is None ==> r is None,
        source.last matches Some(info) ==> (r is Some <==> info.total > 0),
        source.last matches Some(info) ==> (r matches Some(s) ==> {
            let arc = s.segments@[1];
            &&& s.segments@.len() == 3
            &&& arc.label@ == "ARC"@ && arc.color == Color::Magenta && arc.bytes == arc_bytes
            &&& bar_shows(s, info, seq![arc])
        }),
{
    if r is Some {
        let s = r->0;
        let info = source.last->0;
        let arc = choose|arc: RamSegment|
            arc.label@ == "ARC"@ && arc.color == Color::Magenta && arc.bytes == arc_bytes
                && #[trigger] linux::is_bar(s, info, seq![arc]);
        lemma_bar(s, info, seq![arc]);
        assert(s.segments@[0int + 1] == seq![arc][0]);
    }
}

/// A copy of a bar is the same bar, and a missing amount is told of by name.
pub proof fn bars_are_copied(
    s: MemSnapshot,
    copy: MemSnapshot,
    e: MissingField,
    words: String,
)
    requires
        call_ensures(MemSnapshot::clone, (&s,), copy),
        call_ensures(MissingField::describe, (&e,), words),
    ensures
        copy.total_bytes == s.total_bytes,
        copy.segments@ == s.segments@,
        words@ == "missing field '"@ + e.field@ + "' in meminfo"@,
{
}

} // verus!
