//! Laws of reading the ARC's counters.
use vstd::hash_map::StringHashMap;
use vstd::prelude::*;

use crate::arcstats;
use crate::arcstats::{ArcStats, ArcStatsError, FieldError, Listing};
use crate::arcstats::{freebsd, linux};
use crate::text;

verus! {

/// The names of the counters, in the order in which they are looked up.
pub open spec fn names_in_order() -> Seq<Seq<char>> {
    seq![
        "hits"@,
        "iohits"@,
        "misses"@,
        "demand_data_hits"@,
        "demand_data_iohits"@,
        "demand_data_misses"@,
        "demand_metadata_hits"@,
        "demand_metadata_iohits"@,
        "demand_metadata_misses"@,
        "prefetch_data_hits"@,
        "prefetch_data_iohits"@,
        "prefetch_data_misses"@,
        "prefetch_metadata_hits"@,
        "prefetch_metadata_iohits"@,
        "prefetch_metadata_misses"@,
        "size"@,
        "c"@,
        "c_min"@,
        "c_max"@,
        "data_size"@,
        "metadata_size"@,
        "anon_size"@,
        "overhead_size"@,
        "hdr_size"@,
        "dbuf_size"@,
        "dnode_size"@,
        "bonus_size"@,
        "mru_size"@,
        "mru_data"@,
        "mru_metadata"@,
        "mfu_size"@,
        "mfu_data"@,
        "mfu_metadata"@,
        "compressed_size"@,
        "uncompressed_size"@,
        "memory_all_bytes"@,
        "memory_free_bytes"@,
        "memory_available_bytes"@,
        "arc_meta_used"@,
    ]
}

/// Every counter of `s` is what `at` says of the counter's own name.
pub open spec fn each_by_name(s: ArcStats, at: spec_fn(Seq<char>, u64) -> bool) -> bool {
    &&& at("hits"@, s.hits)
    &&& at("iohits"@, s.iohits)
    &&& at("misses"@, s.misses)
    &&& at("demand_data_hits"@, s.demand_data_hits)
    &&& at("demand_data_iohits"@, s.demand_data_iohits)
    &&& at("demand_data_misses"@, s.demand_data_misses)
    &&& at("demand_metadata_hits"@, s.demand_metadata_hits)
    &&& at("demand_metadata_iohits"@, s.demand_metadata_iohits)
    &&& at("demand_metadata_misses"@, s.demand_metadata_misses)
    &&& at("prefetch_data_hits"@, s.prefetch_data_hits)
    &&& at("prefetch_data_iohits"@, s.prefetch_data_iohits)
    &&& at("prefetch_data_misses"@, s.prefetch_data_misses)
    &&& at("prefetch_metadata_hits"@, s.prefetch_metadata_hits)
    &&& at("prefetch_metadata_iohits"@, s.prefetch_metadata_iohits)
    &&& at("prefetch_metadata_misses"@, s.prefetch_metadata_misses)
    &&& at("size"@, s.size)
    &&& at("c"@, s.c)
    &&& at("c_min"@, s.c_min)
    &&& at("c_max"@, s.c_max)
    &&& at("data_size"@, s.data_size)
    &&& at("metadata_size"@, s.metadata_size)
    &&& at("anon_size"@, s.anon_size)
    &&& at("overhead_size"@, s.overhead_size)
    &&& at("hdr_size"@, s.hdr_size)
    &&& at("dbuf_size"@, s.dbuf_size)
    &&& at("dnode_size"@, s.dnode_size)
    &&& at("bonus_size"@, s.bonus_size)
    &&& at("mru_size"@, s.mru_size)
    &&& at("mru_data"@, s.mru_data)
    &&& at("mru_metadata"@, s.mru_metadata)
    &&& at("mfu_size"@, s.mfu_size)
    &&& at("mfu_data"@, s.mfu_data)
    &&& at("mfu_metadata"@, s.mfu_metadata)
    &&& at("compressed_size"@, s.compressed_size)
    &&& at("uncompressed_size"@, s.uncompressed_size)
    &&& at("memory_all_bytes"@, s.memory_all_bytes)
    &&& at("memory_free_bytes"@, s.memory_free_bytes)
    &&& at("memory_available_bytes"@, s.memory_available_bytes)
    &&& at("arc_meta_used"@, s.arc_meta_used)
}

/// `m` lists `v` under `name`.
pub open spec fn lists(m: Map<Seq<char>, u64>, name: Seq<char>, v: u64) -> bool {
    m.contains_key(name) && m[name] == v
}

/// `field` is the first name that is not there.
pub open spec fn first_absent(field: Seq<char>, there: spec_fn(Seq<char>) -> bool) -> bool {
    exists|i: int|
        #![trigger names_in_order()[i]]
        0 <= i < 39 && field == names_in_order()[i] && !there(field) && forall|j: int|
            0 <= j < i ==> there(#[trigger] names_in_order()[j])
}

proof fn lemma_names()
    ensures
        forall|i: int|
            0 <= i < 39 ==> #[trigger] names_in_order()[i] == arcstats::FIELD_KEYS@[i]@,
{
    assert(arcstats::FIELD_KEYS@[0]@ == "hits"@);
    assert(arcstats::FIELD_KEYS@[1]@ == "iohits"@);
    assert(arcstats::FIELD_KEYS@[2]@ == "misses"@);
    assert(arcstats::FIELD_KEYS@[3]@ == "demand_data_hits"@);
    assert(arcstats::FIELD_KEYS@[4]@ == "demand_data_iohits"@);
    assert(arcstats::FIELD_KEYS@[5]@ == "demand_data_misses"@);
    assert(arcstats::FIELD_KEYS@[6]@ == "demand_metadata_hits"@);
    assert(arcstats::FIELD_KEYS@[7]@ == "demand_metadata_iohits"@);
    assert(arcstats::FIELD_KEYS@[8]@ == "demand_metadata_misses"@);
    assert(arcstats::FIELD_KEYS@[9]@ == "prefetch_data_hits"@);
    assert(arcstats::FIELD_KEYS@[10]@ == "prefetch_data_iohits"@);
    assert(arcstats::FIELD_KEYS@[11]@ == "prefetch_data_misses"@);
    assert(arcstats::FIELD_KEYS@[12]@ == "prefetch_metadata_hits"@);
    assert(arcstats::FIELD_KEYS@[13]@ == "prefetch_metadata_iohits"@);
    assert(arcstats::FIELD_KEYS@[14]@ == "prefetch_metadata_misses"@);
    assert(arcstats::FIELD_KEYS@[15]@ == "size"@);
    assert(arcstats::FIELD_KEYS@[16]@ == "c"@);
    assert(arcstats::FIELD_KEYS@[17]@ == "c_min"@);
    assert(arcstats::FIELD_KEYS@[18]@ == "c_max"@);
    assert(arcstats::FIELD_KEYS@[19]@ == "data_size"@);
    assert(arcstats::FIELD_KEYS@[20]@ == "metadata_size"@);
    assert(arcstats::FIELD_KEYS@[21]@ == "anon_size"@);
    assert(arcstats::FIELD_KEYS@[22]@ == "overhead_size"@);
    assert(arcstats::FIELD_KEYS@[23]@ == "hdr_size"@);
    assert(arcstats::FIELD_KEYS@[24]@ == "dbuf_size"@);
    assert(arcstats::FIELD_KEYS@[25]@ == "dnode_size"@);
    assert(arcstats::FIELD_KEYS@[26]@ == "bonus_size"@);
    assert(arcstats::FIELD_KEYS@[27]@ == "mru_size"@);
    assert(arcstats::FIELD_KEYS@[28]@ == "mru_data"@);
    assert(arcstats::FIELD_KEYS@[29]@ == "mru_metadata"@);
    assert(arcstats::FIELD_KEYS@[30]@ == "mfu_size"@);
    assert(arcstats::FIELD_KEYS@[31]@ == "mfu_data"@);
    assert(arcstats::FIELD_KEYS@[32]@ == "mfu_metadata"@);
    assert(arcstats::FIELD_KEYS@[33]@ == "compressed_size"@);
    assert(arcstats::FIELD_KEYS@[34]@ == "uncompressed_size"@);
    assert(arcstats::FIELD_KEYS@[35]@ == "memory_all_bytes"@);
    assert(arcstats::FIELD_KEYS@[36]@ == "memory_free_bytes"@);
    assert(arcstats::FIELD_KEYS@[37]@ == "memory_available_bytes"@);
    assert(arcstats::FIELD_KEYS@[38]@ == "arc_meta_used"@);
}

proof fn lemma_each(s: ArcStats, at: spec_fn(Seq<char>, u64) -> bool)
    requires
        forall|i: int|
            0 <= i < 39 ==> at(
                #[trigger] arcstats::FIELD_KEYS@[i]@,
                arcstats::field_values(s)[i],
            ),
    ensures
        each_by_name(s, at),
{
    lemma_names();
    let v = arcstats::field_values(s);
    assert(at(arcstats::FIELD_KEYS@[0]@, v[0]));
    assert(at(arcstats::FIELD_KEYS@[1]@, v[1]));
    assert(at(arcstats::FIELD_KEYS@[2]@, v[2]));
    assert(at(arcstats::FIELD_KEYS@[3]@, v[3]));
    assert(at(arcstats::FIELD_KEYS@[4]@, v[4]));
    assert(at(arcstats::FIELD_KEYS@[5]@, v[5]));
    assert(at(arcstats::FIELD_KEYS@[6]@, v[6]));
    assert(at(arcstats::FIELD_KEYS@[7]@, v[7]));
    assert(at(arcstats::FIELD_KEYS@[8]@, v[8]));
    assert(at(arcstats::FIELD_KEYS@[9]@, v[9]));
    assert(at(arcstats::FIELD_KEYS@[10]@, v[10]));
    assert(at(arcstats::FIELD_KEYS@[11]@, v[11]));
    assert(at(arcstats::FIELD_KEYS@[12]@, v[12]));
    assert(at(arcstats::FIELD_KEYS@[13]@, v[13]));
    assert(at(arcstats::FIELD_KEYS@[14]@, v[14]));
    assert(at(arcstats::FIELD_KEYS@[15]@, v[15]));
    assert(at(arcstats::FIELD_KEYS@[16]@, v[16]));
    assert(at(arcstats::FIELD_KEYS@[17]@, v[17]));
    assert(at(arcstats::FIELD_KEYS@[18]@, v[18]));
    assert(at(arcstats::FIELD_KEYS@[19]@, v[19]));
    assert(at(arcstats::FIELD_KEYS@[20]@, v[20]));
    assert(at(arcstats::FIELD_KEYS@[21]@, v[21]));
    assert(at(arcstats::FIELD_KEYS@[22]@, v[22]));
    assert(at(arcstats::FIELD_KEYS@[23]@, v[23]));
    assert(at(arcstats::FIELD_KEYS@[24]@, v[24]));
    assert(at(arcstats::FIELD_KEYS@[25]@, v[25]));
    assert(at(arcstats::FIELD_KEYS@[26]@, v[26]));
    assert(at(arcstats::FIELD_KEYS@[27]@, v[27]));
    assert(at(arcstats::FIELD_KEYS@[28]@, v[28]));
    assert(at(arcstats::FIELD_KEYS@[29]@, v[29]));
    assert(at(arcstats::FIELD_KEYS@[30]@, v[30]));
    assert(at(arcstats::FIELD_KEYS@[31]@, v[31]));
    assert(at(arcstats::FIELD_KEYS@[32]@, v[32]));
    assert(at(arcstats::FIELD_KEYS@[33]@, v[33]));
    assert(at(arcstats::FIELD_KEYS@[34]@, v[34]));
    assert(at(arcstats::FIELD_KEYS@[35]@, v[35]));
    assert(at(arcstats::FIELD_KEYS@[36]@, v[36]));
    assert(at(arcstats::FIELD_KEYS@[37]@, v[37]));
    assert(at(arcstats::FIELD_KEYS@[38]@, v[38]));
}

proof fn lemma_first_absent(m: Map<Seq<char>, u64>, i: int, there: spec_fn(Seq<char>) -> bool)
    requires
        arcstats::first_missing(m, i),
        forall|name: Seq<char>| #[trigger] m.contains_key(name) <==> there(name),
    ensures
        first_absent(arcstats::FIELD_KEYS@[i]@, there),
{
    lemma_names();
    let field = arcstats::FIELD_KEYS@[i]@;
    assert(0 <= i < 39);
    assert(field == names_in_order()[i]);
    assert(!m.contains_key(field));
    assert forall|j: int| 0 <= j < i implies there(#[trigger] names_in_order()[j]) by {
        assert(m.contains_key(arcstats::FIELD_KEYS@[j]@));
    }
}

/// The answer for the counter of this name was this value.
pub open spec fn answered<E, F: Fn(&str) -> Result<u64, E>>(
    get: F,
    name: Seq<char>,
    v: u64,
) -> bool {
    exists|key: &str| key@ == name && #[trigger] call_ensures(get, (key,), Ok::<u64, E>(v))
}

/// `populate` asks for every counter by its own name, in order, and stops at the first for which
/// there is no answer.
pub proof fn counters_are_asked_by_name<E, F: Fn(&str) -> Result<u64, E>>(
    get: F,
    r: Result<ArcStats, FieldError<E>>,
)
    requires
        call_ensures(arcstats::populate::<E, F>, (get,), r),
    ensures
        r matches Ok(s) ==> each_by_name(
            s,
            |name: Seq<char>, v: u64| answered::<E, F>(get, name, v),
        ),
        r matches Err(e) ==> exists|i: int|
            #![trigger names_in_order()[i]]
            0 <= i < 39 && e.field@ == names_in_order()[i] && forall|j: int|
                0 <= j < i ==> exists|v: u64|
                    answered::<E, F>(get, #[trigger] names_in_order()[j], v),
        r matches Err(e) ==> call_ensures(get, (e.field,), Err::<u64, E>(e.cause)),
{
    lemma_names();
    if r is Ok {
        let s = r->Ok_0;
        let at = |name: Seq<char>, v: u64| answered::<E, F>(get, name, v);
        assert forall|i: int| 0 <= i < 39 implies at(
            #[trigger] arcstats::FIELD_KEYS@[i]@,
            arcstats::field_values(s)[i],
        ) by {
            let key = arcstats::FIELD_KEYS@[i];
            let v = arcstats::field_values(s)[i];
            assert(call_ensures(get, (key,), Ok::<u64, E>(v)));
        }
        lemma_each(s, at);
    } else {
        let e = r->Err_0;
        let i = choose|i: int|
            #![trigger arcstats::FIELD_KEYS@[i]]
            0 <= i < 39 && e.field == arcstats::FIELD_KEYS@[i] && call_ensures(
                get,
                (arcstats::FIELD_KEYS@[i],),
                Err::<u64, E>(e.cause),
            ) && forall|j: int|
                0 <= j < i ==> exists|v: u64|
                    call_ensures(get, (#[trigger] arcstats::FIELD_KEYS@[j],), Ok::<u64, E>(v));
        assert(e.field@ == names_in_order()[i]);
        assert forall|j: int| 0 <= j < i implies exists|v: u64|
            answered::<E, F>(get, #[trigger] names_in_order()[j], v) by {
            let key = arcstats::FIELD_KEYS@[j];
            let v = choose|v: u64| call_ensures(get, (key,), Ok::<u64, E>(v));
            assert(answered::<E, F>(get, names_in_order()[j], v));
        }
    }
}

/// Out of a table that lists all counters, `populate_from_map` takes each under its own name;
/// out of another it names the first that is not listed.
pub proof fn counters_are_taken_by_name(
    map: StringHashMap<u64>,
    listing: Listing,
    r: Result<ArcStats, ArcStatsError>,
)
    requires
        call_ensures(arcstats::populate_from_map, (&map, listing), r),
    ensures
        r matches Ok(s) ==> each_by_name(s, |name: Seq<char>, v: u64| lists(map@, name, v)),
        r matches Err(e) ==> e matches ArcStatsError::NotPopulated { field, listing: l } && l
            == listing && first_absent(field@, |name: Seq<char>| map@.contains_key(name)),
{
    if r is Ok {
        lemma_each(r->Ok_0, |name: Seq<char>, v: u64| lists(map@, name, v));
    } else {
        let e = r->Err_0;
        let i = choose|i: int|
            #![trigger arcstats::FIELD_KEYS@[i]]
            arcstats::first_missing(map@, i) && e@ == arcstats::ArcErrorModel::NotPopulated(
                arcstats::FIELD_KEYS@[i]@,
                listing,
            );
        lemma_first_absent(map@, i, |name: Seq<char>| map@.contains_key(name));
    }
}

/// The line names a counter: it has three words, the first of which is the name.
pub open spec fn names_it(line: Seq<char>, name: Seq<char>) -> bool {
    text::words(line).len() == 3 && text::words(line)[0] == name
}

/// The line names a counter, and its third word is not a number.
pub open spec fn spoils(line: Seq<char>) -> bool {
    text::words(line).len() == 3 && text::number(text::words(line)[2]) is None
}

/// The last of the lines from position `from` on that name the counter gives it this value.
pub open spec fn last_named(lines: Seq<Seq<char>>, from: int, name: Seq<char>, v: u64) -> bool {
    exists|i: int|
        #![trigger lines[i]]
        from <= i < lines.len() && names_it(lines[i], name) && text::number(
            text::words(lines[i])[2],
        ) == Some(v) && forall|j: int| i < j < lines.len() ==> !names_it(#[trigger] lines[j], name)
}

/// Some line from position `from` on names the counter.
pub open spec fn named(lines: Seq<Seq<char>>, from: int, name: Seq<char>) -> bool {
    exists|i: int| from <= i < lines.len() && names_it(#[trigger] lines[i], name)
}

/// The first of the lines from position `from` on whose value is not a number names `name`.
pub open spec fn first_spoilt(lines: Seq<Seq<char>>, from: int, name: Seq<char>) -> bool {
    exists|i: int|
        #![trigger lines[i]]
        from <= i < lines.len() && spoils(lines[i]) && names_it(lines[i], name) && forall|j: int|
            from <= j < i ==> !spoils(#[trigger] lines[j])
}

/// The value of no line from position `from` on is something else than a number.
pub open spec fn none_spoilt(lines: Seq<Seq<char>>, from: int) -> bool {
    forall|j: int| from <= j < lines.len() ==> !spoils(#[trigger] lines[j])
}

proof fn lemma_table(lines: Seq<Seq<char>>)
    ensures
        linux::table(lines) is Ok <==> none_spoilt(lines, 0),
        linux::table(lines) matches Err(name) ==> first_spoilt(lines, 0, name),
        linux::table(lines) matches Ok(m) ==> forall|name: Seq<char>|
            #[trigger] m.contains_key(name) <==> named(lines, 0, name),
        linux::table(lines) matches Ok(m) ==> forall|name: Seq<char>|
            #[trigger] m.contains_key(name) ==> last_named(lines, 0, name, m[name]),
    decreases lines.len(),
{
    if lines.len() > 0 {
        let init = lines.drop_last();
        let n = lines.len() - 1;
        lemma_table(init);
        assert(forall|j: int| 0 <= j < n ==> #[trigger] lines[j] == init[j]);
        assert(lines[n] == lines.last());
        match linux::table(init) {
            Err(name) => {
                let i = choose|i: int|
                    #![trigger init[i]]
                    0 <= i < init.len() && spoils(init[i]) && names_it(init[i], name)
                        && forall|j: int| 0 <= j < i ==> !spoils(#[trigger] init[j]);
                assert(spoils(lines[i]));
            },
            Ok(m) => {
                assert forall|j: int| 0 <= j < n implies !spoils(#[trigger] lines[j]) by {
                    assert(!spoils(init[j]));
                }
                let parts = text::words(lines.last());
                if linux::table(lines) is Ok {
                    let all = linux::table(lines)->Ok_0;
                    assert forall|name: Seq<char>| #[trigger] all.contains_key(name) implies named(
                        lines,
                        0,
                        name,
                    ) && last_named(lines, 0, name, all[name]) by {
                        if names_it(lines.last(), name) {
                            assert(names_it(lines[n], name));
                        } else {
                            assert(m.contains_key(name) && all[name] == m[name]);
                            let i = choose|i: int|
                                #![trigger init[i]]
                                0 <= i < init.len() && names_it(init[i], name) && text::number(
                                    text::words(init[i])[2],
                                ) == Some(m[name]) && forall|j: int|
                                    i < j < init.len() ==> !names_it(#[trigger] init[j], name);
                            assert(names_it(lines[i], name));
                            assert forall|j: int| i < j < lines.len() implies !names_it(
                                #[trigger] lines[j],
                                name,
                            ) by {
                                if j < n {
                                    assert(!names_it(init[j], name));
                                }
                            }
                        }
                    }
                    assert forall|name: Seq<char>| named(lines, 0, name) implies
                        #[trigger] all.contains_key(name) by {
                        let i = choose|i: int|
                            0 <= i < lines.len() && names_it(#[trigger] lines[i], name);
                        if i < n {
                            assert(names_it(init[i], name));
                            assert(m.contains_key(name));
                        }
                    }
                } else {
                    assert(spoils(lines[n]));
                }
            },
        }
    }
}

/// What holds of the lines behind the first two holds of them where they stand.
proof fn lemma_body(content: Seq<char>)
    ensures
        ({
            let all = text::lines(content);
            let rest = linux::body(content);
            &&& none_spoilt(rest, 0) <==> none_spoilt(all, 2)
            &&& forall|name: Seq<char>| #[trigger] first_spoilt(rest, 0, name) ==> first_spoilt(
                all,
                2,
                name,
            )
            &&& forall|name: Seq<char>| #[trigger] named(rest, 0, name) <==> named(all, 2, name)
            &&& forall|name: Seq<char>, v: u64| #[trigger] last_named(rest, 0, name, v)
                ==> last_named(all, 2, name, v)
        }),
{
    let all = text::lines(content);
    let rest = linux::body(content);
    if all.len() > 2 {
        assert(rest.len() == all.len() - 2);
        assert(forall|i: int| 0 <= i < rest.len() ==> #[trigger] rest[i] == all[i + 2]);
        if none_spoilt(rest, 0) {
            assert forall|j: int| 2 <= j < all.len() implies !spoils(#[trigger] all[j]) by {
                assert(!spoils(rest[j - 2]));
            }
        }
        if none_spoilt(all, 2) {
            assert forall|j: int| 0 <= j < rest.len() implies !spoils(#[trigger] rest[j]) by {
                assert(!spoils(all[j + 2]));
            }
        }
        assert forall|name: Seq<char>| #[trigger] first_spoilt(rest, 0, name) implies first_spoilt(
            all,
            2,
            name,
        ) by {
            let i = choose|i: int|
                #![trigger rest[i]]
                0 <= i < rest.len() && spoils(rest[i]) && names_it(rest[i], name) && forall|j: int|
                    0 <= j < i ==> !spoils(#[trigger] rest[j]);
            assert(spoils(all[i + 2]));
            assert forall|j: int| 2 <= j < i + 2 implies !spoils(#[trigger] all[j]) by {
                assert(!spoils(rest[j - 2]));
            }
        }
        assert forall|name: Seq<char>| #[trigger] named(rest, 0, name) <==> named(all, 2, name) by {
            if named(rest, 0, name) {
                let i = choose|i: int| 0 <= i < rest.len() && names_it(#[trigger] rest[i], name);
                assert(names_it(all[i + 2], name));
            }
            if named(all, 2, name) {
                let i = choose|i: int| 2 <= i < all.len() && names_it(#[trigger] all[i], name);
                assert(names_it(rest[i - 2], name));
            }
        }
        assert forall|name: Seq<char>, v: u64| #[trigger]
            last_named(rest, 0, name, v) implies last_named(all, 2, name, v) by {
            let i = choose|i: int|
                #![trigger rest[i]]
                0 <= i < rest.len() && names_it(rest[i], name) && text::number(
                    text::words(rest[i])[2],
                ) == Some(v) && forall|j: int|
                    i < j < rest.len() ==> !names_it(#[trigger] rest[j], name);
            assert(names_it(all[i + 2], name));
            assert forall|j: int| i + 2 < j < all.len() implies !names_it(
                #[trigger] all[j],
                name,
            ) by {
                assert(!names_it(rest[j - 2], name));
            }
        }
    }
}

/// What reading the text of the kernel's statistics comes to, but for how a counter that is
/// not listed is told of: of each counter the last line that names it, two header lines aside.
pub open spec fn lines_read(content: Seq<char>, r: Result<ArcStats, ArcStatsError>) -> bool {
    let lines = text::lines(content);
    match r {
        Ok(s) => none_spoilt(lines, 2) && each_by_name(
            s,
            |name: Seq<char>, v: u64| last_named(lines, 2, name, v),
        ),
        Err(ArcStatsError::BadValue { name }) => first_spoilt(lines, 2, name@),
        Err(ArcStatsError::Missing { field, listing }) => none_spoilt(lines, 2)
            && listing is Arcstats && first_absent(
            field@,
            |name: Seq<char>| named(lines, 2, name),
        ),
        Err(ArcStatsError::NotPopulated { field, listing }) => none_spoilt(lines, 2)
            && listing is Arcstats && first_absent(
            field@,
            |name: Seq<char>| named(lines, 2, name),
        ),
        Err(ArcStatsError::Unreadable { message }) => false,
    }
}

proof fn lemma_lines_read(content: Seq<char>, m: Map<Seq<char>, u64>, s: ArcStats)
    requires
        linux::table(linux::body(content)) == Ok::<Map<Seq<char>, u64>, Seq<char>>(m),
        arcstats::taken_from(s, m),
    ensures
        lines_read(content, Ok(s)),
{
    lemma_table(linux::body(content));
    lemma_body(content);
    let rest = linux::body(content);
    assert(linux::table(rest)->Ok_0 == m);
    let at = |name: Seq<char>, v: u64| last_named(text::lines(content), 2, name, v);
    assert forall|i: int| 0 <= i < 39 implies at(
        #[trigger] arcstats::FIELD_KEYS@[i]@,
        arcstats::field_values(s)[i],
    ) by {
        let name = arcstats::FIELD_KEYS@[i]@;
        assert(m.contains_key(name));
        assert(last_named(rest, 0, name, m[name]));
    }
    lemma_each(s, at);
}

proof fn lemma_line_absent(content: Seq<char>, m: Map<Seq<char>, u64>, i: int)
    requires
        linux::table(linux::body(content)) == Ok::<Map<Seq<char>, u64>, Seq<char>>(m),
        arcstats::first_missing(m, i),
    ensures
        none_spoilt(text::lines(content), 2),
        first_absent(
            arcstats::FIELD_KEYS@[i]@,
            |name: Seq<char>| named(text::lines(content), 2, name),
        ),
{
    lemma_table(linux::body(content));
    lemma_body(content);
    let rest = linux::body(content);
    assert(linux::table(rest)->Ok_0 == m);
    let there = |name: Seq<char>| named(text::lines(content), 2, name);
    assert forall|name: Seq<char>| #[trigger] m.contains_key(name) <==> there(name) by {
        assert(m.contains_key(name) <==> named(rest, 0, name));
    }
    lemma_first_absent(m, i, there);
}

/// `ArcStats::parse` reads each counter off the last line that names it.
pub proof fn kernel_text_is_read(content: &str, r: Result<ArcStats, ArcStatsError>)
    requires
        call_ensures(ArcStats::parse, (content,), r),
    ensures
        lines_read(content@, r),
        !(r matches Err(ArcStatsError::NotPopulated { field, listing })),
{
    match linux::table(linux::body(content@)) {
        Ok(m) => {
            if r is Ok {
                lemma_lines_read(content@, m, r->Ok_0);
            } else {
                let e = r->Err_0;
                let i = choose|i: int|
                    #![trigger arcstats::FIELD_KEYS@[i]]
                    arcstats::first_missing(m, i) && e@ == arcstats::ArcErrorModel::Missing(
                        arcstats::FIELD_KEYS@[i]@,
                        Listing::Arcstats,
                    );
                lemma_line_absent(content@, m, i);
            }
        },
        Err(name) => {
            lemma_table(linux::body(content@));
            lemma_body(content@);
        },
    }
}

/// `linux::parse` reads each counter off the last line that names it.
pub proof fn kernel_text_is_looked_up(content: &str, r: Result<ArcStats, ArcStatsError>)
    requires
        call_ensures(linux::parse, (content,), r),
    ensures
        lines_read(content@, r),
        !(r matches Err(ArcStatsError::Missing { field, listing })),
{
    match linux::table(linux::body(content@)) {
        Ok(m) => {
            if r is Ok {
                lemma_lines_read(content@, m, r->Ok_0);
            } else {
                let e = r->Err_0;
                let i = choose|i: int|
                    #![trigger arcstats::FIELD_KEYS@[i]]
                    arcstats::first_missing(m, i) && e@ == arcstats::ArcErrorModel::NotPopulated(
                        arcstats::FIELD_KEYS@[i]@,
                        Listing::Arcstats,
                    );
                lemma_line_absent(content@, m, i);
            }
        },
        Err(name) => {
            lemma_table(linux::body(content@));
            lemma_body(content@);
        },
    }
}

/// The line lists the counter with this value: its key is the name behind the common prefix,
/// and a colon and the number follow.
pub open spec fn sysctl_lists(line: Seq<char>, name: Seq<char>, v: u64) -> bool {
    exists|value: Seq<char>|
        #![trigger text::trim(value)]
        line == "kstat.zfs.misc.arcstats."@ + name + seq![':'] + value && !name.contains(':')
            && text::number(text::trim(value)) == Some(v)
}

/// The last line that lists the counter does so with this value.
pub open spec fn last_listed(lines: Seq<Seq<char>>, name: Seq<char>, v: u64) -> bool {
    exists|i: int|
        #![trigger lines[i]]
        0 <= i < lines.len() && sysctl_lists(lines[i], name, v) && forall|j: int, w: u64|
            i < j < lines.len() ==> !(#[trigger] sysctl_lists(lines[j], name, w))
}

/// Some line lists the counter.
pub open spec fn listed(lines: Seq<Seq<char>>, name: Seq<char>) -> bool {
    exists|i: int, v: u64| 0 <= i < lines.len() && #[trigger] sysctl_lists(lines[i], name, v)
}

proof fn lemma_position(s: Seq<char>, from: int, c: char)
    requires
        0 <= from <= s.len(),
    ensures
        from <= text::position(s, from, c) <= s.len(),
        forall|i: int| from <= i < text::position(s, from, c) ==> #[trigger] s[i] != c,
        text::position(s, from, c) < s.len() ==> s[text::position(s, from, c)] == c,
    decreases s.len() - from,
{
    if from < s.len() && s[from] != c {
        lemma_position(s, from + 1, c);
    }
}

proof fn lemma_entry(line: Seq<char>, name: Seq<char>, v: u64)
    ensures
        sysctl_lists(line, name, v) <==> freebsd::entry(line) == Some((name, v)),
{
    let prefix = "kstat.zfs.misc.arcstats."@;
    reveal_strlit("kstat.zfs.misc.arcstats.");
    let k = text::position(line, 0, ':');
    lemma_position(line, 0, ':');
    if sysctl_lists(line, name, v) {
        let value = choose|value: Seq<char>|
            #![trigger text::trim(value)]
            line == prefix + name + seq![':'] + value && !name.contains(':') && text::number(
                text::trim(value),
            ) == Some(v);
        let n = (prefix + name).len() as int;
        assert(line[n] == ':');
        assert forall|i: int| 0 <= i < n implies #[trigger] line[i] != ':' by {
            if i < prefix.len() {
                assert(line[i] == prefix[i]);
            } else {
                assert(line[i] == name[i - prefix.len()]);
            }
        }
        assert(k == n);
        assert(line.take(k) =~= prefix + name);
        assert(line.skip(k + 1) =~= value);
        assert(prefix.is_prefix_of(prefix + name));
        assert((prefix + name).skip(prefix.len() as int) =~= name);
    }
    if freebsd::entry(line) == Some((name, v)) {
        let value = line.skip(k + 1);
        assert(line.take(k) =~= prefix + name);
        assert(line =~= prefix + name + seq![':'] + value);
        assert(!name.contains(':')) by {
            if name.contains(':') {
                let i = choose|i: int| 0 <= i < name.len() && name[i] == ':';
                assert(line[i + prefix.len()] == name[i]);
            }
        }
        assert(text::number(text::trim(value)) == Some(v));
    }
}

proof fn lemma_sysctl_table(lines: Seq<Seq<char>>)
    ensures
        forall|name: Seq<char>| #[trigger]
            freebsd::table(lines).contains_key(name) <==> listed(lines, name),
        forall|name: Seq<char>| #[trigger]
            freebsd::table(lines).contains_key(name) ==> last_listed(
                lines,
                name,
                freebsd::table(lines)[name],
            ),
    decreases lines.len(),
{
    if lines.len() > 0 {
        let init = lines.drop_last();
        let n = lines.len() - 1;
        let m = freebsd::table(init);
        let all = freebsd::table(lines);
        lemma_sysctl_table(init);
        assert(forall|j: int| 0 <= j < n ==> #[trigger] lines[j] == init[j]);
        assert(lines[n] == lines.last());
        assert forall|name: Seq<char>| #[trigger] all.contains_key(name) implies listed(lines, name)
            && last_listed(lines, name, all[name]) by {
            let v = all[name];
            if freebsd::entry(lines.last()) == Some((name, v)) {
                lemma_entry(lines[n], name, v);
                assert(sysctl_lists(lines[n], name, v));
            } else {
                assert(m.contains_key(name) && m[name] == v);
                let i = choose|i: int|
                    #![trigger init[i]]
                    0 <= i < init.len() && sysctl_lists(init[i], name, v) && forall|
                        j: int,
                        w: u64,
                    |
                        i < j < init.len() ==> !(#[trigger] sysctl_lists(init[j], name, w));
                assert(sysctl_lists(lines[i], name, v));
                assert forall|j: int, w: u64| i < j < lines.len() implies !(
                #[trigger] sysctl_lists(lines[j], name, w)) by {
                    if j < n {
                        assert(!sysctl_lists(init[j], name, w));
                    } else {
                        lemma_entry(lines[n], name, w);
                    }
                }
            }
        }
        assert forall|name: Seq<char>| listed(lines, name) implies #[trigger] all.contains_key(
            name,
        ) by {
            let (i, v) = choose|i: int, v: u64|
                0 <= i < lines.len() && #[trigger] sysctl_lists(lines[i], name, v);
            lemma_entry(lines[i], name, v);
            if i < n {
                assert(sysctl_lists(init[i], name, v));
                assert(m.contains_key(name));
            }
        }
    }
}

/// `parse_sysctl_text` reads each counter off the last line that lists it; if one is not
/// listed, it names the first such.
pub proof fn sysctl_text_is_read(content: &str, r: Result<ArcStats, ArcStatsError>)
    requires
        call_ensures(freebsd::parse_sysctl_text, (content,), r),
    ensures
        r matches Ok(s) ==> each_by_name(
            s,
            |name: Seq<char>, v: u64| last_listed(text::lines(content@), name, v),
        ),
        r matches Err(e) ==> e matches ArcStatsError::NotPopulated { field, listing }
            && listing is Sysctl && first_absent(
            field@,
            |name: Seq<char>| listed(text::lines(content@), name),
        ),
{
    let lines = text::lines(content@);
    let m = freebsd::table(lines);
    lemma_sysctl_table(lines);
    if r is Ok {
        let s = r->Ok_0;
        let at = |name: Seq<char>, v: u64| last_listed(lines, name, v);
        assert forall|i: int| 0 <= i < 39 implies at(
            #[trigger] arcstats::FIELD_KEYS@[i]@,
            arcstats::field_values(s)[i],
        ) by {
            assert(m.contains_key(arcstats::FIELD_KEYS@[i]@));
        }
        lemma_each(s, at);
    } else {
        let e = r->Err_0;
        let i = choose|i: int|
            #![trigger arcstats::FIELD_KEYS@[i]]
            arcstats::first_missing(m, i) && e@ == arcstats::ArcErrorModel::NotPopulated(
                arcstats::FIELD_KEYS@[i]@,
                Listing::Sysctl,
            );
        lemma_first_absent(m, i, |name: Seq<char>| listed(lines, name));
    }
}

/// `parse_value` reads the number that is left without the spaces around it.
pub proof fn sysctl_values_are_read(s: &str, r: Option<u64>)
    requires
        call_ensures(freebsd::parse_value, (s,), r),
    ensures
        r == text::number(text::trim(s@)),
{
}

/// An error tells in words what could not be had, and out of which listing.
pub proof fn errors_are_worded(e: ArcStatsError, r: String)
    requires
        call_ensures(ArcStatsError::describe, (&e,), r),
    ensures
        e matches ArcStatsError::Unreadable { message } ==> r@ == message@,
        e matches ArcStatsError::BadValue { name } ==> r@ == "failed to parse value for '"@ + name@
            + "'"@,
        e matches ArcStatsError::Missing { field, listing } ==> r@ == "missing field '"@ + field@
            + "' in "@ + (if listing is Arcstats { "arcstats"@ } else { "sysctl arcstats text"@ }),
        e matches ArcStatsError::NotPopulated { field, listing } ==> r@ == "missing '"@ + field@
            + "': missing field '"@ + field@ + "' in "@ + (if listing is Arcstats {
            "arcstats"@
        } else {
            "sysctl arcstats text"@
        }),
{
    reveal_strlit("': ");
    reveal_strlit("missing field '");
    reveal_strlit("': missing field '");
    if let ArcStatsError::NotPopulated { field, listing } = e {
        assert("': missing field '"@ =~= "': "@ + "missing field '"@);
        let end = if listing is Arcstats { "arcstats"@ } else { "sysctl arcstats text"@ };
        assert(r@ =~= "missing '"@ + field@ + "': missing field '"@ + field@ + "' in "@ + end);
    }
}

} // verus!
