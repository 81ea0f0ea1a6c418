//! Statistics of the ARC.
//!
//! The counters are the same on every system; only where they are read from differs. Each
//! source hands `populate` a way to look up one counter by its name.
use vstd::hash_map::StringHashMap;
use vstd::prelude::*;

pub mod freebsd;
pub mod laws;
pub mod linux;

verus! {

/// One reading of the ARC's counters.
#[derive(Copy, Clone, Debug, PartialEq, Eq, Structural)]
pub struct ArcStats {
    pub hits: u64,
    pub iohits: u64,
    pub misses: u64,
    pub demand_data_hits: u64,
    pub demand_data_iohits: u64,
    pub demand_data_misses: u64,
    pub demand_metadata_hits: u64,
    pub demand_metadata_iohits: u64,
    pub demand_metadata_misses: u64,
    pub prefetch_data_hits: u64,
    pub prefetch_data_iohits: u64,
    pub prefetch_data_misses: u64,
    pub prefetch_metadata_hits: u64,
    pub prefetch_metadata_iohits: u64,
    pub prefetch_metadata_misses: u64,
    pub size: u64,
    pub c: u64,
    pub c_min: u64,
    pub c_max: u64,
    pub data_size: u64,
    pub metadata_size: u64,
    pub anon_size: u64,
    pub overhead_size: u64,
    pub hdr_size: u64,
    pub dbuf_size: u64,
    pub dnode_size: u64,
    pub bonus_size: u64,
    pub mru_size: u64,
    pub mru_data: u64,
    pub mru_metadata: u64,
    pub mfu_size: u64,
    pub mfu_data: u64,
    pub mfu_metadata: u64,
    pub compressed_size: u64,
    pub uncompressed_size: u64,
    pub memory_all_bytes: u64,
    pub memory_free_bytes: u64,
    pub memory_available_bytes: u64,
    pub arc_meta_used: u64,
}

/// Where readings of the counters come from.
pub trait ArcReader {
    fn read(&mut self) -> Result<ArcStats, ArcStatsError>;
}

/// The names of the counters, in the order of the fields of `ArcStats`.
pub const FIELD_KEYS: [&'static str; 39] = [
    "hits",
    "iohits",
    "misses",
    "demand_data_hits",
    "demand_data_iohits",
    "demand_data_misses",
    "demand_metadata_hits",
    "demand_metadata_iohits",
    "demand_metadata_misses",
    "prefetch_data_hits",
    "prefetch_data_iohits",
    "prefetch_data_misses",
    "prefetch_metadata_hits",
    "prefetch_metadata_iohits",
    "prefetch_metadata_misses",
    "size",
    "c",
    "c_min",
    "c_max",
    "data_size",
    "metadata_size",
    "anon_size",
    "overhead_size",
    "hdr_size",
    "dbuf_size",
    "dnode_size",
    "bonus_size",
    "mru_size",
    "mru_data",
    "mru_metadata",
    "mfu_size",
    "mfu_data",
    "mfu_metadata",
    "compressed_size",
    "uncompressed_size",
    "memory_all_bytes",
    "memory_free_bytes",
    "memory_available_bytes",
    "arc_meta_used",
];

/// The counters of `s`, in the order of `FIELD_KEYS`.
pub open spec fn field_values(s: ArcStats) -> Seq<u64> {
    seq![
        s.hits,
        s.iohits,
        s.misses,
        s.demand_data_hits,
        s.demand_data_iohits,
        s.demand_data_misses,
        s.demand_metadata_hits,
        s.demand_metadata_iohits,
        s.demand_metadata_misses,
        s.prefetch_data_hits,
        s.prefetch_data_iohits,
        s.prefetch_data_misses,
        s.prefetch_metadata_hits,
        s.prefetch_metadata_iohits,
        s.prefetch_metadata_misses,
        s.size,
        s.c,
        s.c_min,
        s.c_max,
        s.data_size,
        s.metadata_size,
        s.anon_size,
        s.overhead_size,
        s.hdr_size,
        s.dbuf_size,
        s.dnode_size,
        s.bonus_size,
        s.mru_size,
        s.mru_data,
        s.mru_metadata,
        s.mfu_size,
        s.mfu_data,
        s.mfu_metadata,
        s.compressed_size,
        s.uncompressed_size,
        s.memory_all_bytes,
        s.memory_free_bytes,
        s.memory_available_bytes,
        s.arc_meta_used,
    ]
}

/// The reading whose counters are `v`, in the order of `FIELD_KEYS`.
fn from_values(v: &Vec<u64>) -> (r: ArcStats)
    requires
        v.len() == 39,
    ensures
        field_values(r) == v@,
{
    let r: ArcStats = ArcStats {
        hits: v[0],
        iohits: v[1],
        misses: v[2],
        demand_data_hits: v[3],
        demand_data_iohits: v[4],
        demand_data_misses: v[5],
        demand_metadata_hits: v[6],
        demand_metadata_iohits: v[7],
        demand_metadata_misses: v[8],
        prefetch_data_hits: v[9],
        prefetch_data_iohits: v[10],
        prefetch_data_misses: v[11],
        prefetch_metadata_hits: v[12],
        prefetch_metadata_iohits: v[13],
        prefetch_metadata_misses: v[14],
        size: v[15],
        c: v[16],
        c_min: v[17],
        c_max: v[18],
        data_size: v[19],
        metadata_size: v[20],
        anon_size: v[21],
        overhead_size: v[22],
        hdr_size: v[23],
        dbuf_size: v[24],
        dnode_size: v[25],
        bonus_size: v[26],
        mru_size: v[27],
        mru_data: v[28],
        mru_metadata: v[29],
        mfu_size: v[30],
        mfu_data: v[31],
        mfu_metadata: v[32],
        compressed_size: v[33],
        uncompressed_size: v[34],
        memory_all_bytes: v[35],
        memory_free_bytes: v[36],
        memory_available_bytes: v[37],
        arc_meta_used: v[38],
    };
    assert(field_values(r) =~= v@);
    r
}

/// A counter that could not be looked up, and why.
#[derive(Debug)]
pub struct FieldError<E> {
    pub field: &'static str,
    pub cause: E,
}

/// Looks up every counter, each once, in the order of `FIELD_KEYS`; stops at the first that
/// cannot be had.
pub fn populate<E, F: Fn(&str) -> Result<u64, E>>(get: F) -> (r: Result<ArcStats, FieldError<E>>)
    requires
        forall|name: &str| call_requires(get, (name,)),
    ensures
        match r {
            Ok(s) => forall|i: int|
                0 <= i < 39 ==> call_ensures(
                    get,
                    (#[trigger] FIELD_KEYS@[i],),
                    Ok::<u64, E>(field_values(s)[i]),
                ),
            Err(e) => exists|i: int|
                #![trigger FIELD_KEYS@[i]]
                0 <= i < 39 && e.field == FIELD_KEYS@[i] && call_ensures(
                    get,
                    (FIELD_KEYS@[i],),
                    Err::<u64, E>(e.cause),
                ) && forall|j: int|
                    0 <= j < i ==> exists|v: u64|
                        call_ensures(get, (#[trigger] FIELD_KEYS@[j],), Ok::<u64, E>(v)),
        },
{
    let keys: [&'static str; 39] = FIELD_KEYS;
    let mut values: Vec<u64> = Vec::new();
    let mut i: usize = 0;
    while i < 39
        invariant
            i <= 39,
            values.len() == i,
            keys == FIELD_KEYS,
            forall|name: &str| call_requires(get, (name,)),
            forall|j: int|
                0 <= j < i ==> call_ensures(
                    get,
                    (#[trigger] FIELD_KEYS@[j],),
                    Ok::<u64, E>(values@[j]),
                ),
        decreases 39 - i,
    {
        let key: &'static str = keys[i];
        match get(key) {
            Ok(v) => {
                values.push(v);
            },
            Err(cause) => {
                assert(key == FIELD_KEYS@[i as int]);
                return Err(FieldError { field: key, cause });
            },
        }
        i = i + 1;
    }
    Ok(from_values(&values))
}

/// Where counters are listed.
#[derive(Copy, Clone, Debug, PartialEq, Eq, Structural)]
pub enum Listing {
    /// The text that the kernel offers on Linux.
    Arcstats,
    /// What `sysctl` prints on FreeBSD.
    Sysctl,
}

impl Listing {
    /// What the listing is called.
    pub open spec fn title(self) -> Seq<char> {
        match self {
            Listing::Arcstats => "arcstats"@,
            Listing::Sysctl => "sysctl arcstats text"@,
        }
    }

    /// What the listing is called.
    pub fn name(&self) -> (r: &'static str)
        ensures
            r@ == self.title(),
    {
        match self {
            Listing::Arcstats => "arcstats",
            Listing::Sysctl => "sysctl arcstats text",
        }
    }
}

/// Why the counters could not be had.
#[derive(Debug)]
pub enum ArcStatsError {
    /// They could not be read at all.
    Unreadable { message: String },
    /// The value listed under this name is not a number.
    BadValue { name: String },
    /// The counter of this name is not listed.
    Missing { field: String, listing: Listing },
    /// Looking up the counters one by one stopped at this name, which is not listed.
    NotPopulated { field: String, listing: Listing },
}

/// What an `ArcStatsError` says.
pub ghost enum ArcErrorModel {
    Unreadable(Seq<char>),
    BadValue(Seq<char>),
    Missing(Seq<char>, Listing),
    NotPopulated(Seq<char>, Listing),
}

impl View for ArcStatsError {
    type V = ArcErrorModel;

    open spec fn view(&self) -> ArcErrorModel {
        match self {
            ArcStatsError::Unreadable { message } => ArcErrorModel::Unreadable(message@),
            ArcStatsError::BadValue { name } => ArcErrorModel::BadValue(name@),
            ArcStatsError::Missing { field, listing } => ArcErrorModel::Missing(field@, *listing),
            ArcStatsError::NotPopulated { field, listing } => ArcErrorModel::NotPopulated(
                field@,
                *listing,
            ),
        }
    }
}

/// That a counter is not listed, in words.
pub open spec fn missing_words(field: Seq<char>, listing: Listing) -> Seq<char> {
    "missing field '"@ + field + "' in "@ + listing.title()
}

/// Appends that a counter is not listed, in words.
fn push_missing(s: &mut String, field: &String, listing: Listing)
    ensures
        final(s)@ == old(s)@ + missing_words(field@, listing),
{
    let ghost start = s@;
    s.append("missing field '");
    s.append(field.as_str());
    s.append("' in ");
    s.append(listing.name());
    assert(s@ =~= start + missing_words(field@, listing));
}

impl ArcStatsError {
    /// The error in words: the outermost message, then, behind a colon, what caused it.
    pub open spec fn words(&self) -> Seq<char> {
        match self@ {
            ArcErrorModel::Unreadable(message) => message,
            ArcErrorModel::BadValue(name) => "failed to parse value for '"@ + name + "'"@,
            ArcErrorModel::Missing(field, listing) => missing_words(field, listing),
            ArcErrorModel::NotPopulated(field, listing) => "missing '"@ + field + "': "@
                + missing_words(field, listing),
        }
    }

    /// The error in words: the outermost message, then, behind a colon, what caused it.
    pub fn describe(&self) -> (r: String)
        ensures
            r@ == self.words(),
    {
        match self {
            ArcStatsError::Unreadable { message } => message.clone(),
            ArcStatsError::BadValue { name } => {
                let mut s: String = "failed to parse value for '".to_owned();
                s.append(name.as_str());
                s.append("'");
                s
            },
            ArcStatsError::Missing { field, listing } => {
                let mut s: String = String::new();
                push_missing(&mut s, field, *listing);
                assert(s@ =~= self.words());
                s
            },
            ArcStatsError::NotPopulated { field, listing } => {
                let mut s: String = "missing '".to_owned();
                s.append(field.as_str());
                s.append("': ");
                push_missing(&mut s, field, *listing);
                s
            },
        }
    }
}

/// `m` lacks the counter at position `i` and none before it.
pub open spec fn first_missing(m: Map<Seq<char>, u64>, i: int) -> bool {
    &&& 0 <= i < FIELD_KEYS@.len()
    &&& !m.contains_key(FIELD_KEYS@[i]@)
    &&& forall|j: int| 0 <= j < i ==> m.contains_key(#[trigger] FIELD_KEYS@[j]@)
}

/// `s` holds the counters that `m` lists.
pub open spec fn taken_from(s: ArcStats, m: Map<Seq<char>, u64>) -> bool {
    forall|i: int|
        0 <= i < FIELD_KEYS@.len() ==> m.contains_key(#[trigger] FIELD_KEYS@[i]@)
            && field_values(s)[i] == m[FIELD_KEYS@[i]@]
}

/// What looking up all counters in `m` comes to.
pub open spec fn looked_up<E>(
    m: Map<Seq<char>, u64>,
    r: Result<ArcStats, FieldError<E>>,
) -> bool {
    match r {
        Ok(s) => taken_from(s, m),
        Err(e) => exists|i: int|
            #![trigger FIELD_KEYS@[i]]
            first_missing(m, i) && e.field == FIELD_KEYS@[i],
    }
}

/// What reading the counters of a listing out of `m` comes to, where they are looked up one by
/// one.
pub open spec fn populated_from(
    m: Map<Seq<char>, u64>,
    listing: Listing,
    r: Result<ArcStats, ArcStatsError>,
) -> bool {
    match r {
        Ok(s) => taken_from(s, m),
        Err(e) => exists|i: int|
            #![trigger FIELD_KEYS@[i]]
            first_missing(m, i) && e@ == ArcErrorModel::NotPopulated(FIELD_KEYS@[i]@, listing),
    }
}

/// What reading the counters of a listing out of `m` comes to.
pub open spec fn read_from(
    m: Map<Seq<char>, u64>,
    listing: Listing,
    r: Result<ArcStats, ArcStatsError>,
) -> bool {
    match r {
        Ok(s) => taken_from(s, m),
        Err(e) => exists|i: int|
            #![trigger FIELD_KEYS@[i]]
            first_missing(m, i) && e@ == ArcErrorModel::Missing(FIELD_KEYS@[i]@, listing),
    }
}

/// The value listed under `name`.
fn get(map: &StringHashMap<u64>, name: &str) -> (r: Result<u64, ()>)
    ensures
        match r {
            Ok(v) => map@.contains_key(name@) && v == map@[name@],
            Err(_) => !map@.contains_key(name@),
        },
{
    match map.get(name) {
        Some(v) => Ok(*v),
        None => Err(()),
    }
}

/// Looks up all counters in `map`.
fn stats_from_map(map: &StringHashMap<u64>) -> (r: Result<ArcStats, FieldError<()>>)
    ensures
        looked_up(map@, r),
{
    let look_up = |name: &str| -> (r: Result<u64, ()>)
        ensures
            match r {
                Ok(v) => map@.contains_key(name@) && v == map@[name@],
                Err(_) => !map@.contains_key(name@),
            },
        { get(map, name) };
    let r: Result<ArcStats, FieldError<()>> = populate(look_up);
    proof {
        if r is Err {
            let e = r->Err_0;
            let i = choose|i: int|
                #![trigger FIELD_KEYS@[i]]
                0 <= i < 39 && e.field == FIELD_KEYS@[i] && call_ensures(
                    look_up,
                    (FIELD_KEYS@[i],),
                    Err::<u64, ()>(e.cause),
                ) && forall|j: int|
                    0 <= j < i ==> exists|v: u64|
                        call_ensures(look_up, (#[trigger] FIELD_KEYS@[j],), Ok::<u64, ()>(v));
            assert(first_missing(map@, i));
        }
    }
    r
}

/// Reads all counters of a listing out of `map`, looking them up one by one.
pub fn populate_from_map(map: &StringHashMap<u64>, listing: Listing) -> (r: Result<
    ArcStats,
    ArcStatsError,
>)
    ensures
        populated_from(map@, listing, r),
{
    match stats_from_map(map) {
        Ok(s) => Ok(s),
        Err(e) => Err(ArcStatsError::NotPopulated { field: e.field.to_owned(), listing }),
    }
}

impl ArcStats {
    /// Reads the text that the kernel offers on Linux.
    pub fn parse(content: &str) -> (r: Result<ArcStats, ArcStatsError>)
        ensures
            match linux::table(linux::body(content@)) {
                Ok(m) => read_from(m, Listing::Arcstats, r),
                Err(name) => r is Err && r->Err_0@ == ArcErrorModel::BadValue(name),
            },
    {
        match linux::parse_to_map(content) {
            Ok(map) => match stats_from_map(&map) {
                Ok(s) => Ok(s),
                Err(e) => Err(
                    ArcStatsError::Missing {
                        field: e.field.to_owned(),
                        listing: Listing::Arcstats,
                    },
                ),
            },
            Err(e) => Err(e),
        }
    }
}

} // verus!
