//! Reading the ARC's counters.
use zftop::arcstats::freebsd::{parse_sysctl_text, parse_value};
use zftop::arcstats::linux::parse;
use zftop::arcstats::{populate, ArcStats, ArcStatsError, Listing, FIELD_KEYS};

const LINUX: &str = "13 1 0x01 147 39984 4275262131 259014311891
name                            type data
hits                            4    11891096
iohits                          4    23938
misses                          4    101339
demand_data_hits                4    4894419
demand_data_iohits              4    582
demand_data_misses              4    30760
demand_metadata_hits            4    6900081
demand_metadata_iohits          4    1006
demand_metadata_misses          4    37485
prefetch_data_hits              4    39679
prefetch_data_iohits            4    141
prefetch_data_misses            4    19977
prefetch_metadata_hits          4    56917
prefetch_metadata_iohits        4    22209
prefetch_metadata_misses        4    13117
size                            4    8540576328
c                               4    8589934592
c_min                           4    912230400
c_max                           4    8589934592
data_size                       4    6777644544
metadata_size                   4    1123503104
anon_size                       4    6574080
overhead_size                   4    683364352
hdr_size                        4    36282504
dbuf_size                       4    48823728
dnode_size                      4    352114400
bonus_size                      4    126001920
mru_size                        4    2139001856
mru_data                        4    1425743872
mru_metadata                    4    713257984
mfu_size                        4    5754272768
mfu_data                        4    5350335488
mfu_metadata                    4    403937280
compressed_size                 4    7217783296
uncompressed_size               4    12716617216
memory_all_bytes                4    29191372800
memory_free_bytes               4    8198266880
memory_available_bytes          4    7122022400
arc_meta_used                   4    1730780232
";

const FREEBSD: &str = "kstat.zfs.misc.arcstats.anon_size: 268288
kstat.zfs.misc.arcstats.arc_meta_used: 214094256
kstat.zfs.misc.arcstats.bonus_size: 26734400
kstat.zfs.misc.arcstats.c: 1520850909
kstat.zfs.misc.arcstats.c_max: 3176624128
kstat.zfs.misc.arcstats.c_min: 132823936
kstat.zfs.misc.arcstats.compressed_size: 1242330624
kstat.zfs.misc.arcstats.data_size: 1248682496
kstat.zfs.misc.arcstats.dbuf_size: 14711040
kstat.zfs.misc.arcstats.demand_data_hits: 6040389
kstat.zfs.misc.arcstats.demand_data_iohits: 20
kstat.zfs.misc.arcstats.demand_data_misses: 61775
kstat.zfs.misc.arcstats.demand_metadata_hits: 1970835
kstat.zfs.misc.arcstats.demand_metadata_iohits: 476
kstat.zfs.misc.arcstats.demand_metadata_misses: 4475
kstat.zfs.misc.arcstats.dnode_size: 70843120
kstat.zfs.misc.arcstats.hdr_size: 9087504
kstat.zfs.misc.arcstats.hits: 8019094
kstat.zfs.misc.arcstats.iohits: 12844
kstat.zfs.misc.arcstats.memory_all_bytes: 4250365952
kstat.zfs.misc.arcstats.memory_available_bytes: 21221376
kstat.zfs.misc.arcstats.memory_free_bytes: 109547520
kstat.zfs.misc.arcstats.metadata_size: 92718592
kstat.zfs.misc.arcstats.mfu_data: 1222442496
kstat.zfs.misc.arcstats.mfu_metadata: 53531136
kstat.zfs.misc.arcstats.mfu_size: 1275973632
kstat.zfs.misc.arcstats.misses: 80548
kstat.zfs.misc.arcstats.mru_data: 26234880
kstat.zfs.misc.arcstats.mru_metadata: 38923776
kstat.zfs.misc.arcstats.mru_size: 65158656
kstat.zfs.misc.arcstats.overhead_size: 99070464
kstat.zfs.misc.arcstats.prefetch_data_hits: 3407
kstat.zfs.misc.arcstats.prefetch_data_iohits: 0
kstat.zfs.misc.arcstats.prefetch_data_misses: 11565
kstat.zfs.misc.arcstats.prefetch_metadata_hits: 4462
kstat.zfs.misc.arcstats.prefetch_metadata_iohits: 12348
kstat.zfs.misc.arcstats.prefetch_metadata_misses: 2733
kstat.zfs.misc.arcstats.size: 1472594864
kstat.zfs.misc.arcstats.uncompressed_size: 2752199168
";

fn linux_fixture() -> ArcStats {
    parse(LINUX).unwrap()
}

fn arcstats_fixture() -> ArcStats {
    ArcStats::parse(LINUX).unwrap()
}

fn freebsd_fixture() -> ArcStats {
    parse_sysctl_text(FREEBSD).unwrap()
}

#[test]
fn linux_parse_fixture_hits() {
    let stats = linux_fixture();
    assert_eq!(stats.hits, 11891096);
    assert_eq!(stats.iohits, 23938);
    assert_eq!(stats.misses, 101339);
}

#[test]
fn linux_parse_fixture_demand() {
    let stats = linux_fixture();
    assert_eq!(stats.demand_data_hits, 4894419);
    assert_eq!(stats.demand_data_iohits, 582);
    assert_eq!(stats.demand_data_misses, 30760);
    assert_eq!(stats.demand_metadata_hits, 6900081);
    assert_eq!(stats.demand_metadata_iohits, 1006);
    assert_eq!(stats.demand_metadata_misses, 37485);
}

#[test]
fn linux_parse_fixture_prefetch() {
    let stats = linux_fixture();
    assert_eq!(stats.prefetch_data_hits, 39679);
    assert_eq!(stats.prefetch_data_iohits, 141);
    assert_eq!(stats.prefetch_data_misses, 19977);
    assert_eq!(stats.prefetch_metadata_hits, 56917);
    assert_eq!(stats.prefetch_metadata_iohits, 22209);
    assert_eq!(stats.prefetch_metadata_misses, 13117);
}

#[test]
fn linux_parse_fixture_sizing() {
    let stats = linux_fixture();
    assert_eq!(stats.size, 8540576328);
    assert_eq!(stats.c, 8589934592);
    assert_eq!(stats.c_min, 912230400);
    assert_eq!(stats.c_max, 8589934592);
}

#[test]
fn linux_parse_fixture_breakdown() {
    let stats = linux_fixture();
    assert_eq!(stats.data_size, 6777644544);
    assert_eq!(stats.metadata_size, 1123503104);
    assert_eq!(stats.mru_size, 2139001856);
    assert_eq!(stats.mru_data, 1425743872);
    assert_eq!(stats.mru_metadata, 713257984);
    assert_eq!(stats.mfu_size, 5754272768);
    assert_eq!(stats.mfu_data, 5350335488);
    assert_eq!(stats.mfu_metadata, 403937280);
    assert_eq!(stats.anon_size, 6574080);
}

#[test]
fn linux_parse_fixture_compression() {
    let stats = linux_fixture();
    assert_eq!(stats.compressed_size, 7217783296);
    assert_eq!(stats.uncompressed_size, 12716617216);
}

#[test]
fn linux_parse_fixture_memory() {
    let stats = linux_fixture();
    assert_eq!(stats.memory_all_bytes, 29191372800);
    assert_eq!(stats.memory_free_bytes, 8198266880);
    assert_eq!(stats.memory_available_bytes, 7122022400);
    assert_eq!(stats.arc_meta_used, 1730780232);
}

#[test]
fn arcstats_parse_fixture_hits() {
    let stats = arcstats_fixture();
    assert_eq!(stats.hits, 11891096);
    assert_eq!(stats.iohits, 23938);
    assert_eq!(stats.misses, 101339);
}

#[test]
fn arcstats_parse_fixture_demand() {
    let stats = arcstats_fixture();
    assert_eq!(stats.demand_data_hits, 4894419);
    assert_eq!(stats.demand_data_iohits, 582);
    assert_eq!(stats.demand_data_misses, 30760);
    assert_eq!(stats.demand_metadata_hits, 6900081);
    assert_eq!(stats.demand_metadata_iohits, 1006);
    assert_eq!(stats.demand_metadata_misses, 37485);
}

#[test]
fn arcstats_parse_fixture_prefetch() {
    let stats = arcstats_fixture();
    assert_eq!(stats.prefetch_data_hits, 39679);
    assert_eq!(stats.prefetch_data_iohits, 141);
    assert_eq!(stats.prefetch_data_misses, 19977);
    assert_eq!(stats.prefetch_metadata_hits, 56917);
    assert_eq!(stats.prefetch_metadata_iohits, 22209);
    assert_eq!(stats.prefetch_metadata_misses, 13117);
}

#[test]
fn arcstats_parse_fixture_sizing() {
    let stats = arcstats_fixture();
    assert_eq!(stats.size, 8540576328);
    assert_eq!(stats.c, 8589934592);
    assert_eq!(stats.c_min, 912230400);
    assert_eq!(stats.c_max, 8589934592);
}

#[test]
fn arcstats_parse_fixture_breakdown() {
    let stats = arcstats_fixture();
    assert_eq!(stats.data_size, 6777644544);
    assert_eq!(stats.metadata_size, 1123503104);
    assert_eq!(stats.mru_size, 2139001856);
    assert_eq!(stats.mru_data, 1425743872);
    assert_eq!(stats.mru_metadata, 713257984);
    assert_eq!(stats.mfu_size, 5754272768);
    assert_eq!(stats.mfu_data, 5350335488);
    assert_eq!(stats.mfu_metadata, 403937280);
    assert_eq!(stats.anon_size, 6574080);
}

#[test]
fn arcstats_parse_fixture_compression() {
    let stats = arcstats_fixture();
    assert_eq!(stats.compressed_size, 7217783296);
    assert_eq!(stats.uncompressed_size, 12716617216);
}

#[test]
fn arcstats_parse_fixture_memory() {
    let stats = arcstats_fixture();
    assert_eq!(stats.memory_all_bytes, 29191372800);
    assert_eq!(stats.memory_free_bytes, 8198266880);
    assert_eq!(stats.memory_available_bytes, 7122022400);
    assert_eq!(stats.arc_meta_used, 1730780232);
}

#[test]
fn freebsd_parse_fixture_hits() {
    let stats = freebsd_fixture();
    assert_eq!(stats.hits, 8019094);
    assert_eq!(stats.iohits, 12844);
    assert_eq!(stats.misses, 80548);
}

#[test]
fn freebsd_parse_fixture_demand() {
    let stats = freebsd_fixture();
    assert_eq!(stats.demand_data_hits, 6040389);
    assert_eq!(stats.demand_data_iohits, 20);
    assert_eq!(stats.demand_data_misses, 61775);
    assert_eq!(stats.demand_metadata_hits, 1970835);
    assert_eq!(stats.demand_metadata_iohits, 476);
    assert_eq!(stats.demand_metadata_misses, 4475);
}

#[test]
fn freebsd_parse_fixture_prefetch() {
    let stats = freebsd_fixture();
    assert_eq!(stats.prefetch_data_hits, 3407);
    assert_eq!(stats.prefetch_data_iohits, 0);
    assert_eq!(stats.prefetch_data_misses, 11565);
    assert_eq!(stats.prefetch_metadata_hits, 4462);
    assert_eq!(stats.prefetch_metadata_iohits, 12348);
    assert_eq!(stats.prefetch_metadata_misses, 2733);
}

#[test]
fn freebsd_parse_fixture_sizing() {
    let stats = freebsd_fixture();
    assert_eq!(stats.size, 1472594864);
    assert_eq!(stats.c, 1520850909);
    assert_eq!(stats.c_min, 132823936);
    assert_eq!(stats.c_max, 3176624128);
}

#[test]
fn freebsd_parse_fixture_breakdown() {
    let stats = freebsd_fixture();
    assert_eq!(stats.data_size, 1248682496);
    assert_eq!(stats.metadata_size, 92718592);
    assert_eq!(stats.mru_size, 65158656);
    assert_eq!(stats.mru_data, 26234880);
    assert_eq!(stats.mru_metadata, 38923776);
    assert_eq!(stats.mfu_size, 1275973632);
    assert_eq!(stats.mfu_data, 1222442496);
    assert_eq!(stats.mfu_metadata, 53531136);
    assert_eq!(stats.anon_size, 268288);
}

#[test]
fn freebsd_parse_fixture_compression() {
    let stats = freebsd_fixture();
    assert_eq!(stats.compressed_size, 1242330624);
    assert_eq!(stats.uncompressed_size, 2752199168);
}

#[test]
fn freebsd_parse_fixture_memory() {
    let stats = freebsd_fixture();
    assert_eq!(stats.memory_all_bytes, 4250365952);
    assert_eq!(stats.memory_free_bytes, 109547520);
    assert_eq!(stats.memory_available_bytes, 21221376);
    assert_eq!(stats.arc_meta_used, 214094256);
}

/// The text without the line of one counter.
fn without(text: &str, name: &str) -> String {
    text.lines()
        .filter(|line| !line.starts_with(name))
        .map(|line| format!("{line}\n"))
        .collect()
}

#[test]
fn every_counter_has_a_name_of_its_own() {
    for i in 0..FIELD_KEYS.len() {
        for j in 0..i {
            assert_ne!(FIELD_KEYS[i], FIELD_KEYS[j]);
        }
    }
}

#[test]
fn missing_counter_is_named() {
    let e = parse(&without(LINUX, "c_max ")).unwrap_err();
    assert!(matches!(
        &e,
        ArcStatsError::NotPopulated { field, listing: Listing::Arcstats } if field == "c_max"
    ));
    assert_eq!(
        e.describe(),
        "missing 'c_max': missing field 'c_max' in arcstats"
    );
    let e = ArcStats::parse(&without(LINUX, "c_max ")).unwrap_err();
    assert!(matches!(
        &e,
        ArcStatsError::Missing { field, listing: Listing::Arcstats } if field == "c_max"
    ));
    assert_eq!(e.describe(), "missing field 'c_max' in arcstats");
}

#[test]
fn first_missing_counter_is_named() {
    let text = without(&without(LINUX, "size "), "iohits ");
    let e = parse(&text).unwrap_err();
    assert_eq!(
        e.describe(),
        "missing 'iohits': missing field 'iohits' in arcstats"
    );
}

#[test]
fn bad_value_is_named() {
    let text = LINUX.replace("8589934592\nc_min", "lots\nc_min");
    let e = parse(&text).unwrap_err();
    assert!(matches!(&e, ArcStatsError::BadValue { name } if name == "c"));
    assert_eq!(
        ArcStats::parse(&text).unwrap_err().describe(),
        "failed to parse value for 'c'"
    );
    assert_eq!(e.describe(), "failed to parse value for 'c'");
}

#[test]
fn values_beyond_64_bits_are_bad() {
    let text = LINUX.replace("101339", "18446744073709551616");
    assert_eq!(
        parse(&text).unwrap_err().describe(),
        "failed to parse value for 'misses'"
    );
    let text = LINUX.replace("101339", "18446744073709551615");
    assert_eq!(parse(&text).unwrap().misses, u64::MAX);
}

#[test]
fn header_and_odd_lines_do_not_count() {
    let text = format!("{LINUX}too few\nfar too many words\nhits 4 7\n");
    assert_eq!(parse(&text).unwrap().hits, 7);
    assert!(parse("hits 4 7\niohits 4 8").is_err());
}

#[test]
fn carriage_returns_and_plus_signs_are_fine() {
    let text = LINUX.replace('\n', "\r\n").replace("11891096", "+11891096");
    assert_eq!(parse(&text).unwrap().hits, 11891096);
}

#[test]
fn unreadable_counters_speak_for_themselves() {
    let e = ArcStatsError::Unreadable {
        message: "failed to read /nowhere".to_string(),
    };
    assert_eq!(e.describe(), "failed to read /nowhere");
}

#[test]
fn sysctl_values_may_have_spaces_around() {
    assert_eq!(parse_value(" 42\n"), Some(42));
    assert_eq!(parse_value("-1"), None);
    assert_eq!(parse_value(""), None);
    assert_eq!(parse_value("+"), None);
    assert_eq!(parse_value("+7"), Some(7));
}

#[test]
fn sysctl_lines_of_other_kinds_do_not_count() {
    let text = format!(
        "{FREEBSD}kern.ostype: FreeBSD\nno colon\nkstat.zfs.misc.arcstats.hits: many\n"
    );
    assert_eq!(parse_sysctl_text(&text).unwrap().hits, 8019094);
    let text = without(FREEBSD, "kstat.zfs.misc.arcstats.hits");
    assert_eq!(
        parse_sysctl_text(&text).unwrap_err().describe(),
        "missing 'hits': missing field 'hits' in sysctl arcstats text"
    );
}

#[test]
fn populate_asks_for_each_counter_in_order() {
    let stats = populate(|name: &str| -> Result<u64, ()> { Ok(name.len() as u64) }).unwrap();
    assert_eq!(stats.hits, 4);
    assert_eq!(stats.memory_available_bytes, 22);
    let e = populate(|name: &str| if name == "size" { Err("gone") } else { Ok(1) }).unwrap_err();
    assert_eq!(e.field, "size");
    assert_eq!(e.cause, "gone");
}
