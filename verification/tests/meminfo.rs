//! Reading the state of memory on Linux.
use zftop::meminfo::linux::{LinuxMemSource, MemInfo};
use zftop::meminfo::{checked_total, Color, RamSegment};

const MEMINFO: &str = "MemTotal:       32768000 kB
MemFree:         4096000 kB
MemAvailable:   18432000 kB
Buffers:          512000 kB
Cached:          2048000 kB
SwapCached:            0 kB
Active:          9000000 kB
SReclaimable:    1024000 kB
HugePages_Total:       0
";

fn fixture() -> MemInfo {
    MemInfo::parse(MEMINFO).unwrap()
}

#[test]
fn parse_fixture_total() {
    let m = fixture();
    assert_eq!(m.total, 32768000);
}

#[test]
fn parse_fixture_free() {
    let m = fixture();
    assert_eq!(m.free, 4096000);
}

#[test]
fn parse_fixture_available() {
    let m = fixture();
    assert_eq!(m.available, 18432000);
}

#[test]
fn parse_fixture_buffers_cached() {
    let m = fixture();
    assert_eq!(m.buffers, 512000);
    assert_eq!(m.cached, 2048000);
}

#[test]
fn parse_fixture_sreclaimable() {
    let m = fixture();
    assert_eq!(m.s_reclaimable, 1024000);
}

#[test]
fn buf_cache_includes_sreclaimable() {
    let m = fixture();
    assert_eq!(m.buf_cache(), 512_000 + 2_048_000 + 1_024_000);
}

#[test]
fn app_used_subtracts_arc() {
    let m = fixture();
    let arc_bytes: u64 = 12_345_678_912;
    let arc_kb = arc_bytes / 1024;
    let expected = 32_768_000 - 4_096_000 - 3_584_000 - arc_kb;
    assert_eq!(m.app_used(arc_bytes), expected);
}

#[test]
fn linux_mem_source_snapshot_segments() {
    let src = LinuxMemSource::new(Some(MEMINFO));
    let arc_bytes: u64 = 8 * 1024 * 1024 * 1024; // 8 GiB
    let snap = src.snapshot(arc_bytes).unwrap();
    assert_eq!(snap.total_bytes, 32_768_000 * 1024);
    assert_eq!(snap.segments.len(), 3);
    assert_eq!(snap.segments[0].label, "App");
    assert_eq!(snap.segments[1].label, "ARC");
    assert_eq!(snap.segments[1].bytes, arc_bytes);
    assert_eq!(snap.segments[2].label, "Buf/Cache");
    // Buf/Cache = (buffers + cached + s_reclaimable) * 1024
    assert_eq!(snap.segments[2].bytes, (512_000 + 2_048_000 + 1_024_000) * 1024);
}

#[test]
fn missing_amount_is_named() {
    let text = MEMINFO.replace("MemAvailable", "MemElsewhere");
    assert_eq!(MemInfo::parse(&text).unwrap_err().field, "MemAvailable");
    assert_eq!(MemInfo::parse("").unwrap_err().field, "MemTotal");
    assert_eq!(
        MemInfo::parse("").unwrap_err().describe(),
        "missing field 'MemTotal' in meminfo"
    );
}

#[test]
fn reclaimable_memory_may_be_missing() {
    let text = MEMINFO.replace("SReclaimable", "SUnreclaim");
    assert_eq!(MemInfo::parse(&text).unwrap().s_reclaimable, 0);
}

#[test]
fn unreadable_amount_counts_as_none() {
    let text = MEMINFO.replace("4096000 kB", "plenty");
    assert_eq!(MemInfo::parse(&text).unwrap().free, 0);
}

#[test]
fn applications_never_use_less_than_nothing() {
    let m = fixture();
    assert_eq!(m.app_used(u64::MAX), 0);
}

#[test]
fn bar_covers_all_memory() {
    let m = fixture();
    let arc: u64 = 8 * 1024 * 1024 * 1024;
    assert_eq!(
        m.app_used(arc) + arc / 1024 + m.buf_cache() + m.free,
        m.total
    );
}

#[test]
fn bar_keeps_the_given_segments() {
    let src = LinuxMemSource::new(Some(MEMINFO));
    let given = [
        RamSegment { label: "ARC", color: Color::Indexed(171), bytes: 4096 },
        RamSegment { label: "ARC ovh", color: Color::Magenta, bytes: 1024 },
    ];
    let snap = src.compose(&given).unwrap();
    let labels: Vec<&str> = snap.segments.iter().map(|s| s.label).collect();
    assert_eq!(labels, vec!["App", "ARC", "ARC ovh", "Buf/Cache"]);
    assert_eq!(snap.segments[0].color, Color::Green);
    assert_eq!(snap.segments[0].bytes, (32_768_000 - 4_096_000 - 3_584_000 - 5) * 1024);
    assert_eq!(snap.segments[1].bytes, 4096);
    assert_eq!(snap.segments[2].color, Color::Magenta);
    assert_eq!(snap.segments[3].color, Color::Yellow);
}

#[test]
fn no_bar_without_memory() {
    assert!(LinuxMemSource::new(None).snapshot(1).is_none());
    assert!(LinuxMemSource::new(Some("MemTotal: 1 kB")).snapshot(1).is_none());
    let empty = MEMINFO.replace("32768000", "0");
    assert!(LinuxMemSource::new(Some(&empty)).snapshot(1).is_none());
}

#[test]
fn failed_refresh_keeps_the_last_state() {
    let mut src = LinuxMemSource::new(Some(MEMINFO));
    assert_eq!(src.refresh("nothing here").unwrap_err().field, "MemTotal");
    assert_eq!(src.last.unwrap().total, 32768000);
    let more = MEMINFO.replace("32768000", "65536000");
    assert!(src.refresh(&more).is_ok());
    assert_eq!(src.last.unwrap().total, 65536000);
}

#[test]
fn amounts_fit_up_to_64_bits() {
    let mut m = fixture();
    assert!(m.amounts_fit());
    m.total = u64::MAX / 1024;
    assert!(m.amounts_fit());
    m.total = u64::MAX / 1024 + 1;
    assert!(!m.amounts_fit());
    m.total = 1;
    m.cached = u64::MAX;
    assert!(!m.amounts_fit());
}

#[test]
fn totals_of_segments() {
    let seg = |bytes: u64| RamSegment { label: "x", color: Color::Green, bytes };
    assert_eq!(checked_total(&[]), Some(0));
    assert_eq!(checked_total(&[seg(1), seg(2)]), Some(3));
    assert_eq!(checked_total(&[seg(u64::MAX), seg(1)]), None);
}

#[test]
fn copies_of_a_bar_hold_the_same() {
    let snap = LinuxMemSource::new(Some(MEMINFO)).snapshot(4096).unwrap();
    let copy = snap.clone();
    assert_eq!(copy.total_bytes, snap.total_bytes);
    let bytes = |s: &zftop::meminfo::MemSnapshot| -> Vec<u64> {
        s.segments.iter().map(|seg| seg.bytes).collect()
    };
    assert_eq!(bytes(&copy), bytes(&snap));
}

#[test]
fn no_bar_of_no_memory_whatever_the_other_amounts() {
    let huge = MEMINFO
        .replace("32768000", "0")
        .replace("2048000", "18446744073709551615");
    let src = LinuxMemSource::new(Some(&huge));
    assert!(src.snapshot(u64::MAX).is_none());
    let segment = RamSegment { label: "ARC", color: Color::Magenta, bytes: u64::MAX };
    assert!(src.compose(&[segment, segment]).is_none());
    assert!(LinuxMemSource::new(None).compose(&[segment, segment]).is_none());
}
