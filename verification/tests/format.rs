//! Byte counts in binary units.
use zftop::format::format_bytes;

/// The same by floating-point division.
fn by_division(bytes: u64) -> String {
    let b = bytes as f64;
    let kib = 1024.0;
    if b >= kib * kib * kib * kib {
        format!("{:.1} TiB", b / (kib * kib * kib * kib))
    } else if b >= kib * kib * kib {
        format!("{:.1} GiB", b / (kib * kib * kib))
    } else if b >= kib * kib {
        format!("{:.1} MiB", b / (kib * kib))
    } else if b >= kib {
        format!("{:.1} KiB", b / kib)
    } else {
        format!("{bytes} B")
    }
}

#[test]
fn halves_go_to_the_even_tenth() {
    assert_eq!(format_bytes(1280), "1.2 KiB");
    assert_eq!(format_bytes(1792), "1.8 KiB");
    assert_eq!(format_bytes(1331), "1.3 KiB");
}

#[test]
fn unit_changes_at_its_size_only() {
    assert_eq!(format_bytes(1023), "1023 B");
    assert_eq!(format_bytes(1048575), "1024.0 KiB");
    assert_eq!(format_bytes(1099511627775), "1024.0 GiB");
    assert_eq!(format_bytes(u64::MAX), "16777216.0 TiB");
}

#[test]
fn agrees_with_floating_point_on_small_counts() {
    for bytes in 0..70_000u64 {
        assert_eq!(format_bytes(bytes), by_division(bytes), "{bytes}");
    }
}

#[test]
fn agrees_with_floating_point_around_powers_of_two() {
    for k in 0..64u32 {
        for d in -70i128..70 {
            let n = (1i128 << k) + d;
            if n >= 0 && n <= u64::MAX as i128 {
                let bytes = n as u64;
                assert_eq!(format_bytes(bytes), by_division(bytes), "{bytes}");
            }
        }
    }
}

#[test]
fn agrees_with_floating_point_around_rounding_points() {
    // Halves of a tenth of a unit lie at odd multiples of a twentieth of it.
    for unit in [1024u64, 1 << 20, 1 << 30, 1 << 40] {
        for tenth in [10u128, 11, 12, 19, 99, 100, 101, 4095, 81920, 81925, 1677721, 16777215] {
            let half = (2 * tenth + 1) * unit as u128 / 20;
            for d in -5000i128..5000 {
                let n = half as i128 + d;
                if n >= 0 && n <= u64::MAX as i128 {
                    let bytes = n as u64;
                    assert_eq!(format_bytes(bytes), by_division(bytes), "{bytes}");
                }
            }
        }
    }
}

#[test]
fn agrees_with_floating_point_on_scattered_counts() {
    let mut x: u64 = 88172645463325252;
    for _ in 0..200_000 {
        x ^= x << 13;
        x ^= x >> 7;
        x ^= x << 17;
        let bytes = x >> (x % 64);
        assert_eq!(format_bytes(bytes), by_division(bytes), "{bytes}");
    }
}

#[test]
fn plain_bytes_read_back() {
    for bytes in 0..1024u64 {
        let text = format_bytes(bytes);
        assert_eq!(text.strip_suffix(" B").unwrap().parse::<u64>(), Ok(bytes));
    }
}
