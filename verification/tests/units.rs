//! Amounts of data in words.

use portmanager::units::{fmt_bytes, fmt_rate};

#[test]
fn fmt_bytes_and_rate_are_human_readable() {
    assert_eq!(fmt_bytes(512), "512 B");
    assert_eq!(fmt_bytes(2048), "2.0 KiB");
    assert_eq!(fmt_rate(0.0 as u64), "idle");
    assert_eq!(fmt_rate(1024.0 as u64), "1.0 KiB/s");
}

/// The same in floating point.
fn by_float(n: u64) -> String {
    let units = ["B", "KiB", "MiB", "GiB", "TiB"];
    let mut v = n as f64;
    let mut i = 0;
    while v >= 1024.0 && i < units.len() - 1 {
        v /= 1024.0;
        i += 1;
    }
    if i == 0 {
        format!("{n} B")
    } else {
        format!("{v:.1} {}", units[i])
    }
}

#[test]
fn amounts_agree_with_floating_point() {
    let mut n: u64 = 1;
    for k in 0..64u64 {
        for d in [0u64, 1, 2, 3, 51, 52, 102, 512, 1023, 1025, 4096] {
            let m = n.wrapping_add(d.wrapping_mul(k + 1));
            assert_eq!(fmt_bytes(m), by_float(m), "{m}");
            let m = n.wrapping_sub(d);
            assert_eq!(fmt_bytes(m), by_float(m), "{m}");
        }
        n = n.wrapping_mul(2);
    }
    for m in [
        1023,
        1024,
        1048575,
        1048576,
        1177,
        1280,
        1331,
        (1 << 53) + 1,
        u64::MAX,
        u64::MAX - 1024,
        3 << 38,
        5 << 38,
        (5 << 60) + 1,
    ] {
        assert_eq!(fmt_bytes(m), by_float(m), "{m}");
    }
    assert_eq!(fmt_bytes(1280), "1.2 KiB");
    assert_eq!(fmt_bytes(1048575), "1024.0 KiB");
}
