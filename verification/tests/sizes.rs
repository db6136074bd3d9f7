use oxidedisk::sizes::human_bytes;

/// The byte count formatted the floating-point way: divide by 1024 while the
/// value is at least 1024 (up to PB), one decimal.
fn float_format(bytes: u64) -> String {
    const UNITS: [&str; 6] = ["B", "KB", "MB", "GB", "TB", "PB"];
    let mut size = bytes as f64;
    let mut unit = 0;
    while size >= 1024.0 && unit < UNITS.len() - 1 {
        size /= 1024.0;
        unit += 1;
    }
    if unit == 0 {
        format!("{} {}", bytes, UNITS[0])
    } else {
        format!("{:.1} {}", size, UNITS[unit])
    }
}

#[test]
fn human_bytes_exact_values() {
    assert_eq!(human_bytes(0), "0 B");
    assert_eq!(human_bytes(1023), "1023 B");
    assert_eq!(human_bytes(1024), "1.0 KB");
    assert_eq!(human_bytes(1536), "1.5 KB");
    assert_eq!(human_bytes(1_503_238_553), "1.4 GB");
    assert_eq!(human_bytes(1024 * 1024), "1.0 MB");
    assert_eq!(human_bytes(1u64 << 50), "1.0 PB");
    assert_eq!(human_bytes(u64::MAX), "16384.0 PB");
}

#[test]
fn human_bytes_ties_round_to_even() {
    // 1.25 KB and 1.75 KB are exact binary values: ties go to the even digit.
    assert_eq!(human_bytes(1280), "1.2 KB");
    assert_eq!(human_bytes(1792), "1.8 KB");
    assert_eq!(human_bytes(1280), float_format(1280));
    assert_eq!(human_bytes(1792), float_format(1792));
}

#[test]
fn human_bytes_agrees_with_float_formatting() {
    let mut samples: Vec<u64> = Vec::new();
    for k in 0..64u32 {
        let p = 1u64 << k;
        for d in [0u64, 1, 2, 3, 51, 52, 100, 1000] {
            samples.push(p.wrapping_add(d));
            samples.push(p.wrapping_sub(d));
        }
    }
    let mut x: u64 = 0x9E37_79B9_7F4A_7C15;
    for _ in 0..20000 {
        x ^= x << 13;
        x ^= x >> 7;
        x ^= x << 17;
        samples.push(x >> (x % 64));
    }
    for b in 0..5000u64 {
        samples.push(b * 103);
    }
    for b in samples {
        assert_eq!(human_bytes(b), float_format(b), "bytes = {}", b);
    }
}
