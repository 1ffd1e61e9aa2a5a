use paagan::backups::human_bytes;

/// The text that floating-point formatting gives for a byte count.
fn float_reference(bytes: u64) -> String {
    const UNITS: [&str; 5] = ["B", "KB", "MB", "GB", "TB"];
    let mut value = bytes as f64;
    let mut unit = 0;
    while value >= 1024.0 && unit < UNITS.len() - 1 {
        value /= 1024.0;
        unit += 1;
    }
    if unit == 0 {
        format!("{} B", bytes)
    } else {
        format!("{:.1} {}", value, UNITS[unit])
    }
}

#[test]
fn human_bytes_small_counts_are_exact() {
    assert_eq!(human_bytes(0), "0 B");
    assert_eq!(human_bytes(512), "512 B");
    assert_eq!(human_bytes(1023), "1023 B");
}

#[test]
fn human_bytes_units() {
    assert_eq!(human_bytes(1024), "1.0 KB");
    assert_eq!(human_bytes(1536), "1.5 KB");
    assert_eq!(human_bytes(16 * 1024 * 1024), "16.0 MB");
    assert_eq!(human_bytes(3 * 1024 * 1024 * 1024), "3.0 GB");
    assert_eq!(human_bytes(5 * 1024u64.pow(4)), "5.0 TB");
    assert_eq!(human_bytes(2048 * 1024u64.pow(4)), "2048.0 TB");
}

#[test]
fn human_bytes_ties_round_to_even() {
    // 1280 B is exactly 1.25 KB and 1.75 KB is 1792 B
    assert_eq!(human_bytes(1280), float_reference(1280));
    assert_eq!(human_bytes(1792), float_reference(1792));
    assert_eq!(human_bytes(1280), "1.2 KB");
    assert_eq!(human_bytes(1792), "1.8 KB");
}

#[test]
fn human_bytes_matches_float_formatting() {
    let mut samples: Vec<u64> = vec![u64::MAX, u64::MAX - 1, 1 << 53, (1 << 53) + 1, (1 << 53) + 3, (1 << 60) + 12345];
    let mut x: u64 = 1;
    while x < u64::MAX / 3 {
        samples.push(x);
        samples.push(x + 1);
        samples.push(x.wrapping_mul(3) / 2);
        x = x * 3 + 7;
    }
    for k in 0..5u32 {
        let base = 1024u64.pow(k);
        for t in 0..2000u64 {
            samples.push(base.saturating_mul(t) / 20 + t);
            samples.push(base / 20 * t);
        }
    }
    for b in samples {
        assert_eq!(human_bytes(b), float_reference(b), "{}", b);
    }
}
