use paagan::manifest::{parse_manifest_start, ManifestError};
use paagan::wal::{is_removable_before, parse_lsn, segment_name, LsnError};

const SEG_16MB: u64 = 16 * 1024 * 1024;

#[test]
fn manifest_start() {
    let manifest = r#"{"PostgreSQL-Backup-Manifest-Version": 1,
        "WAL-Ranges": [{"Timeline": 1, "Start-LSN": "0/2000028", "End-LSN": "0/2000120"}]}"#;
    assert_eq!(parse_manifest_start(manifest).unwrap(), (1, 0x2000028));
}

#[test]
fn manifest_start_takes_the_first_range() {
    let manifest = r#"{"WAL-Ranges": [
        {"Timeline": 3, "Start-LSN": "21/23000060"},
        {"Timeline": 2, "Start-LSN": "1/0"}]}"#;
    assert_eq!(parse_manifest_start(manifest), Ok((3, 0x21_2300_0060)));
}

#[test]
fn manifest_start_errors() {
    assert_eq!(parse_manifest_start("not json"), Err(ManifestError::InvalidJson));
    assert_eq!(parse_manifest_start("{}"), Err(ManifestError::MissingWalRanges));
    assert_eq!(
        parse_manifest_start(r#"{"WAL-Ranges": []}"#),
        Err(ManifestError::MissingWalRanges)
    );
    assert_eq!(
        parse_manifest_start(r#"{"WAL-Ranges": [{"Start-LSN": "0/1"}]}"#),
        Err(ManifestError::MissingTimeline)
    );
    assert_eq!(
        parse_manifest_start(r#"{"WAL-Ranges": [{"Timeline": -1, "Start-LSN": "0/1"}]}"#),
        Err(ManifestError::MissingTimeline)
    );
    assert_eq!(
        parse_manifest_start(r#"{"WAL-Ranges": [{"Timeline": 1}]}"#),
        Err(ManifestError::MissingStartLsn)
    );
    assert_eq!(
        parse_manifest_start(r#"{"WAL-Ranges": [{"Timeline": 1, "Start-LSN": 5}]}"#),
        Err(ManifestError::MissingStartLsn)
    );
    assert_eq!(
        parse_manifest_start(r#"{"WAL-Ranges": [{"Timeline": 1, "Start-LSN": "02000028"}]}"#),
        Err(ManifestError::InvalidLsn(LsnError::MissingSeparator))
    );
}

#[test]
fn manifest_timeline_keeps_low_bits() {
    let manifest = r#"{"WAL-Ranges": [{"Timeline": 4294967297, "Start-LSN": "0/10"}]}"#;
    assert_eq!(parse_manifest_start(manifest), Ok((1, 0x10)));
}

#[test]
fn lsn_parsing_matches_from_str_radix() {
    for (hi, lo) in [("0", "2000028"), ("21", "23000000"), ("ff", "FFFFFFFF"), ("+1", "0")] {
        let text = format!("{}/{}", hi, lo);
        let expected = (u64::from_str_radix(hi, 16).unwrap() << 32) | u64::from_str_radix(lo, 16).unwrap();
        assert_eq!(parse_lsn(&text), Ok(expected), "{}", text);
    }
}

#[test]
fn lsn_errors() {
    assert_eq!(parse_lsn("02000028"), Err(LsnError::MissingSeparator));
    assert_eq!(parse_lsn(""), Err(LsnError::MissingSeparator));
    assert_eq!(parse_lsn("/1"), Err(LsnError::InvalidNumber));
    assert_eq!(parse_lsn("1/"), Err(LsnError::InvalidNumber));
    assert_eq!(parse_lsn("G/1"), Err(LsnError::InvalidNumber));
    assert_eq!(parse_lsn("1/2/3"), Err(LsnError::InvalidNumber));
    assert_eq!(parse_lsn("-1/0"), Err(LsnError::InvalidNumber));
    assert_eq!(parse_lsn("0/10000000000000000"), Err(LsnError::InvalidNumber));
}

#[test]
fn lsn_high_half_shifts_out() {
    // The high half is shifted by 32 bits; what does not fit is lost.
    assert_eq!(parse_lsn("100000001/0"), Ok(0x1_0000_0000));
}

#[test]
fn segment_names_for_other_sizes() {
    // 1MB segments: 4096 per xlogid
    assert_eq!(segment_name(1, 0x1_0030_0000, 1024 * 1024), "000000010000000100000003");
    // 4GB segments: one per xlogid
    assert_eq!(segment_name(7, 0x5_1234_5678, 0x1_0000_0000), "000000070000000500000000");
    assert_eq!(segment_name(0xABCDEF01, 0, SEG_16MB), "ABCDEF010000000000000000");
}

#[test]
fn timeline_is_ignored_by_cleanup() {
    let threshold = "000000030000000500000020";
    for name in ["00000001000000050000001F", "FFFFFFFF000000050000001F", "00000009000000050000001F.partial"] {
        assert!(is_removable_before(name, threshold), "{}", name);
    }
    for name in ["000000010000000500000020", "FFFFFFFF000000050000002A"] {
        assert!(!is_removable_before(name, threshold), "{}", name);
    }
}

#[test]
fn threshold_segment_and_history_kept() {
    let threshold = "000000010000002100000010";
    assert!(!is_removable_before(threshold, threshold));
    assert!(!is_removable_before("00000003.history", threshold));
    assert!(!is_removable_before("00000001.history", threshold));
}

#[test]
fn cleanup_needs_hex_names() {
    let threshold = "000000010000002100000010";
    assert!(!is_removable_before("0000000G000000210000000F", threshold));
    assert!(!is_removable_before("00000001000000210000000", threshold));
    assert!(is_removable_before("00000001000000210000000f", threshold));
    assert!(is_removable_before("00000001000000210000000F.anything.backup", threshold));
    assert!(!is_removable_before("00000001000000210000000F.backup.gz", threshold));
}

#[test]
fn segment_names_order_as_segment_numbers() {
    let lsns = [0u64, 1, 0xFF_FFFF, 0x100_0000, 0x2000028, 0xFFFF_FFFF, 0x1_0000_0000, 0x21_2300_0000, u64::MAX];
    for wss in [SEG_16MB, 1024 * 1024, 0x1_0000_0000] {
        for &a in &lsns {
            for &b in &lsns {
                let na = segment_name(1, a, wss);
                let nb = segment_name(7, b, wss);
                assert_eq!(na[8..24] < nb[8..24], a / wss < b / wss, "{:x} {:x} {}", a, b, wss);
                assert_eq!(na[8..24] == nb[8..24], a / wss == b / wss, "{:x} {:x} {}", a, b, wss);
            }
        }
    }
}

#[test]
fn names_split_inside_a_character_are_kept() {
    let threshold = "000000010000002100000010";
    assert!(!is_removable_before("00000001000000210000000\u{e9}", threshold));
    assert!(!is_removable_before("0000000100000021000000\u{e9}F", threshold));
    assert!(!is_removable_before("00000001000000210000000F\u{e9}", threshold));
    assert!(!is_removable_before("\u{e9}\u{e9}\u{e9}\u{e9}\u{e9}\u{e9}\u{e9}\u{e9}\u{e9}\u{e9}\u{e9}\u{e9}", threshold));
}
