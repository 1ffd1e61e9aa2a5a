use paagan::archive::{archive_threshold, files_size, select_archive_files, ArchiveFile};
use paagan::backups::BaseBackup;
use paagan::time::Timestamp;

const SEG_16MB: u64 = 16 * 1024 * 1024;

fn file(name: &str, size: u64) -> ArchiveFile {
    ArchiveFile { name: name.to_string(), size }
}

fn backup(name: &str, timeline: u32, start_lsn: u64) -> BaseBackup {
    BaseBackup {
        name: name.to_string(),
        dir: format!("/i/backups/{}", name),
        taken_at: Timestamp { secs: 0, nanos: 0 },
        timeline,
        start_lsn,
    }
}

#[test]
fn selects_old_wal_files_in_name_order() {
    let files = vec![
        file("000000010000000000000005", 16),
        file("00000002.history", 1),
        file("000000010000000000000003", 16),
        file("000000010000000000000003.00000028.backup", 2),
        file("000000010000000000000007", 16),
        file("000000010000000000000004.partial", 8),
        file("README", 3),
    ];
    let picked = select_archive_files(files, "000000010000000000000005");
    let names: Vec<&str> = picked.iter().map(|f| f.name.as_str()).collect();
    assert_eq!(
        names,
        [
            "000000010000000000000003",
            "000000010000000000000003.00000028.backup",
            "000000010000000000000004.partial",
        ]
    );
    assert_eq!(files_size(&picked), 26);
}

#[test]
fn equal_names_order_by_size() {
    let files = vec![file("000000010000000000000001", 9), file("000000010000000000000001", 3)];
    let picked = select_archive_files(files, "000000010000000000000002");
    assert_eq!(picked.iter().map(|f| f.size).collect::<Vec<_>>(), [3, 9]);
}

#[test]
fn nothing_selected_before_the_first_segment() {
    let files = vec![file("000000010000000000000001", 9)];
    assert!(select_archive_files(files, "000000010000000000000001").is_empty());
    assert_eq!(files_size(&Vec::new()), 0);
}

#[test]
fn threshold_is_the_oldest_start_segment() {
    let kept = vec![backup("b", 1, 0x0500_0028), backup("a", 1, 0x0300_0000), backup("c", 2, 0x0400_0000)];
    assert_eq!(archive_threshold(&kept, SEG_16MB, None).unwrap(), "000000010000000000000003");
}

#[test]
fn threshold_ignores_timeline_and_keeps_the_first_of_equals() {
    let kept = vec![backup("x", 2, 0x0300_0000), backup("y", 1, 0x0300_0010)];
    assert_eq!(archive_threshold(&kept, SEG_16MB, None).unwrap(), "000000020000000000000003");
}

#[test]
fn pending_segment_competes() {
    let kept = vec![backup("b", 1, 0x0500_0028)];
    assert_eq!(
        archive_threshold(&kept, SEG_16MB, Some("000000010000000000000004".to_string())).unwrap(),
        "000000010000000000000004"
    );
    assert_eq!(
        archive_threshold(&kept, SEG_16MB, Some("000000010000000000000009".to_string())).unwrap(),
        "000000010000000000000005"
    );
    assert_eq!(
        archive_threshold(&Vec::new(), SEG_16MB, Some("000000010000000000000009".to_string())).unwrap(),
        "000000010000000000000009"
    );
}

#[test]
fn no_anchor_without_backups() {
    assert!(archive_threshold(&Vec::new(), SEG_16MB, None).is_none());
}

#[test]
fn wal_after_a_kept_backup_survives() {
    let kept = vec![backup("a", 1, 0x21_2300_0028), backup("b", 1, 0x21_2500_0000)];
    let threshold = archive_threshold(&kept, SEG_16MB, None).unwrap();
    for lsn in [0x21_2300_0028u64, 0x21_23FF_FFFF, 0x21_2400_0000, 0x22_0000_0000] {
        for timeline in [1u32, 2, 9] {
            let name = paagan::wal::segment_name(timeline, lsn, SEG_16MB);
            assert!(!paagan::wal::is_removable_before(&name, &threshold), "{}", name);
        }
    }
    let older = paagan::wal::segment_name(1, 0x21_22FF_FFFF, SEG_16MB);
    assert!(paagan::wal::is_removable_before(&older, &threshold));
}

#[test]
fn non_ascii_names_are_kept() {
    let files = vec![
        file("00000001000000000000000\u{e9}", 1),
        file("000000010000000000000003", 16),
        file("00000001000000000000000\u{e9}.partial", 2),
        file("h\u{e9}llo", 4),
    ];
    let picked = select_archive_files(files, "000000010000000000000005");
    assert_eq!(picked.iter().map(|f| f.name.as_str()).collect::<Vec<_>>(), ["000000010000000000000003"]);
}
