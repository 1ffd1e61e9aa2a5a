use chrono::{DateTime, TimeZone, Utc};
use paagan::backups::{backup_for_target, host_backup_dir, new_backup_path, select_retained, BaseBackup};
use paagan::time::{parse_duration, parse_target_time, Timestamp};
use paagan::wal::{is_removable_before, parse_lsn, segment_name};

const SEG_16MB: u64 = 16 * 1024 * 1024;

fn ts(t: DateTime<Utc>) -> Timestamp {
    Timestamp { secs: t.timestamp(), nanos: t.timestamp_subsec_nanos() }
}

fn backup(name: &str, taken_at: DateTime<Utc>) -> BaseBackup {
    BaseBackup {
        name: name.to_string(),
        dir: name.to_string(),
        taken_at: ts(taken_at),
        timeline: 1,
        start_lsn: 0,
    }
}

#[test]
fn lsn_to_segment_name() {
    assert_eq!(
        segment_name(1, parse_lsn("0/2000028").unwrap(), SEG_16MB),
        "000000010000000000000002"
    );
    assert_eq!(
        segment_name(1, parse_lsn("0/FF000000").unwrap(), SEG_16MB),
        "0000000100000000000000FF"
    );
    assert_eq!(
        segment_name(2, parse_lsn("21/23000000").unwrap(), SEG_16MB),
        "000000020000002100000023"
    );
    assert_eq!(
        segment_name(1, parse_lsn("1/0").unwrap(), SEG_16MB),
        "000000010000000100000000"
    );
    // 64MB segments: 64 segments per xlogid
    assert_eq!(
        segment_name(1, parse_lsn("1/C000000").unwrap(), 64 * 1024 * 1024),
        "000000010000000100000003"
    );
}

#[test]
fn archive_cleanup_rule() {
    let threshold = "000000010000002100000010";
    assert!(is_removable_before("00000001000000210000000F", threshold));
    assert!(is_removable_before("000000010000000000000002", threshold));
    assert!(is_removable_before(
        "000000010000000000000002.00000028.backup",
        threshold
    ));
    assert!(is_removable_before(
        "00000001000000210000000F.partial",
        threshold
    ));
    // timeline is ignored, like pg_archivecleanup
    assert!(is_removable_before("00000002000000210000000F", threshold));

    assert!(!is_removable_before("000000010000002100000010", threshold));
    assert!(!is_removable_before("000000010000002100000011", threshold));
    assert!(!is_removable_before("00000002.history", threshold));
    assert!(!is_removable_before(".DS_Store", threshold));
    assert!(!is_removable_before(
        "00000001000000210000000F.tmp",
        threshold
    ));
}

#[test]
fn picks_newest_backup_before_target() {
    let t = |h| Utc.with_ymd_and_hms(2026, 9, 1, h, 0, 0).unwrap();
    let backups = vec![backup("a", t(1)), backup("b", t(5)), backup("c", t(9))];
    assert_eq!(backup_for_target(&backups, ts(t(6))).unwrap().name, "b");
    assert_eq!(backup_for_target(&backups, ts(t(5))).unwrap().name, "b");
    assert_eq!(backup_for_target(&backups, ts(t(10))).unwrap().name, "c");
    assert!(backup_for_target(&backups, ts(t(0))).is_none());
}

#[test]
fn retention_keeps_anchor_unless_strict() {
    let d = |day| Utc.with_ymd_and_hms(2026, 9, day, 3, 0, 0).unwrap();
    let backups = || {
        vec![
            backup("d1", d(1)),
            backup("d10", d(10)),
            backup("d14", d(14)),
            backup("d20", d(20)),
        ]
    };
    let names = |v: &[BaseBackup]| v.iter().map(|b| b.name.clone()).collect::<Vec<_>>();
    let cutoff = ts(d(13));

    let (kept, removed) = select_retained(backups(), cutoff, None, false);
    assert_eq!(names(&kept), ["d10", "d14", "d20"]);
    assert_eq!(names(&removed), ["d1"]);

    let (kept, removed) = select_retained(backups(), cutoff, None, true);
    assert_eq!(names(&kept), ["d14", "d20"]);
    assert_eq!(names(&removed), ["d1", "d10"]);

    // everything older than the cutoff: only the anchor and the pinned backup survive
    let (kept, _) = select_retained(backups(), ts(d(25)), Some("d1"), false);
    assert_eq!(names(&kept), ["d1", "d20"]);
    let (kept, _) = select_retained(backups(), ts(d(25)), Some("d20"), true);
    assert_eq!(names(&kept), ["d20"]);
}

#[test]
fn target_time_formats() {
    let expected = Utc.with_ymd_and_hms(2026, 9, 23, 17, 15, 11).unwrap();
    for s in [
        "2026-09-23 17:15:11+00",
        "2026-09-23 17:15:11+00:00",
        "2026-09-23 22:45:11+05:30",
        "2026-09-23T17:15:11Z",
        "2026-09-23 17:15:11",
    ] {
        assert_eq!(parse_target_time(s), Some(ts(expected)), "{}", s);
    }
    assert_eq!(
        parse_target_time("2026-09-23 17:15:11.5+00"),
        Some(ts(expected + chrono::Duration::milliseconds(500)))
    );
    assert_eq!(parse_target_time("yesterday"), None);
}

#[test]
fn durations() {
    assert_eq!(parse_duration("7d").unwrap().seconds, chrono::Duration::days(7).num_seconds());
    assert_eq!(parse_duration("24h").unwrap().seconds, chrono::Duration::hours(24).num_seconds());
    assert_eq!(parse_duration("0h").unwrap().seconds, chrono::Duration::zero().num_seconds());
    assert!(parse_duration("7").is_err());
    assert!(parse_duration("d").is_err());
    assert!(parse_duration("7w").is_err());
}

#[test]
fn backup_path_roundtrip() {
    let now = Utc.with_ymd_and_hms(2026, 9, 23, 17, 15, 11).unwrap();
    let path = new_backup_path(ts(now)).unwrap();
    assert_eq!(path, "/backups/20260923T171511Z");
    assert_eq!(
        host_backup_dir("/i", &path),
        "/i/backups/20260923T171511Z"
    );
}

#[test]
fn retention_keeps_the_recovery_window() {
    let d = |day| Utc.with_ymd_and_hms(2026, 9, day, 3, 0, 0).unwrap();
    let all = vec![backup("d1", d(1)), backup("d10", d(10)), backup("d14", d(14)), backup("d20", d(20))];
    let (kept, _) = select_retained(all.clone(), ts(d(13)), None, false);
    for day in [13, 14, 15, 20, 28] {
        let target = ts(d(day));
        assert_eq!(
            backup_for_target(&kept, target).map(|b| b.name.clone()),
            backup_for_target(&all, target).map(|b| b.name.clone()),
            "day {}",
            day
        );
    }
    // strict retention gives the window up before the first kept backup
    let (strict, _) = select_retained(all.clone(), ts(d(13)), None, true);
    assert!(backup_for_target(&strict, ts(d(13))).is_none());
    assert_eq!(backup_for_target(&all, ts(d(13))).unwrap().name, "d10");
}
