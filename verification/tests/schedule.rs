use paagan::commands::schedule::job_id;

#[test]
fn job_ids() {
    assert_eq!(job_id(None).unwrap(), "paagan_compact_all");
    assert_eq!(job_id(Some("chatdb")).unwrap(), "paagan-compact-chatdb");
    assert_eq!(
        job_id(Some("slop_store")).unwrap(),
        "paagan-compact-slop_store"
    );
    assert_ne!(job_id(Some("all")).unwrap(), job_id(None).unwrap());
    assert!(job_id(Some("my.db")).is_err());
}
