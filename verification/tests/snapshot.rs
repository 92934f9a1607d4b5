use macbinbundler::error::BundleError;
use macbinbundler::snapshot::{read_output, LinkStatus, PathStatus, Query, Snapshot, Table};

#[test]
fn empty_table_knows_nothing() {
    let t: Table<u32> = Table::new();
    assert_eq!(t.get("/a"), None);
    assert_eq!(t.get(""), None);
    assert!(t.entries.is_empty());
}

#[test]
fn table_gives_the_last_record_of_a_path() {
    let mut t: Table<u32> = Table::new();
    t.record("/a".to_string(), 1);
    t.record("/b".to_string(), 2);
    assert_eq!(t.get("/a"), Some(&1));
    t.record("/a".to_string(), 3);
    assert_eq!(t.get("/a"), Some(&3));
    assert_eq!(t.get("/b"), Some(&2));
    assert_eq!(t.get("/A"), None);
    assert_eq!(t.get("/a/"), None);
    assert_eq!(t.entries.len(), 3);
}

#[test]
fn path_state_is_read_from_the_snapshot() {
    let mut s = Snapshot::new();
    s.paths.record("/f".to_string(), PathStatus { exists: true, is_file: true, link: LinkStatus::Plain });
    s.paths.record("/d".to_string(), PathStatus { exists: true, is_file: false, link: LinkStatus::Plain });
    s.paths.record("/n".to_string(), PathStatus { exists: false, is_file: false, link: LinkStatus::Plain });
    s.paths.record(
        "/l".to_string(),
        PathStatus { exists: true, is_file: true, link: LinkStatus::Points("/f".to_string()) },
    );
    assert_eq!(s.path_exists("/f"), Ok(true));
    assert_eq!(s.path_exists("/d"), Ok(true));
    assert_eq!(s.path_exists("/n"), Ok(false));
    assert_eq!(s.path_is_file("/f"), Ok(true));
    assert_eq!(s.path_is_file("/d"), Ok(false));
    assert_eq!(s.path_is_file("/n"), Ok(false));
    assert_eq!(s.path_is_file("/l"), Ok(true));
    assert_eq!(s.path_status("/l").unwrap().link, LinkStatus::Points("/f".to_string()));
    assert_eq!(s.path_exists("/x"), Err(BundleError::Unobserved(Query::Path("/x".to_string()))));
    assert_eq!(s.path_is_file("/x"), Err(BundleError::Unobserved(Query::Path("/x".to_string()))));
    assert_eq!(s.path_status("/x"), Err(BundleError::Unobserved(Query::Path("/x".to_string()))));
}

#[test]
fn file_that_does_not_exist_is_no_file() {
    let mut s = Snapshot::new();
    s.paths.record("/odd".to_string(), PathStatus { exists: false, is_file: true, link: LinkStatus::Plain });
    assert_eq!(s.path_is_file("/odd"), Ok(false));
}

#[test]
fn output_is_text_failure_or_question() {
    let mut t: Table<Option<String>> = Table::new();
    t.record("/a".to_string(), Some("text".to_string()));
    t.record("/b".to_string(), None);
    assert_eq!(read_output(&t, "/a", Query::Id("/a".to_string())), Ok("text".to_string()));
    assert_eq!(read_output(&t, "/b", Query::Id("/b".to_string())),
        Err(BundleError::ToolsetInvocation("/b".to_string())));
    assert_eq!(read_output(&t, "/c", Query::FileType("/c".to_string())),
        Err(BundleError::Unobserved(Query::FileType("/c".to_string()))));
}
