use paagan::paths::{join_path, paths_equal, trim_start_matches_str};
use std::path::{Path, PathBuf};

const SAMPLES: [&str; 16] = [
    "", "/", "a", "/a", "a/", "/a/b", "a//b", "./a", ".", "..", "a/./b", "a/../b", "/a/b/",
    "//a", "./", "a/.",
];

#[test]
fn join_matches_pathbuf_push() {
    for base in SAMPLES {
        for part in SAMPLES {
            let mut expected = PathBuf::from(base);
            expected.push(part);
            assert_eq!(
                join_path(base, part),
                expected.to_string_lossy(),
                "{:?} + {:?}",
                base,
                part
            );
        }
    }
}

#[test]
fn join_examples() {
    assert_eq!(join_path("/home/u", ".paagan"), "/home/u/.paagan");
    assert_eq!(join_path("/home/u/", ".paagan"), "/home/u/.paagan");
    assert_eq!(join_path("/i", "/abs"), "/abs");
    assert_eq!(join_path("", "x"), "x");
}

#[test]
fn path_equality_matches_std() {
    for a in SAMPLES {
        for b in SAMPLES {
            assert_eq!(paths_equal(a, b), Path::new(a) == Path::new(b), "{:?} == {:?}", a, b);
        }
    }
}

#[test]
fn path_equality_examples() {
    assert!(paths_equal("/i/backups/x", "/i//backups/./x/"));
    assert!(!paths_equal("/i/backups/x", "i/backups/x"));
    assert!(!paths_equal("a/../b", "b"));
    assert!(paths_equal("./a", "./a/"));
    assert!(!paths_equal("./a", "a"));
}

#[test]
fn trim_start_matches_std() {
    for s in ["/backups/x", "/backups//backups/x", "/backups/backups/x", "x", "", "/backups/"] {
        assert_eq!(trim_start_matches_str(s, "/backups/"), s.trim_start_matches("/backups/"), "{:?}", s);
    }
    assert_eq!(trim_start_matches_str("aaab", "a"), "b");
    assert_eq!(trim_start_matches_str("abc", ""), "abc");
}
