use larql_cache::path::{join, parent};
use std::path::Path;

const PATHS: [&str; 24] = [
    "", "/", "//", ".", "..", "/.", "./", "a", "/a", "a/", "a/b", "/a/b", "a//b", "a/b//", "a/./b",
    "./a", "a/.", "a/..", "//a", "/a/./", "a/.b", "a/b.", "/hub/models--x--y/snapshots/sha", "a/./.",
];

#[test]
fn parents_are_those_of_std() {
    for p in PATHS {
        let want = Path::new(p).parent().map(|q| q.to_str().unwrap());
        assert_eq!(parent(p), want, "{}", p);
    }
}

#[test]
fn joins_are_those_of_std() {
    for p in PATHS {
        for q in PATHS {
            let want = Path::new(p).join(q);
            assert_eq!(join(p, q), want.to_str().unwrap(), "{} {}", p, q);
        }
    }
}

#[test]
fn parent_undoes_join() {
    let dir = "/cache/hub/models--a--b";
    let file = join(dir, "snapshots");
    assert_eq!(file, "/cache/hub/models--a--b/snapshots");
    assert_eq!(parent(&file), Some(dir));
    assert_ne!(join(dir, "x"), join(dir, "y"));
}
