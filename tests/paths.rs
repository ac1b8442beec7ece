use cros_p9::error::ErrorKind;
use cros_p9::path::{join_path, HostPath};

#[test]
fn path_joins() {
    let root = HostPath::parse("/a/b/c");
    let path = HostPath::parse("/a/b/c/d/e/f");

    assert_eq!(
        join_path(path.clone(), "nested", &root).expect("normal"),
        HostPath::parse("/a/b/c/d/e/f/nested")
    );

    let p1 = join_path(path.clone(), "..", &root).expect("parent 1");
    assert_eq!(p1, HostPath::parse("/a/b/c/d/e/"));

    let p2 = join_path(p1, "..", &root).expect("parent 2");
    assert_eq!(p2, HostPath::parse("/a/b/c/d/"));

    let p3 = join_path(p2, "..", &root).expect("parent 3");
    assert_eq!(p3, HostPath::parse("/a/b/c/"));

    let p4 = join_path(p3, "..", &root).expect("parent of root");
    assert_eq!(p4, HostPath::parse("/a/b/c/"));
}

#[test]
fn invalid_joins() {
    let root = HostPath::parse("/a");
    let path = HostPath::parse("/a/b");

    join_path(path.clone(), ".", &root).expect_err("current directory");
    join_path(path.clone(), "c/d/e", &root).expect_err("too many components");
    join_path(path.clone(), "/c/d/e", &root).expect_err("absolute path");
}

#[test]
fn invalid_joins_are_invalid_input() {
    let root = HostPath::parse("/a");
    let path = HostPath::parse("/a/b");
    for name in [".", "", "c/", "/c", "c/d/e"] {
        let err = join_path(path.clone(), name, &root).expect_err("bad segment");
        assert_eq!(err.kind(), ErrorKind::InvalidInput);
    }
}

#[test]
fn parent_of_root_is_root_repeatedly() {
    let root = HostPath::parse("/srv/export");
    let mut p = root.clone();
    for _ in 0..5 {
        p = join_path(p, "..", &root).expect("parent of root");
        assert_eq!(p, root);
    }
}

#[test]
fn walk_never_leaves_root() {
    let root = HostPath::parse("/srv/export");
    let mut p = root.clone();
    for name in ["a", "..", "..", "..", "b", "c", "..", "..", ".."] {
        p = join_path(p, name, &root).expect("valid step");
        assert!(p.depth() >= root.depth());
    }
    assert_eq!(p, root);
}

#[test]
fn dot_dot_below_root_goes_up() {
    let root = HostPath::parse("/r");
    let p = join_path(HostPath::parse("/r/x/y"), "..", &root).expect("parent");
    assert_eq!(p.to_text(), "/r/x");
}

#[test]
fn parse_drops_empty_and_dot_components() {
    assert_eq!(HostPath::parse("//a/./b//"), HostPath::parse("/a/b"));
    assert_eq!(HostPath::parse("/a/b").depth(), 2);
    assert_eq!(HostPath::parse("/").to_text(), "/");
}
