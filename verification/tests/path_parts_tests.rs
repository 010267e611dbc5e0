use o_::path::{parent, push, strip_prefix};
use std::path::Path;

#[test]
fn push_follows_path_join() {
    for (base, part) in [("/a", "b"), ("/a/", "b"), ("", "b"), ("/a", "/c"), ("a", ""), ("a/b", "c/d")] {
        let expected = Path::new(base).join(part).to_string_lossy().to_string();
        assert_eq!(push(base, part), expected, "inputs {:?} {:?}", base, part);
    }
}

#[test]
fn parent_follows_path_parent() {
    for p in ["/a/b", "/a/b/", "/", "a", "", ".", "./a", "a/..", "/a/./b/."] {
        let expected = Path::new(p).parent().map(|d| d.to_string_lossy().to_string());
        assert_eq!(parent(p), expected, "input {:?}", p);
    }
}

#[test]
fn strip_prefix_follows_path_strip_prefix() {
    for (base, p) in [("/p", "/p/a/b"), ("/p/", "/p//a"), ("/p", "/q"), ("/p", "/p"), ("a", "a/./b"), ("/p/a", "/p")] {
        let expected = Path::new(p).strip_prefix(base).ok().map(|r| r.to_string_lossy().to_string());
        assert_eq!(strip_prefix(base, p), expected, "inputs {:?} {:?}", base, p);
    }
}
