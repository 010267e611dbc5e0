use o_::path;
use std::path::{Component, Path, PathBuf};

fn samples() -> Vec<String> {
    let alphabet = ['a', 'b', '.', '/'];
    let mut out = vec![String::new()];
    let mut frontier = vec![String::new()];
    for _ in 0..5 {
        let mut next = Vec::new();
        for s in &frontier {
            for c in alphabet {
                let mut t = s.clone();
                t.push(c);
                next.push(t);
            }
        }
        out.extend(next.iter().cloned());
        frontier = next;
    }
    out
}

fn std_normalize(path: &str) -> String {
    let mut parts: Vec<String> = Vec::new();
    let absolute = path.starts_with('/');
    for component in Path::new(path).components() {
        match component {
            Component::Normal(seg) => parts.push(seg.to_string_lossy().to_string()),
            Component::ParentDir => {
                if parts.last().map(|s| s.as_str()) != Some("..") {
                    if !parts.is_empty() {
                        parts.pop();
                    } else if !absolute {
                        parts.push("..".to_string());
                    }
                }
            }
            _ => {}
        }
    }
    let joined = parts.join("/");
    if absolute {
        format!("/{}", joined)
    } else if joined.is_empty() {
        ".".to_string()
    } else {
        joined
    }
}

fn std_relative(from: &str, to: &str) -> String {
    let from_path = PathBuf::from(from);
    let to_path = PathBuf::from(to);
    if from_path == to_path {
        return String::new();
    }
    let a: Vec<_> = from_path.components().collect();
    let b: Vec<_> = to_path.components().collect();
    let mut common = 0;
    for i in 0..a.len().min(b.len()) {
        if a[i] == b[i] {
            common = i + 1;
        } else {
            break;
        }
    }
    let mut out = String::new();
    for _ in common..a.len() {
        if !out.is_empty() {
            out.push('/');
        }
        out.push_str("..");
    }
    for c in &b[common..] {
        if !out.is_empty() {
            out.push('/');
        }
        if let Component::Normal(seg) = c {
            out.push_str(&seg.to_string_lossy());
        }
    }
    if out.is_empty() { ".".to_string() } else { out }
}

#[test]
fn normalize_agrees_with_component_walk() {
    for s in samples() {
        assert_eq!(path::normalize(&s), std_normalize(&s), "input {:?}", s);
    }
}

#[test]
fn dirname_agrees_with_parent() {
    for s in samples() {
        let expected = Path::new(&s)
            .parent()
            .map(|p| {
                let t = p.to_string_lossy().to_string();
                if t.is_empty() { ".".to_string() } else { t }
            })
            .unwrap_or_else(|| ".".to_string());
        assert_eq!(path::dirname(&s), expected, "input {:?}", s);
    }
}

#[test]
fn basename_agrees_with_file_name() {
    for s in samples() {
        let expected = Path::new(&s)
            .file_name()
            .map(|n| n.to_string_lossy().to_string())
            .unwrap_or_default();
        assert_eq!(path::basename(&s, None), expected, "input {:?}", s);
    }
}

#[test]
fn extname_agrees_with_extension() {
    for s in samples() {
        let expected = Path::new(&s)
            .extension()
            .map(|e| format!(".{}", e.to_string_lossy()))
            .unwrap_or_default();
        assert_eq!(path::extname(&s), expected, "input {:?}", s);
    }
}

#[test]
fn relative_agrees_with_component_walk() {
    let ss = samples();
    let picks: Vec<&String> = ss.iter().step_by(7).collect();
    for a in &picks {
        for b in &picks {
            assert_eq!(path::relative(a, b), std_relative(a, b), "inputs {:?} {:?}", a, b);
        }
    }
}

#[test]
fn resolve_examples() {
    assert_eq!(path::resolve(&["/foo/bar", "./baz"]), "/foo/bar/baz");
    assert_eq!(path::resolve(&["/foo/bar", "/tmp/file/"]), "/tmp/file");
    assert_eq!(path::resolve(&["a", "", "b/../c"]), "a/c");
    assert_eq!(path::resolve(&[]), ".");
    assert_eq!(path::resolve(&["", ""]), ".");
}

#[test]
fn join_examples() {
    assert_eq!(path::join("/foo", &["bar", "baz/asdf", "quux", ".."]), "/foo/bar/baz/asdf");
    assert_eq!(path::join(".", &["a"]), "a");
    assert_eq!(path::join("", &["a", "b"]), "a/b");
    assert_eq!(path::join("a", &[]), "a");
}

#[test]
fn normalize_examples() {
    assert_eq!(path::normalize("/foo/bar//baz/asdf/quux/.."), "/foo/bar/baz/asdf");
    assert_eq!(path::normalize("../../a"), "../a");
    assert_eq!(path::normalize("/../a"), "/a");
    assert_eq!(path::normalize(""), ".");
    assert_eq!(path::normalize("./"), ".");
}

#[test]
fn basename_with_extension() {
    assert_eq!(path::basename("/foo/bar/baz.html", Some(".html")), "baz");
    assert_eq!(path::basename("/foo/bar/baz.html", Some("")), "baz.html");
    assert_eq!(path::basename("/foo/bar/baz.html", Some(".js")), "baz.html");
    assert_eq!(path::basename("/", None), "");
}

#[test]
fn parse_and_format() {
    let p = path::parse("/home/user/dir/file.txt");
    assert_eq!(p.root, "/");
    assert_eq!(p.dir, "/home/user/dir");
    assert_eq!(p.base, "file.txt");
    assert_eq!(p.ext, ".txt");
    assert_eq!(p.name, "file");
    assert_eq!(path::format(&p), "/home/user/dir/file.txt");
    let q = path::parse("archive.tar.gz");
    assert_eq!(q.root, "");
    assert_eq!(q.dir, ".");
    assert_eq!(q.ext, ".gz");
    assert_eq!(q.name, "archive.tar");
    assert_eq!(path::format(&q), "./archive.tar.gz");
    let r = path::parse(".bashrc");
    assert_eq!(r.ext, "");
    assert_eq!(r.name, ".bashrc");
}

#[test]
fn absolute_and_relative() {
    assert!(path::is_absolute("/a"));
    assert!(!path::is_absolute("a/b"));
    assert_eq!(path::relative("/data/orandea/test/aaa", "/data/orandea/impl/bbb"), "../../impl/bbb");
    assert_eq!(path::relative("/a/b", "/a/b/"), "");
    assert_eq!(path::relative("/a", "/a/b/c"), "b/c");
    assert_eq!(path::dirname("/a/b/"), "/a");
    assert_eq!(path::dirname("/"), ".");
    assert_eq!(path::extname("index.coffee.md"), ".md");
    assert_eq!(path::extname("index."), ".");
    assert_eq!(path::SEP, "/");
    assert_eq!(path::DELIMITER, ":");
}

#[test]
fn normalize_is_idempotent() {
    for s in samples() {
        let once = path::normalize(&s);
        assert_eq!(path::normalize(&once), once, "input {:?}", s);
    }
}

#[test]
fn joining_the_relative_path_reaches_the_target() {
    let canonical = ["/", "/a", "/a/b", "/a/c", "/b", "/a/b/c", "/ab", "/a/bb/c"];
    for from in canonical {
        for to in canonical {
            let rel = path::relative(from, to);
            assert_eq!(path::join(from, &[rel.as_str()]), path::normalize(to), "inputs {:?} {:?}", from, to);
        }
    }
}

#[test]
fn format_gives_back_a_parsed_normalized_path() {
    for s in samples() {
        let n = path::normalize(&s);
        let d = path::dirname(&n);
        if path::normalize(&n) == n && d != "." && d != "/" {
            assert_eq!(path::format(&path::parse(&n)), n, "input {:?}", n);
        }
    }
    assert_eq!(path::format(&path::parse("/a/b/c.txt")), "/a/b/c.txt");
    assert_eq!(path::format(&path::parse("a/b")), "a/b");
    assert_eq!(path::format(&path::parse("../x/.env")), "../x/.env");
}

#[test]
fn relative_leads_back_between_normalized_absolute_paths() {
    let short: Vec<String> = samples().into_iter().filter(|s| s.len() <= 3).collect();
    let abs: Vec<String> = short.iter().map(|s| path::normalize(&format!("/{s}"))).collect();
    for from in &abs {
        for to in &abs {
            let r = path::relative(from, to);
            assert_eq!(path::join(from, &[r.as_str()]), *to, "from {:?} to {:?}", from, to);
        }
    }
    assert_eq!(path::relative("/a/b", "/a/c/d"), "../c/d");
    assert_eq!(path::relative("/a/b", "/a"), "..");
    assert_eq!(path::relative("/a/b", "/a/b"), "");
}
