use bwrap_run::path::{
    path_eq, path_file_name, path_join, path_parent, path_starts_with, path_strip_prefix,
};
use std::path::Path;

const SAMPLES: &[&str] = &[
    "", "/", "//", ".", "./", "..", "a", "a/", "a/b", "a//b", "a/./b", "a/.", "a/..", "/a",
    "/a/", "/a/b", "/a/b/", "/a//b/./", "./a", "./a/b", "../a", "/.", "/./a", "a/b/c/",
    "/home/elysia", "/home/elysia/", "/home/elysia/Desktop/hello", "/home/elysia/Desktop//hello/",
    "/home/elysia/./Desktop/hello", "/usr/sbin/firefox", "/bin/bash", "/bin//bash", "./.", ".a",
    ".../x", "x/..", "/home", "home/elysia",
];

fn bytes_of(p: &Path) -> Vec<u8> {
    p.to_str().unwrap().as_bytes().to_vec()
}

#[test]
fn join_appends_with_separator() {
    assert_eq!(path_join(b"/home/u", b".sandbox_data"), b"/home/u/.sandbox_data".to_vec());
    assert_eq!(path_join(b"/home/u/", b"x"), b"/home/u/x".to_vec());
    assert_eq!(path_join(b"", b"firefox"), b"firefox".to_vec());
    assert_eq!(path_join(b"/home/u", b"/etc"), b"/etc".to_vec());
    assert_eq!(path_join(b"a", b""), b"a/".to_vec());
}

#[test]
fn join_agrees_with_std() {
    for a in SAMPLES {
        for b in SAMPLES {
            let expected = bytes_of(&Path::new(a).join(b));
            assert_eq!(path_join(a.as_bytes(), b.as_bytes()), expected, "join {:?} {:?}", a, b);
        }
    }
}

#[test]
fn starts_with_agrees_with_std() {
    for a in SAMPLES {
        for b in SAMPLES {
            let expected = Path::new(a).starts_with(b);
            assert_eq!(path_starts_with(a.as_bytes(), b.as_bytes()), expected, "{:?} starts_with {:?}", a, b);
        }
    }
}

#[test]
fn starts_with_compares_components_not_bytes() {
    assert!(path_starts_with(b"/home/elysia/Desktop/hello", b"/home/elysia"));
    assert!(path_starts_with(b"/home/elysia/Desktop/hello", b"/home/elysia/"));
    assert!(!path_starts_with(b"/home/elysia2/x", b"/home/elysia"));
    assert!(path_starts_with(b"/home//elysia/./x", b"/home/elysia"));
}

#[test]
fn file_name_agrees_with_std() {
    for a in SAMPLES {
        let expected = Path::new(a).file_name().map(|n| n.to_str().unwrap().as_bytes().to_vec());
        assert_eq!(path_file_name(a.as_bytes()), expected, "file_name {:?}", a);
    }
}

#[test]
fn parent_agrees_with_std() {
    for a in SAMPLES {
        let expected = Path::new(a).parent().map(bytes_of);
        assert_eq!(path_parent(a.as_bytes()), expected, "parent {:?}", a);
    }
}

#[test]
fn parent_of_examples() {
    assert_eq!(path_parent(b"Desktop/hello"), Some(b"Desktop".to_vec()));
    assert_eq!(path_parent(b"hello"), Some(Vec::new()));
    assert_eq!(path_parent(b"/"), None);
    assert_eq!(path_parent(b""), None);
}

#[test]
fn strip_prefix_agrees_with_std() {
    for a in SAMPLES {
        for b in SAMPLES {
            let expected = Path::new(a).strip_prefix(b).ok().map(bytes_of);
            assert_eq!(path_strip_prefix(a.as_bytes(), b.as_bytes()), expected, "{:?} strip {:?}", a, b);
        }
    }
}

#[test]
fn equality_agrees_with_std() {
    for a in SAMPLES {
        for b in SAMPLES {
            let expected = Path::new(a) == Path::new(b);
            assert_eq!(path_eq(a.as_bytes(), b.as_bytes()), expected, "{:?} == {:?}", a, b);
        }
    }
}

#[test]
fn law_examples_for_paths() {
    // Every path lies under itself.
    for a in SAMPLES {
        assert!(path_starts_with(a.as_bytes(), a.as_bytes()));
    }
    // A relative path joined on stays under the base.
    for a in SAMPLES {
        for b in SAMPLES {
            if !b.starts_with('/') {
                let j = path_join(a.as_bytes(), b.as_bytes());
                assert!(path_starts_with(&j, a.as_bytes()), "{:?} / {:?}", a, b);
            }
        }
    }
}
