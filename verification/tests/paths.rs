//! Paths are read as those of the standard library are.
use coreshift_engine::path::{read_text, EnginePath, PathSet};
use std::path::Path;

const SAMPLES: [&str; 20] = [
    "",
    "/",
    "//",
    ".",
    "..",
    "./a",
    "a/.",
    "a/./b",
    "a//b/",
    "/a//b/./c/",
    "/a/b/c",
    "/a/b",
    "/a",
    "a",
    "a/..",
    "/..",
    "/./a",
    "a/b/..",
    "a-b",
    "a/b",
];

#[test]
fn equal_by_components() {
    assert_eq!(EnginePath::new("/a//b/./c/"), EnginePath::new("/a/b/c"));
    for a in SAMPLES {
        for b in SAMPLES {
            assert_eq!(
                EnginePath::new(a).same_as(&EnginePath::new(b)),
                Path::new(a) == Path::new(b),
                "{a:?} and {b:?}"
            );
        }
    }
}

#[test]
fn file_names_and_parents() {
    for a in SAMPLES {
        let name = EnginePath::new(a).file_name();
        let theirs = Path::new(a).file_name().and_then(|name| name.to_str());
        assert_eq!(
            name.map(|name| String::from_utf8(name).unwrap()).as_deref(),
            theirs,
            "{a:?}"
        );
        for b in SAMPLES {
            assert_eq!(
                EnginePath::new(a).has_parent(&EnginePath::new(b)),
                Path::new(a).parent() == Some(Path::new(b)),
                "{a:?} in {b:?}"
            );
        }
    }
}

#[test]
fn joined_paths() {
    for a in SAMPLES {
        for b in SAMPLES {
            assert_eq!(
                EnginePath::new(a).join(b).to_text().as_deref(),
                Path::new(a).join(b).to_str(),
                "{a:?} and {b:?}"
            );
        }
    }
}

#[test]
fn a_set_of_paths_is_in_order() {
    let mut theirs: Vec<&Path> = SAMPLES.iter().map(|sample| Path::new(*sample)).collect();
    theirs.sort();
    theirs.dedup();
    let ours = PathSet::from_vec(SAMPLES.iter().map(|sample| EnginePath::new(sample)).collect());

    assert_eq!(ours.len(), theirs.len());
    for (i, path) in theirs.iter().enumerate() {
        assert!(ours
            .key_at(i)
            .same_as(&EnginePath::new(path.to_str().unwrap())));
    }
}

#[test]
fn bytes_that_are_no_text_are_replaced() {
    let path = EnginePath::from_bytes(vec![b'/', b'a', 0xff, b'b']);

    assert_eq!(path.to_text(), None);
    assert_eq!(path.to_text_lossy(), "/a\u{fffd}b");
    assert_eq!(read_text(b"plain"), "plain");
    assert_eq!(read_text(&[0xe2, 0x82, 0xac]), "\u{20ac}");
}
