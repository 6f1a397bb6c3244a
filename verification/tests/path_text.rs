use std::path::Path;

use rustforge::host::Host;
use rustforge::path::{join_path, parent};

const PATHS: [&str; 34] = [
    "", "/", "//", ".", "./", "./.", "..", "../", "a", "a/", "a//", "a/.", "a/./", "a/..", "./a", "././a", "/a",
    "//a", "/a/", "/.", "/./", "/./.", "/..", "/a/b", "/a//b", "/a/./b", "/a/b/.", "/a/b/..", "a/b/c//./",
    ".a", "a.", "./a/.", ".//a", "/a/b.rf",
];

#[test]
fn paths_are_joined_as_std_joins_them() {
    for base in PATHS {
        for path in PATHS {
            let expected = Path::new(base).join(path);
            assert_eq!(join_path(Host::Unix, base, path), expected.to_str().expect("text"), "{base:?} {path:?}");
        }
    }
}

#[test]
fn parents_are_those_of_std() {
    for path in PATHS {
        let expected = Path::new(path).parent().map(|parent| parent.to_str().expect("text").to_owned());
        assert_eq!(parent(Host::Unix, path), expected, "{path:?}");
    }
}

#[test]
fn root_and_empty_path_have_no_parent() {
    assert_eq!(parent(Host::Unix, "/"), None);
    assert_eq!(parent(Host::Unix, ""), None);
    assert_eq!(parent(Host::Unix, "a"), Some(String::new()));
}

#[test]
fn named_file_has_a_parent() {
    assert_eq!(parent(Host::Unix, "/p/dist/a.rf"), Some("/p/dist".to_owned()));
    assert_eq!(parent(Host::Unix, "x.rf"), Some(String::new()));
}

fn joined(base: &str, path: &str) -> String {
    join_path(Host::Windows, base, path)
}

fn parent_of(path: &str) -> Option<String> {
    parent(Host::Windows, path)
}

#[test]
fn windows_paths_continue_their_base() {
    assert_eq!(joined(r"C:\proj", "dist"), r"C:\proj\dist");
    assert_eq!(joined(r"C:\proj\", "dist"), r"C:\proj\dist");
    assert_eq!(joined("C:/proj/", "dist"), "C:/proj/dist");
    assert_eq!(joined(r"C:\proj", ".rustforge/out"), r"C:\proj\.rustforge/out");
    assert_eq!(joined("C:", "dist"), "C:dist");
    assert_eq!(joined("", "dist"), "dist");
    assert_eq!(joined(r"C:\proj", ""), "C:\\proj\\");
    assert_eq!(joined(r"\\server\share", "dist"), r"\\server\share\dist");
}

#[test]
fn windows_paths_with_a_prefix_stand_alone() {
    assert_eq!(joined("C:/proj", "D:/out"), "D:/out");
    assert_eq!(joined("C:/proj", r"d:out"), "d:out");
    assert_eq!(joined("C:/proj", r"\\server\share"), r"\\server\share");
    assert_eq!(joined("C:/proj", r"\\.\COM1"), r"\\.\COM1");
    assert_eq!(joined("C:/proj", r"\\?\D:\out"), r"\\?\D:\out");
    assert_eq!(joined("C:/proj", "1:/out"), r"C:/proj\1:/out");
}

#[test]
fn windows_roots_keep_the_prefix() {
    assert_eq!(joined(r"C:\proj", r"\out"), r"C:\out");
    assert_eq!(joined(r"C:\proj", "/out"), "C:/out");
    assert_eq!(joined(r"\\server\share\proj", r"\out"), r"\\server\share\out");
    assert_eq!(joined("proj", r"\out"), r"\out");
    assert_eq!(joined(r"C:\proj", r"\\server"), r"C:\\server");
}

#[test]
fn verbatim_paths_follow_dots() {
    assert_eq!(joined(r"\\?\C:\proj", "a/./b/../c"), r"\\?\C:\proj\a\c");
    assert_eq!(joined(r"\\?\C:\proj", "../.."), r"\\?\C:\");
    assert_eq!(joined(r"\\?\C:\proj", "/out"), r"\\?\C:\out");
    assert_eq!(joined(r"\\?\C:\a\.\b", "c"), r"\\?\C:\a\.\b\c");
    assert_eq!(joined(r"\\?\UNC\server\share", "a"), r"\\?\UNC\server\share\a");
    assert_eq!(joined(r"\\?\C:\proj", ""), "\\\\?\\C:\\proj\\");
}

#[test]
fn windows_parents_end_at_the_root() {
    assert_eq!(parent_of(r"C:\a\b"), Some(r"C:\a".to_owned()));
    assert_eq!(parent_of(r"C:\a/b\.\"), Some(r"C:\a".to_owned()));
    assert_eq!(parent_of(r"C:\a"), Some(r"C:\".to_owned()));
    assert_eq!(parent_of(r"C:\"), None);
    assert_eq!(parent_of("C:"), None);
    assert_eq!(parent_of("C:a"), Some("C:".to_owned()));
    assert_eq!(parent_of(r"\\server\share\a"), Some(r"\\server\share\".to_owned()));
    assert_eq!(parent_of(r"\\server\share"), None);
    assert_eq!(parent_of(r"\a"), Some(r"\".to_owned()));
    assert_eq!(parent_of(r"\\?\C:\a\."), Some(r"\\?\C:\a".to_owned()));
    assert_eq!(parent_of(r"a\b"), Some("a".to_owned()));
    assert_eq!(parent(Host::Unix, r"a\b"), Some(String::new()));
}
