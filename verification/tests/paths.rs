use hoard::error::Error;
use hoard::fs_utils::canonical_path;
use hoard::fs_utils::ls_match;
use hoard::fs_utils::physical_relative_path;
use hoard::fs_utils::relative_depth;
use hoard::fs_utils::strip_root;
use hoard::ids::Uid;
use hoard::ids::uid_hyphenated;

#[test]
fn test_strip_root() {
    let input = "/foo/bar";
    let expected = "foo/bar";
    assert_eq!(strip_root(input), expected);

    let input = "foo/bar";
    let expected = "foo/bar";
    assert_eq!(strip_root(input), expected);
}

#[test]
fn relative_depths() {
    let cases: &[(Option<usize>, &str, &str)] = &[
        (Some(0), "/foo", "/foo"),
        (Some(1), "/", "/foo"),
        (None, "/foo", "/"),
        (Some(1), "/foo", "/foo/bar"),
        (Some(2), "/foo", "/foo/bar/baz"),
        (Some(1), "/foo/bar/", "/foo/bar/baz"),
    ];
    for (expected_depth, root, path) in cases {
        let found_depth = relative_depth(root, path);
        assert_eq!(
            found_depth, *expected_depth,
            "Expected {path:?} to have relative depth to root {root:?} of {expected_depth:?} but found {found_depth:?}",
        );
    }
}

#[test]
fn basename() {
    let cases: &[(Option<&str>, &str)] = &[
        (Some("foo"), "/foo"),
        (Some("bar"), "/foo/bar"),
        (Some("bar"), "/foo/bar/"),
    ];
    for (expected, path) in cases {
        let found = hoard::fs_utils::basename(path);
        assert_eq!(
            found.as_deref(),
            *expected,
            "Expected {path:?} to have basename {expected:?} found {found:?}",
        );
    }
}

#[test]
fn canonical_path_accepts_absolute() {
    assert_eq!(canonical_path("/foo/bar").unwrap(), "/foo/bar");
    assert_eq!(canonical_path("/foo//bar/").unwrap(), "/foo/bar");
    assert_eq!(canonical_path("/").unwrap(), "/");
}

#[test]
fn canonical_path_rejects_bad_input() {
    assert_eq!(canonical_path("").unwrap_err(), Error::PathNotAbsolute);
    assert_eq!(canonical_path("foo/bar").unwrap_err(), Error::PathNotAbsolute);
    assert_eq!(canonical_path("/foo/./bar").unwrap_err(), Error::PathCurDirSegment);
    assert_eq!(canonical_path("/foo/../bar").unwrap_err(), Error::PathParentDirSegment);
}

#[test]
fn canonical_path_is_idempotent() {
    let once = canonical_path("/a//b/c/").unwrap();
    let twice = canonical_path(&once).unwrap();
    assert_eq!(once, twice);
    assert_eq!(once, "/a/b/c");
}

#[test]
fn hyphenated_identifier_form() {
    let id = Uid::from_value(0);
    assert_eq!(uid_hyphenated(&id), "00000000-0000-0000-0000-000000000000");
    let id = Uid::from_value(0xff);
    assert_eq!(uid_hyphenated(&id), "00000000-0000-0000-0000-0000000000ff");
}

#[test]
fn physical_path_mapping() {
    let id = Uid::from_value(0xff);
    let p = physical_relative_path(&id, "/docs/a.txt").unwrap();
    assert_eq!(p, "hoard/collections/00000000-0000-0000-0000-0000000000ff/docs/a.txt");
    // the mapping is a pure function of its inputs
    let q = physical_relative_path(&id, "/docs/a.txt").unwrap();
    assert_eq!(p, q);
    assert!(physical_relative_path(&id, "docs").is_err());
}

#[test]
fn ls_match_hidden_and_depth() {
    assert!(ls_match("/foo", false, "/foo/bar"));
    assert!(!ls_match("/foo", false, "/foo/.baz"));
    assert!(ls_match("/foo", true, "/foo/.baz"));
    assert!(!ls_match("/foo", false, "/foo/bar/baz"));
    assert!(!ls_match("/foo", true, "/foo/bar/baz"));
    assert!(ls_match("/foo/", false, "/foo/bar"));
}
