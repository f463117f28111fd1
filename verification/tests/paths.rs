use tmsu::entities::{Tag, TagId, Value, ValueId};
use tmsu::errors::Error;
use tmsu::path::{
    determine_root_path, join, lowercase_or_owned, resolve_path, AbsPath, CanonicalPath, CasedContains, FsEntry,
    PathFacts, ScopedPath, Walk,
};

fn base_at(path: &str) -> CanonicalPath {
    CanonicalPath::new(path, Some(path.to_string())).unwrap()
}

fn present(path: &str) -> FsEntry {
    FsEntry {
        path: path.to_string(),
        facts: PathFacts {
            is_symlink: false,
            canonical: Some(path.to_string()),
        },
    }
}

fn link(path: &str, target: &str) -> FsEntry {
    FsEntry {
        path: path.to_string(),
        facts: PathFacts {
            is_symlink: true,
            canonical: Some(target.to_string()),
        },
    }
}

fn strings(items: &[&str]) -> Vec<String> {
    items.iter().map(|s| s.to_string()).collect()
}

#[test]
fn test_contains_for_case() {
    let vec = strings(&["a", "B", "bc", "Côté"]);

    // Not in vec, case sensitive
    assert_eq!(false, vec.contains_for_case("bb", false));
    assert_eq!(false, vec.contains_for_case("BB", false));

    // Not in vec, case insensitive
    assert_eq!(false, vec.contains_for_case("bb", true));
    assert_eq!(false, vec.contains_for_case("BB", true));

    // Present in vec, case sensitive
    assert_eq!(false, vec.contains_for_case("b", false));
    assert_eq!(true, vec.contains_for_case("B", false));
    // Present in vec, case insensitive
    assert_eq!(true, vec.contains_for_case("b", true));
    assert_eq!(true, vec.contains_for_case("B", true));

    // Non-ASCII, case sensitive
    assert_eq!(false, vec.contains_for_case("CÔTÉ", false));
    assert_eq!(true, vec.contains_for_case("Côté", false));

    // Non-ASCII, case insensitive
    assert_eq!(true, vec.contains_for_case("CÔTÉ", true));
    assert_eq!(true, vec.contains_for_case("Côté", true));

    // Owned strings
    assert!(vec!["ab".to_string()].contains_for_case("ab", true));

    // Tags
    let tag = Tag {
        id: TagId(42),
        name: "ab".to_string(),
    };
    assert!(vec![tag].contains_for_case("ab", false));

    // Values
    let value = Value {
        id: ValueId::from_unchecked(42),
        name: "ab".to_string(),
    };
    assert!(vec![value].contains_for_case("ab", false));
}

#[test]
fn lowercase_only_where_case_is_ignored() {
    assert_eq!(lowercase_or_owned("CÔTÉ", true), "côté");
    assert_eq!(lowercase_or_owned("CÔTÉ", false), "CÔTÉ");
}

#[test]
fn join_puts_one_separator_between() {
    assert_eq!(join("/a", "b"), "/a/b");
    assert_eq!(join("/a/", "b"), "/a/b");
    assert_eq!(join("/a", "/b"), "/b");
    assert_eq!(join("", "b"), "b");
}

#[test]
fn abs_path_cleans_what_it_joins() {
    let base = AbsPath::from_unchecked("/tmp/r".to_string());
    assert_eq!(AbsPath::from("a/../b", &base).0, "/tmp/r/b");
    assert_eq!(AbsPath::from("./x//y/", &base).0, "/tmp/r/x/y");
    assert_eq!(AbsPath::from("/else/../where", &base).0, "/else/../where");
}

#[test]
fn canonical_path_needs_what_was_found() {
    assert!(CanonicalPath::new("/tmp/r", Some("/tmp/r".to_string())).is_ok());
    assert_eq!(
        CanonicalPath::new("gone", None),
        Err(Error::FileNotFound("gone".to_string()))
    );
    assert_eq!(
        CanonicalPath::new("gone", Some("relative".to_string())),
        Err(Error::FileNotFound("gone".to_string()))
    );
}

#[test]
fn scoped_path_inside_and_outside_the_base() {
    let base = base_at("/tmp/r");
    let fs = vec![present("/tmp"), present("/tmp/r")];

    assert_eq!(ScopedPath::new(&base, "/tmp/r/sub", &fs).inner(), "sub");
    let outside = ScopedPath::new(&base, "../x", &fs);
    assert_eq!(outside.inner(), "/tmp/x");
    assert_eq!(outside.absolute.0, "/tmp/x");

    assert_eq!(ScopedPath::new(&base, "rel", &fs).inner(), "rel");
    assert_eq!(ScopedPath::new(&base, "foo/bar", &fs).inner(), "foo/bar");
    assert_eq!(
        ScopedPath::new(&base, "foo/../../other", &fs).inner(),
        "/tmp/other"
    );
    assert_eq!(ScopedPath::new(&base, "/tmp/dir", &fs).inner(), "/tmp/dir");
}

#[test]
fn scoped_path_of_the_base_is_a_dot() {
    let base = base_at("/tmp/r");
    let fs = vec![present("/tmp"), present("/tmp/r")];
    assert_eq!(
        ScopedPath::new(&base, "./dummy1/.././dummy2/../", &fs).inner(),
        "."
    );
    assert_eq!(ScopedPath::new(&base, "../r/dummy/../", &fs).inner(), ".");
    assert_eq!(ScopedPath::new(&base, "", &fs).inner(), ".");
}

#[test]
fn links_outside_the_base_are_followed_and_those_inside_kept() {
    let base = base_at("/tmp/r");
    let fs = vec![
        present("/tmp"),
        present("/tmp/r"),
        link("/tmp/symlink-out", "/tmp/r"),
        link("/tmp/r/symlink-in", "/tmp/r/other"),
    ];
    assert_eq!(
        ScopedPath::new(&base, "../symlink-out/other/", &fs).inner(),
        "other"
    );
    assert_eq!(
        ScopedPath::new(&base, "/tmp/symlink-out/aa", &fs).inner(),
        "aa"
    );
    assert_eq!(
        ScopedPath::new(&base, "symlink-in/aa", &fs).inner(),
        "symlink-in/aa"
    );
    assert_eq!(
        ScopedPath::new(&base, "/tmp/r/symlink-in/aa", &fs).inner(),
        "symlink-in/aa"
    );
}

#[test]
fn a_walk_asks_for_one_path_after_the_other() {
    let base = base_at("/tmp/r");
    let mut walk = Walk::start(&base, "a/b");
    assert_eq!(walk.probe(), Some("/tmp/r/a".to_string()));
    walk.advance(&PathFacts {
        is_symlink: false,
        canonical: None,
    });
    assert_eq!(walk.probe(), Some("/tmp/r/a/b".to_string()));
    walk.advance(&PathFacts {
        is_symlink: true,
        canonical: Some("/else".to_string()),
    });
    assert_eq!(walk.probe(), None);
    let done = walk.finish();
    assert_eq!(done.inner(), "a/b");
    assert_eq!(done.absolute.0, "/tmp/r/a/b");
}

fn dir_and_name(inner: &str) -> (String, String) {
    let base = base_at("/tmp/tmsu-tests");
    ScopedPath::new(&base, inner, &Vec::new()).inner_as_dir_and_name()
}

#[test]
fn inner_as_dir_and_name_splits_at_the_last_component() {
    assert_eq!(dir_and_name("foo/bar"), ("foo".to_string(), "bar".to_string()));
    assert_eq!(
        dir_and_name("foo/bar/baz"),
        ("foo/bar".to_string(), "baz".to_string())
    );
    assert_eq!(
        dir_and_name("foo/bar/baz/"),
        ("foo/bar".to_string(), "baz".to_string())
    );
    assert_eq!(
        dir_and_name("/tmp/foo/bar"),
        ("/tmp/foo".to_string(), "bar".to_string())
    );
    assert_eq!(dir_and_name("foo"), (".".to_string(), "foo".to_string()));
    assert_eq!(dir_and_name("/top"), ("/".to_string(), "top".to_string()));

    // Special cases
    assert_eq!(dir_and_name("."), (".".to_string(), ".".to_string()));
    assert_eq!(dir_and_name("/"), ("/".to_string(), "/".to_string()));
}

#[test]
fn contains_root_tells_paths_above_the_base() {
    let base = base_at("/tmp/r");
    let fs = Vec::new();
    assert!(ScopedPath::new(&base, "/tmp", &fs).contains_root());
    assert!(ScopedPath::new(&base, ".", &fs).contains_root());
    assert!(!ScopedPath::new(&base, "sub", &fs).contains_root());
    assert!(!ScopedPath::new(&base, "/other", &fs).contains_root());
}

#[test]
fn resolve_path_follows_links_only_when_asked() {
    let a_link = PathFacts {
        is_symlink: true,
        canonical: Some("/real".to_string()),
    };
    let broken = PathFacts {
        is_symlink: true,
        canonical: None,
    };
    assert_eq!(resolve_path("/l", true, &a_link), Ok("/real".to_string()));
    assert_eq!(resolve_path("/l", false, &a_link), Ok("/l".to_string()));
    assert_eq!(
        resolve_path("/l", true, &broken),
        Err(Error::FileNotFound("/l".to_string()))
    );
}

#[test]
fn the_root_lies_above_the_database() {
    assert_eq!(
        determine_root_path(&base_at("/home/me/.tmsu/db")),
        Ok("/home/me".to_string())
    );
    assert_eq!(
        determine_root_path(&base_at("/home/me/store/my.db")),
        Ok("/home/me/store".to_string())
    );
    assert_eq!(determine_root_path(&base_at("/.tmsu/db")), Ok("/".to_string()));
    assert_eq!(determine_root_path(&base_at("/db")), Err(Error::NoRootPath));
}
