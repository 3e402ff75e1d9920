use react_analyzer::extract::normalize_path;
use react_analyzer::path_utils::path_distance;

#[test]
fn test_path_distance() {
    assert_eq!(path_distance("/", "/"), 0);
    assert_eq!(path_distance("/foo", "/foo"), 0);
    assert_eq!(path_distance("/foo", "/foo/test.js"), 1);
    // Siblings are further apart than parent and child
    assert_eq!(path_distance("/foo/rick.js", "/foo/roll.js"), 2);
    assert_eq!(path_distance("/foo/bar", "/foo"), 1);
    assert_eq!(path_distance("/foo", "/foo/bar"), 1);
    assert_eq!(path_distance("/foo", "/bar"), 2);
    assert_eq!(path_distance("/foo", "/bar/zoo/test/rick/roll.txt"), 6);
}

#[test]
fn path_distance_of_relative_paths() {
    assert_eq!(path_distance("", ""), 0);
    assert_eq!(path_distance("a", ""), 1);
    assert_eq!(path_distance("", "a/b"), 2);
    assert_eq!(path_distance("a/b/c", "a/x"), 3);
    assert_eq!(path_distance("pkgA/src/x.ts", "pkgA"), 2);
}

#[test]
fn path_distance_ignores_redundant_separators_and_dots() {
    assert_eq!(path_distance("a//b/", "a/b"), 0);
    assert_eq!(path_distance("a/./b", "a/b"), 0);
    assert_eq!(path_distance("./a", "a"), 3);
}

#[test]
fn path_distance_is_symmetric_on_examples() {
    let paths = ["", "a", "a/b", "a/c/d", "/", "/a", "/a/b", "./a", "../a/b"];
    for a in paths.iter() {
        for b in paths.iter() {
            assert_eq!(path_distance(a, b), path_distance(b, a));
        }
    }
}

#[test]
fn normalize_drops_dots_and_resolves_parents() {
    assert_eq!(normalize_path("a/./b/../c"), "a/c");
    assert_eq!(normalize_path("a/c"), "a/c");
    assert_eq!(normalize_path("a/./b/../c"), normalize_path("a/c"));
    assert_eq!(normalize_path("./a"), "a");
    assert_eq!(normalize_path("a/b/../../c"), "c");
    assert_eq!(normalize_path("a/.."), "");
    assert_eq!(normalize_path(""), "");
    assert_eq!(normalize_path("."), "");
}

#[test]
fn normalize_keeps_the_root() {
    assert_eq!(normalize_path("/"), "/");
    assert_eq!(normalize_path("/a/../.."), "/");
    assert_eq!(normalize_path("/a/./b/"), "/a/b");
    assert_eq!(normalize_path("//a//b"), "/a/b");
}

#[test]
fn normalize_drops_a_parent_that_leads_nowhere() {
    assert_eq!(normalize_path("../a"), "a");
    assert_eq!(normalize_path("a/../../b"), "b");
}

#[test]
fn normalize_is_idempotent_on_examples() {
    let paths = [
        "", ".", "..", "/", "a", "a/b", "./a/b", "../a", "a/../b", "/a/b/../c", "a//b/./c/",
        "src/app/utils", "Foo/index.ts", "/../x", "a/b/c/../../..",
    ];
    for p in paths.iter() {
        let once = normalize_path(p);
        let twice = normalize_path(&once);
        assert_eq!(once, twice);
    }
}

#[test]
fn normalize_agrees_on_equal_component_sequences() {
    assert_eq!(normalize_path("a//b"), normalize_path("a/b"));
    assert_eq!(normalize_path("a/b/"), normalize_path("a/b"));
    assert_eq!(normalize_path("x/../a/b"), normalize_path("a/./b"));
}
