use react_analyzer::scan::{classify_entry, sort_entry, EntryUse};
use regex::Regex;

fn patterns() -> (Regex, Regex) {
    (Regex::new(r"^.*\.(jsx|js|tsx|ts)$").unwrap(), Regex::new(r".*.test.js").unwrap())
}

fn nothing() -> EntryUse {
    EntryUse { is_package_json: false, is_ts_config: false, is_source: false }
}

#[test]
fn a_source_file_is_parsed() {
    let (pattern, ignore) = patterns();
    assert_eq!(
        classify_entry("/repo/src/a.tsx", true, &pattern, &ignore),
        EntryUse { is_package_json: false, is_ts_config: false, is_source: true }
    );
    assert_eq!(classify_entry("/repo/src/a.css", true, &pattern, &ignore), nothing());
}

#[test]
fn a_directory_is_not_parsed() {
    let (pattern, ignore) = patterns();
    assert_eq!(classify_entry("/repo/src/dir.js", false, &pattern, &ignore), nothing());
}

#[test]
fn what_the_ignore_pattern_matches_is_used_for_nothing() {
    let (pattern, ignore) = patterns();
    assert_eq!(classify_entry("/repo/src/a.test.js", true, &pattern, &ignore), nothing());
    assert_eq!(classify_entry("/repo/a.test.js/package.json", true, &pattern, &ignore), nothing());
}

#[test]
fn manifests_and_configurations_go_by_their_file_names() {
    let (pattern, ignore) = patterns();
    assert_eq!(
        classify_entry("/repo/package.json", true, &pattern, &ignore),
        EntryUse { is_package_json: true, is_ts_config: false, is_source: false }
    );
    assert_eq!(
        classify_entry("pkg/tsconfig.json", true, &pattern, &ignore),
        EntryUse { is_package_json: false, is_ts_config: true, is_source: false }
    );
    assert_eq!(classify_entry("pkg/tsconfig.build.json", true, &pattern, &ignore), nothing());
    assert_eq!(classify_entry("pkg/package.json/x", true, &pattern, &ignore), nothing());
    // a directory of that name counts as well
    assert_eq!(
        classify_entry("pkg/package.json", false, &pattern, &ignore),
        EntryUse { is_package_json: true, is_ts_config: false, is_source: false }
    );
}

#[test]
fn an_entry_is_sorted_by_what_the_patterns_said() {
    assert_eq!(
        sort_entry("a/b.ts", true, true, false),
        EntryUse { is_package_json: false, is_ts_config: false, is_source: true }
    );
    assert_eq!(sort_entry("a/b.ts", true, false, false), nothing());
    assert_eq!(sort_entry("a/b.ts", false, true, false), nothing());
    assert_eq!(sort_entry("a/b.ts", true, true, true), nothing());
    assert_eq!(sort_entry("a/package.json", true, true, true), nothing());
    assert_eq!(
        sort_entry("a/package.json", true, true, false),
        EntryUse { is_package_json: true, is_ts_config: false, is_source: true }
    );
    assert_eq!(
        sort_entry("tsconfig.json", false, false, false),
        EntryUse { is_package_json: false, is_ts_config: true, is_source: false }
    );
}
