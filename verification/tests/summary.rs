use react_analyzer::extract::{
    extract, extract_exports, extract_probes, extract_test_files, Edge, Export, FileExports, Summary,
    TestOutput, TestSummary,
};
use react_analyzer::languages::{Import, ParsedFile, TestFile};
use react_analyzer::package_json::{DependencyUse, PackageJson};

fn import(file_path: &str, source: &str, named: &[&str], is_default: bool) -> Import {
    Import {
        source: source.to_string(),
        file_path: file_path.to_string(),
        named: named.iter().map(|n| n.to_string()).collect(),
        is_default,
        line: 0,
    }
}

fn file(path: &str, name: &str, line_count: usize, imports: Vec<Import>) -> ParsedFile {
    ParsedFile {
        line_count,
        imports,
        exports: Vec::new(),
        name: name.to_string(),
        extension: "ts".to_string(),
        path: path.to_string(),
    }
}

#[test]
fn two_files_one_import_end_to_end() {
    let files = vec![
        file("a.ts", "a", 1, vec![import("a.ts", "./b.ts", &["x"], false)]),
        file("b.ts", "b", 1, vec![]),
    ];
    let probes = extract_probes("/root", &files, &vec![], &vec![]);
    assert_eq!(probes, vec![None, None]);
    let output = extract(files, vec![], vec![], &vec![false, false]);
    assert_eq!(output.import_graph.nodes.len(), 2);
    assert_eq!(
        output.import_graph.edges,
        vec![Edge { id: 0, source: 1, target: 0, is_default: false, name: "x".to_string() }]
    );
    assert!(output.dead_files.is_empty());
    assert!(output.unknown_imports.is_empty());
    assert_eq!(
        output.exports,
        vec![FileExports {
            source: "b.ts".to_string(),
            exports: vec![Export { name: "x".to_string(), target: "a.ts".to_string(), is_default: false }],
        }]
    );
    assert_eq!(
        output.summary,
        Summary { line_count: 2, import_count: 1, file_count: 2, unused_file_count: 0 }
    );
    assert_eq!(output.exports, extract_exports(&output.import_graph));
}

#[test]
fn a_specifier_without_extension_does_not_meet_the_file() {
    let files = vec![
        file("a.ts", "a", 1, vec![import("a.ts", "./b", &["x"], false)]),
        file("b.ts", "b", 1, vec![]),
    ];
    let probes = extract_probes("/root", &files, &vec![], &vec![]);
    assert_eq!(probes, vec![None, None, Some("/root/b.ts".to_string())]);
    let output = extract(files, vec![], vec![], &vec![false, false, true]);
    let paths: Vec<&str> = output.import_graph.nodes.iter().map(|n| n.path.as_str()).collect();
    assert_eq!(paths, vec!["a.ts", "b", "b.ts"]);
    assert_eq!(output.dead_files, vec!["b.ts".to_string()]);
    assert_eq!(output.summary.unused_file_count, 1);
}

#[test]
fn the_whole_analysis_of_a_small_project() {
    let files = vec![
        file(
            "src/main.ts",
            "main",
            40,
            vec![
                import("src/main.ts", "react", &[], true),
                import("src/main.ts", "lodash/debounce", &[], true),
                import("src/main.ts", "./util.ts", &["sum", "mean"], false),
                import("src/main.ts", "./gone", &[], false),
            ],
        ),
        file("src/util.ts", "util", 10, vec![]),
        file("src/spare.ts", "spare", 5, vec![]),
    ];
    let manifests = vec![PackageJson {
        dependencies: Some(vec!["react".to_string(), "lodash".to_string()]),
        dev_dependencies: Some(vec!["jest".to_string()]),
        peer_dependencies: None,
        file_path: "package.json".to_string(),
    }];
    let probes = extract_probes("/repo", &files, &manifests, &vec![]);
    assert_eq!(
        probes,
        vec![
            None,
            None,
            None,
            None,
            Some("/repo/src/gone".to_string()),
            Some("/repo/src/spare.ts".to_string()),
        ]
    );
    let output = extract(files, manifests, vec![], &vec![false, false, false, false, false, true]);
    let paths: Vec<&str> = output.import_graph.nodes.iter().map(|n| n.path.as_str()).collect();
    assert_eq!(
        paths,
        vec!["src/main.ts", "react", "lodash/debounce", "src/util.ts", "src/gone", "src/spare.ts"]
    );
    assert_eq!(output.import_graph.edges.len(), 4);
    assert_eq!(output.dead_files, vec!["src/spare.ts".to_string()]);
    assert_eq!(output.unknown_imports, vec!["src/gone".to_string()]);
    assert_eq!(
        output.package_json.dependencies,
        vec![
            DependencyUse { name: "react".to_string(), count: 1 },
            DependencyUse { name: "lodash".to_string(), count: 1 },
            DependencyUse { name: "jest".to_string(), count: 0 },
        ]
    );
    assert_eq!(
        output.summary,
        Summary { line_count: 55, import_count: 4, file_count: 3, unused_file_count: 1 }
    );
    assert_eq!(output.exports.len(), 3);
    assert_eq!(output.exports[2].source, "src/util.ts");
    assert_eq!(output.exports[2].exports.len(), 2);
}

#[test]
fn a_summary_is_written_in_four_lines() {
    let summary = Summary { line_count: 1200, import_count: 34, file_count: 5, unused_file_count: 0 };
    assert_eq!(
        summary.to_text(),
        "Total Files:     5\nTotal Lines:     1200\nTotal Imports:   34\nDead Files:      0"
    );
    let large = Summary {
        line_count: usize::MAX,
        import_count: 10,
        file_count: 909,
        unused_file_count: 100,
    };
    assert_eq!(
        large.to_text(),
        format!(
            "Total Files:     909\nTotal Lines:     {}\nTotal Imports:   10\nDead Files:      100",
            usize::MAX
        )
    );
}

#[test]
fn a_test_summary_is_written_in_three_lines() {
    let summary = TestSummary { count: 17, skipped_count: 2, line_count: 345 };
    assert_eq!(summary.to_text(), "Total Tests:     17\nSkipped Tests:   2\nTotal Lines:     345");
}

#[test]
fn test_files_are_added_up() {
    let files = vec![
        TestFile {
            line_count: 10,
            name: "a.test".to_string(),
            path: "a.test.js".to_string(),
            test_count: 3,
            skipped_test_count: 1,
        },
        TestFile {
            line_count: 25,
            name: "b.spec".to_string(),
            path: "b.spec.ts".to_string(),
            test_count: 4,
            skipped_test_count: 0,
        },
    ];
    let (summary, output) = extract_test_files(files);
    assert_eq!(summary, TestSummary { count: 7, skipped_count: 1, line_count: 35 });
    assert_eq!(output, TestOutput {});
    let (empty, _) = extract_test_files(vec![]);
    assert_eq!(empty, TestSummary { count: 0, skipped_count: 0, line_count: 0 });
}
