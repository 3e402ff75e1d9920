use react_analyzer::extract::{extract_import_graph, Edge, ImportGraph, Node};
use react_analyzer::languages::{Import, ParsedFile};
use react_analyzer::ts_config::{CompilerOptions, PathAlias, TypeScriptConfig};

fn import(file_path: &str, source: &str, named: &[&str], is_default: bool) -> Import {
    Import {
        source: source.to_string(),
        file_path: file_path.to_string(),
        named: named.iter().map(|n| n.to_string()).collect(),
        is_default,
        line: 0,
    }
}

fn file(path: &str, name: &str, extension: &str, line_count: usize, imports: Vec<Import>) -> ParsedFile {
    ParsedFile {
        line_count,
        imports,
        exports: Vec::new(),
        name: name.to_string(),
        extension: extension.to_string(),
        path: path.to_string(),
    }
}

fn config(file_path: &str, base_url: Option<&str>, paths: &[(&str, &[&str])]) -> TypeScriptConfig {
    TypeScriptConfig {
        compiler_options: Some(CompilerOptions {
            base_url: base_url.map(|b| b.to_string()),
            paths: Some(
                paths
                    .iter()
                    .map(|(pattern, targets)| PathAlias {
                        pattern: pattern.to_string(),
                        targets: targets.iter().map(|t| t.to_string()).collect(),
                    })
                    .collect(),
            ),
        }),
        file_path: file_path.to_string(),
    }
}

fn node<'a>(graph: &'a ImportGraph, path: &str) -> &'a Node {
    let found: Vec<&Node> = graph.nodes.iter().filter(|n| n.path == path).collect();
    assert_eq!(found.len(), 1, "exactly one node for {}", path);
    found[0]
}

fn edges_resolve(graph: &ImportGraph) -> bool {
    graph.edges.iter().all(|e| {
        graph.nodes.iter().any(|n| n.id == e.source) && graph.nodes.iter().any(|n| n.id == e.target)
    })
}

fn paths_distinct(graph: &ImportGraph) -> bool {
    (0..graph.nodes.len()).all(|i| {
        (0..graph.nodes.len()).all(|j| i == j || graph.nodes[i].path != graph.nodes[j].path)
    })
}

#[test]
fn empty_input_gives_empty_graph() {
    let graph = extract_import_graph(&Vec::new(), &Vec::new());
    assert!(graph.nodes.is_empty());
    assert!(graph.edges.is_empty());
}

#[test]
fn a_file_without_imports_is_one_node() {
    let files = vec![file("util.ts", "util", "ts", 12, vec![])];
    let graph = extract_import_graph(&files, &Vec::new());
    assert_eq!(
        graph.nodes,
        vec![Node {
            id: 0,
            path: "util.ts".to_string(),
            file_name: Some("util".to_string()),
            extension: Some("ts".to_string()),
            line_count: Some(12),
        }]
    );
    assert!(graph.edges.is_empty());
}

#[test]
fn one_edge_for_each_named_binding_and_one_for_the_default() {
    let files = vec![file(
        "src/a.ts",
        "a",
        "ts",
        3,
        vec![import("src/a.ts", "./b.ts", &["x", "y"], true)],
    )];
    let graph = extract_import_graph(&files, &Vec::new());
    assert_eq!(graph.nodes.len(), 2);
    assert_eq!(node(&graph, "src/a.ts").id, 0);
    assert_eq!(
        *node(&graph, "src/b.ts"),
        Node { id: 1, path: "src/b.ts".to_string(), file_name: None, extension: None, line_count: None }
    );
    assert_eq!(
        graph.edges,
        vec![
            Edge { id: 0, source: 1, target: 0, is_default: true, name: "x".to_string() },
            Edge { id: 1, source: 1, target: 0, is_default: true, name: "y".to_string() },
            Edge { id: 2, source: 1, target: 0, is_default: true, name: "".to_string() },
        ]
    );
}

#[test]
fn an_import_without_bindings_makes_a_node_and_no_edge() {
    let files = vec![file("a.ts", "a", "ts", 1, vec![import("a.ts", "./styles", &[], false)])];
    let graph = extract_import_graph(&files, &Vec::new());
    assert_eq!(graph.nodes.len(), 2);
    assert_eq!(node(&graph, "styles").id, 1);
    assert!(graph.edges.is_empty());
}

#[test]
fn relative_specifiers_resolve_against_the_importing_directory() {
    let files = vec![file(
        "src/app/main.ts",
        "main",
        "ts",
        1,
        vec![
            import("src/app/main.ts", "./util", &["a"], false),
            import("src/app/main.ts", "../lib/./x/../y", &["b"], false),
            import("src/app/main.ts", "../../../../top", &["c"], false),
            import("src/app/main.ts", ".", &["d"], false),
        ],
    )];
    let graph = extract_import_graph(&files, &Vec::new());
    let paths: Vec<&str> = graph.nodes.iter().map(|n| n.path.as_str()).collect();
    assert_eq!(paths, vec!["src/app/main.ts", "src/app/util", "src/lib/y", "top", "src/app"]);
}

#[test]
fn a_trailing_separator_is_taken_off_the_key() {
    let files = vec![file(
        "a.ts",
        "a",
        "ts",
        1,
        vec![import("a.ts", "lodash/", &["x"], false), import("a.ts", "lodash", &["y"], false)],
    )];
    let graph = extract_import_graph(&files, &Vec::new());
    assert_eq!(graph.nodes.len(), 2);
    assert_eq!(node(&graph, "lodash").id, 1);
    assert_eq!(graph.edges.len(), 2);
    assert_eq!(graph.edges[0].source, 1);
    assert_eq!(graph.edges[1].source, 1);
}

#[test]
fn a_bare_specifier_without_alias_stays_as_written() {
    let files = vec![file("a.ts", "a", "ts", 1, vec![import("a.ts", "@scope/pkg/sub", &["x"], false)])];
    let graph = extract_import_graph(&files, &Vec::new());
    assert_eq!(node(&graph, "@scope/pkg/sub").id, 1);
}

#[test]
fn a_placeholder_is_completed_when_its_file_is_parsed() {
    let files = vec![
        file("a.ts", "a", "ts", 5, vec![import("a.ts", "./b.ts", &["x"], false)]),
        file("b.ts", "b", "ts", 7, vec![]),
    ];
    let graph = extract_import_graph(&files, &Vec::new());
    assert_eq!(graph.nodes.len(), 2);
    assert_eq!(
        *node(&graph, "b.ts"),
        Node {
            id: 1,
            path: "b.ts".to_string(),
            file_name: Some("b".to_string()),
            extension: Some("ts".to_string()),
            line_count: Some(7),
        }
    );
}

#[test]
fn completion_keeps_what_was_known() {
    // the same file twice: the second reading changes nothing
    let files = vec![file("a.ts", "a", "ts", 5, vec![]), file("a.ts", "other", "js", 9, vec![])];
    let graph = extract_import_graph(&files, &Vec::new());
    assert_eq!(
        graph.nodes,
        vec![Node {
            id: 0,
            path: "a.ts".to_string(),
            file_name: Some("a".to_string()),
            extension: Some("ts".to_string()),
            line_count: Some(5),
        }]
    );
}

#[test]
fn an_entry_file_takes_over_the_node_of_its_directory() {
    let files = vec![
        file("a.ts", "a", "ts", 5, vec![import("a.ts", "./Foo", &["Foo"], false)]),
        file("Foo/index.ts", "Foo", "ts", 20, vec![]),
    ];
    let graph = extract_import_graph(&files, &Vec::new());
    assert_eq!(graph.nodes.len(), 2);
    assert_eq!(
        *node(&graph, "Foo/index.ts"),
        Node {
            id: 1,
            path: "Foo/index.ts".to_string(),
            file_name: Some("index.ts".to_string()),
            extension: Some("ts".to_string()),
            line_count: Some(20),
        }
    );
    assert!(graph.nodes.iter().all(|n| n.path != "Foo"));
    assert_eq!(
        graph.edges,
        vec![Edge { id: 0, source: 1, target: 0, is_default: false, name: "Foo".to_string() }]
    );
}

#[test]
fn an_entry_file_parsed_first_does_not_meet_a_later_directory_import() {
    let files = vec![
        file("Foo/index.ts", "Foo", "ts", 20, vec![]),
        file("a.ts", "a", "ts", 5, vec![import("a.ts", "./Foo", &["Foo"], false)]),
    ];
    let graph = extract_import_graph(&files, &Vec::new());
    let paths: Vec<&str> = graph.nodes.iter().map(|n| n.path.as_str()).collect();
    assert_eq!(paths, vec!["Foo/index.ts", "a.ts", "Foo"]);
}

#[test]
fn an_entry_file_without_extension_takes_its_extension_from_the_parse() {
    let files = vec![
        file("a.ts", "a", "ts", 5, vec![import("a.ts", "./Foo", &["Foo"], false)]),
        file("Foo/index", "Foo", "", 20, vec![]),
    ];
    let graph = extract_import_graph(&files, &Vec::new());
    assert_eq!(
        *node(&graph, "Foo/index"),
        Node {
            id: 1,
            path: "Foo/index".to_string(),
            file_name: Some("index".to_string()),
            extension: Some("".to_string()),
            line_count: Some(20),
        }
    );
}

#[test]
fn a_node_under_the_entry_files_own_path_is_given_up() {
    // both the directory and the entry file itself were imported before the
    // entry file is parsed: the directory's node takes the file's path, and
    // the node that stood under that path leaves the graph
    let files = vec![
        file("a.ts", "a", "ts", 1, vec![import("a.ts", "./Foo", &["x"], false)]),
        file("b.ts", "b", "ts", 1, vec![import("b.ts", "./Foo/index.ts", &["y"], false)]),
        file("Foo/index.ts", "Foo", "ts", 9, vec![]),
    ];
    let graph = extract_import_graph(&files, &Vec::new());
    let ids: Vec<usize> = graph.nodes.iter().map(|n| n.id).collect();
    assert_eq!(ids, vec![0, 1, 2]);
    assert_eq!(node(&graph, "Foo/index.ts").id, 1);
    assert!(paths_distinct(&graph));
    // the edge from the node that was given up leads from nowhere
    assert_eq!(graph.edges[1].source, 3);
    assert!(!edges_resolve(&graph));
}

#[test]
fn edges_resolve_and_paths_are_distinct() {
    let files = vec![
        file("a.ts", "a", "ts", 1, vec![
            import("a.ts", "./b", &["x"], false),
            import("a.ts", "lodash", &[], true),
            import("a.ts", "./lib/c", &["y", "z"], true),
        ]),
        file("lib/c.ts", "c", "ts", 1, vec![import("lib/c.ts", "../a.ts", &["w"], false)]),
        file("b", "b", "", 1, vec![import("b", "lodash", &["debounce"], false)]),
    ];
    let graph = extract_import_graph(&files, &Vec::new());
    assert!(edges_resolve(&graph));
    assert!(paths_distinct(&graph));
    for (i, n) in graph.nodes.iter().enumerate() {
        assert_eq!(n.id, i);
    }
    for (k, e) in graph.edges.iter().enumerate() {
        assert_eq!(e.id, k);
    }
    assert_eq!(graph.edges.len(), 7);
}

#[test]
fn an_alias_resolves_below_the_base_path_of_its_config() {
    let configs = vec![config("tsconfig.json", Some("src"), &[("@app/*", &["app/*"])])];
    let files = vec![file("x.ts", "x", "ts", 1, vec![import("x.ts", "@app/utils", &["u"], false)])];
    let graph = extract_import_graph(&files, &configs);
    assert_eq!(node(&graph, "src/app/utils").id, 1);
}

#[test]
fn an_alias_resolves_below_the_directory_of_its_config() {
    let configs = vec![config("packages/web/tsconfig.json", None, &[("~/*", &["./src/*"])])];
    let files = vec![file(
        "packages/web/src/pages/home.tsx",
        "home",
        "tsx",
        1,
        vec![import("packages/web/src/pages/home.tsx", "~/components/Button", &["Button"], false)],
    )];
    let graph = extract_import_graph(&files, &configs);
    assert_eq!(node(&graph, "packages/web/src/components/Button").id, 1);
}

#[test]
fn an_alias_without_wildcard_replaces_the_prefix_as_it_stands() {
    let configs = vec![config("tsconfig.json", None, &[("shared", &["libs/shared"])])];
    let files = vec![file(
        "x.ts",
        "x",
        "ts",
        1,
        vec![import("x.ts", "shared", &["a"], false), import("x.ts", "shared/util", &["b"], false)],
    )];
    let graph = extract_import_graph(&files, &configs);
    assert_eq!(node(&graph, "libs/shared").id, 1);
    assert_eq!(node(&graph, "libs/shared/util").id, 2);
}

#[test]
fn only_the_prefix_is_replaced() {
    let configs = vec![config("tsconfig.json", None, &[("@a/*", &["x/*"])])];
    let files = vec![file("f.ts", "f", "ts", 1, vec![import("f.ts", "@a/lib/@a/deep", &["d"], false)])];
    let graph = extract_import_graph(&files, &configs);
    assert_eq!(node(&graph, "x/lib/@a/deep").id, 1);
}

#[test]
fn the_last_alias_that_matches_wins() {
    let configs = vec![config(
        "tsconfig.json",
        None,
        &[("@app/*", &["first/*"]), ("@app/ui/*", &["second/*"]), ("@other/*", &["third/*"])],
    )];
    let files = vec![file(
        "f.ts",
        "f",
        "ts",
        1,
        vec![import("f.ts", "@app/ui/button", &["b"], false), import("f.ts", "@app/core", &["c"], false)],
    )];
    let graph = extract_import_graph(&files, &configs);
    assert_eq!(node(&graph, "second/button").id, 1);
    assert_eq!(node(&graph, "first/core").id, 2);
}

#[test]
fn an_alias_without_target_is_passed_over() {
    let configs = vec![config("tsconfig.json", None, &[("@app/*", &["app/*"]), ("@app/*", &[])])];
    let files = vec![file("f.ts", "f", "ts", 1, vec![import("f.ts", "@app/x", &["x"], false)])];
    let graph = extract_import_graph(&files, &configs);
    assert_eq!(node(&graph, "app/x").id, 1);
}

#[test]
fn only_the_first_target_of_an_alias_is_used() {
    let configs = vec![config("tsconfig.json", None, &[("@app/*", &["one/*", "two/*"])])];
    let files = vec![file("f.ts", "f", "ts", 1, vec![import("f.ts", "@app/x", &["x"], false)])];
    let graph = extract_import_graph(&files, &configs);
    assert_eq!(node(&graph, "one/x").id, 1);
}

#[test]
fn aliases_of_another_package_do_not_apply() {
    let configs = vec![
        config("pkgA/tsconfig.json", None, &[("@lib/*", &["libA/*"])]),
        config("pkgB/tsconfig.json", None, &[("@lib/*", &["libB/*"])]),
    ];
    let files = vec![
        file("pkgB/src/x.ts", "x", "ts", 1, vec![import("pkgB/src/x.ts", "@lib/u", &["u"], false)]),
        file("other/y.ts", "y", "ts", 1, vec![import("other/y.ts", "@lib/u", &["u"], false)]),
    ];
    let graph = extract_import_graph(&files, &configs);
    assert_eq!(node(&graph, "pkgB/libB/u").id, 1);
    assert_eq!(node(&graph, "@lib/u").id, 3);
}

#[test]
fn a_config_without_options_has_no_aliases() {
    let configs = vec![TypeScriptConfig { compiler_options: None, file_path: "tsconfig.json".to_string() }];
    let files = vec![file("f.ts", "f", "ts", 1, vec![import("f.ts", "@app/x", &["x"], false)])];
    let graph = extract_import_graph(&files, &configs);
    assert_eq!(node(&graph, "@app/x").id, 1);
}

#[test]
fn the_same_input_gives_the_same_graph() {
    let files = vec![
        file("a.ts", "a", "ts", 1, vec![import("a.ts", "./b.ts", &["x"], false)]),
        file("b.ts", "b", "ts", 1, vec![import("b.ts", "react", &[], true)]),
    ];
    let first = extract_import_graph(&files, &Vec::new());
    let second = extract_import_graph(&files, &Vec::new());
    assert_eq!(first, second);
}
