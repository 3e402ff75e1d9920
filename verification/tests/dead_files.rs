use react_analyzer::dead_files::dead_file_probes;
use react_analyzer::extract::{extract_dead_files, extract_import_graph, Edge, ImportGraph, Node};
use react_analyzer::languages::{Import, ParsedFile};

fn node(id: usize, path: &str, extension: Option<&str>) -> Node {
    Node {
        id,
        path: path.to_string(),
        file_name: None,
        extension: extension.map(|e| e.to_string()),
        line_count: None,
    }
}

fn edge(id: usize, source: usize, target: usize) -> Edge {
    Edge { id, source, target, is_default: false, name: "x".to_string() }
}

fn names(list: &[&str]) -> Vec<String> {
    list.iter().map(|n| n.to_string()).collect()
}

fn file(path: &str, extension: &str, imports: Vec<Import>) -> ParsedFile {
    ParsedFile {
        line_count: 1,
        imports,
        exports: Vec::new(),
        name: path.to_string(),
        extension: extension.to_string(),
        path: path.to_string(),
    }
}

fn import(file_path: &str, source: &str, named: &[&str]) -> Import {
    Import {
        source: source.to_string(),
        file_path: file_path.to_string(),
        named: names(named),
        is_default: false,
        line: 0,
    }
}

#[test]
fn a_file_on_disk_that_nothing_imports_is_dead() {
    let graph = ImportGraph { nodes: vec![node(0, "util.ts", Some("ts"))], edges: vec![] };
    let (dead, unknown) = extract_dead_files(&graph, vec![], &vec![true]);
    assert_eq!(dead, names(&["util.ts"]));
    assert!(unknown.is_empty());
}

#[test]
fn an_import_that_points_at_no_file_is_unknown() {
    let files = vec![file("a.ts", "ts", vec![import("a.ts", "./missing", &[])])];
    let graph = extract_import_graph(&files, &Vec::new());
    let probes = dead_file_probes(&graph, &vec![], "/repo");
    assert_eq!(probes, vec![Some("/repo/a.ts".to_string()), Some("/repo/missing".to_string())]);
    let (dead, unknown) = extract_dead_files(&graph, vec![], &vec![true, false]);
    assert_eq!(dead, names(&["a.ts"]));
    assert_eq!(unknown, names(&["missing"]));
}

#[test]
fn a_connected_node_is_neither_dead_nor_unknown() {
    let graph = ImportGraph {
        nodes: vec![node(0, "a.ts", Some("ts")), node(1, "b.ts", Some("ts")), node(2, "c.ts", Some("ts"))],
        edges: vec![edge(0, 1, 0)],
    };
    let (dead, unknown) = extract_dead_files(&graph, vec![], &vec![true, false, true]);
    assert_eq!(dead, names(&["c.ts"]));
    assert!(unknown.is_empty());
    let probes = dead_file_probes(&graph, &vec![], "root");
    assert_eq!(probes, vec![None, None, Some("root/c.ts".to_string())]);
}

#[test]
fn a_declared_package_is_passed_over() {
    let graph = ImportGraph {
        nodes: vec![
            node(0, "lodash", None),
            node(1, "lodash/debounce", None),
            node(2, "@scope/pkg/sub/path", None),
            node(3, "lodashes", None),
            node(4, "other/lodash", None),
        ],
        edges: vec![],
    };
    let deps = names(&["lodash", "@scope/pkg"]);
    let probes = dead_file_probes(&graph, &deps, "r");
    assert_eq!(
        probes,
        vec![None, None, None, Some("r/lodashes".to_string()), Some("r/other/lodash".to_string())]
    );
    let (dead, unknown) = extract_dead_files(&graph, deps, &vec![true, true, true, false, true]);
    assert_eq!(dead, names(&["other/lodash"]));
    assert_eq!(unknown, names(&["lodashes"]));
}

#[test]
fn every_node_falls_into_exactly_one_class() {
    let graph = ImportGraph {
        nodes: vec![
            node(0, "a.ts", Some("ts")),
            node(1, "b.ts", Some("ts")),
            node(2, "react", None),
            node(3, "gone", None),
            node(4, "spare.ts", Some("ts")),
        ],
        edges: vec![edge(0, 1, 0)],
    };
    let deps = names(&["react"]);
    let on_disk = vec![true, true, false, false, true];
    let probes = dead_file_probes(&graph, &deps, "");
    let (dead, unknown) = extract_dead_files(&graph, deps.clone(), &on_disk);
    for (i, n) in graph.nodes.iter().enumerate() {
        let connected = graph.edges.iter().any(|e| e.source == n.id || e.target == n.id);
        let external = !connected && deps.contains(&n.path);
        let is_dead = dead.contains(&n.path);
        let is_unknown = unknown.contains(&n.path);
        let classes = [connected, external, is_dead, is_unknown];
        assert_eq!(classes.iter().filter(|c| **c).count(), 1, "node {}", n.path);
        assert_eq!(probes[i].is_some(), is_dead || is_unknown);
    }
    assert_eq!(dead, names(&["spare.ts"]));
    assert_eq!(unknown, names(&["gone"]));
}

#[test]
fn an_answer_that_is_missing_counts_as_not_found() {
    let graph = ImportGraph {
        nodes: vec![node(0, "a.ts", Some("ts")), node(1, "b.ts", Some("ts"))],
        edges: vec![],
    };
    let (dead, unknown) = extract_dead_files(&graph, vec![], &vec![true]);
    assert_eq!(dead, names(&["a.ts"]));
    assert_eq!(unknown, names(&["b.ts"]));
    let (dead, unknown) = extract_dead_files(&graph, vec![], &vec![]);
    assert!(dead.is_empty());
    assert_eq!(unknown, names(&["a.ts", "b.ts"]));
}

#[test]
fn a_probe_carries_the_extension_of_the_node() {
    let graph = ImportGraph {
        nodes: vec![
            node(0, "src/a.ts", Some("ts")),
            node(1, "src/b", Some("tsx")),
            node(2, "src/styles.css", None),
            node(3, "src/.env", None),
            node(4, "/abs/c.js", Some("js")),
            node(5, "src/d.test.js", Some("js")),
            node(6, "", None),
        ],
        edges: vec![],
    };
    let probes = dead_file_probes(&graph, &vec![], "/repo/web");
    assert_eq!(
        probes,
        vec![
            Some("/repo/web/src/a.ts".to_string()),
            Some("/repo/web/src/b.tsx".to_string()),
            Some("/repo/web/src/styles".to_string()),
            Some("/repo/web/src/.env".to_string()),
            Some("/abs/c.js".to_string()),
            Some("/repo/web/src/d.test.js".to_string()),
            Some("/repo/web".to_string()),
        ]
    );
}

#[test]
fn dead_and_unknown_keep_the_order_of_the_nodes() {
    let graph = ImportGraph {
        nodes: vec![node(0, "z", None), node(1, "y", None), node(2, "x", None), node(3, "w", None)],
        edges: vec![],
    };
    let (dead, unknown) = extract_dead_files(&graph, vec![], &vec![true, false, true, false]);
    assert_eq!(dead, names(&["z", "x"]));
    assert_eq!(unknown, names(&["y", "w"]));
}
