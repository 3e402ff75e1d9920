use react_analyzer::extract::{extract_import_graph, Edge, Node};
use react_analyzer::languages::{Import, ParsedFile};
use std::collections::HashMap;
use std::path::{Component, Path, PathBuf};

// The graph as a map from paths to nodes builds it, for files without
// aliases.

fn normalize(path: &Path) -> PathBuf {
    let mut ret = PathBuf::new();
    for component in path.components() {
        match component {
            Component::Prefix(..) => unreachable!(),
            Component::RootDir => {
                ret.push(component.as_os_str());
            }
            Component::CurDir => {}
            Component::ParentDir => {
                ret.pop();
            }
            Component::Normal(c) => {
                ret.push(c);
            }
        }
    }
    ret
}

fn graph_by_map(files: &Vec<ParsedFile>) -> (Vec<Node>, Vec<Edge>) {
    let mut node_count = 0;
    let mut edge_count = 0;
    let mut node_map: HashMap<String, Node> = HashMap::new();
    let mut edges: Vec<Edge> = Vec::new();
    for file in files {
        let file_path = &file.path;
        let path = PathBuf::from(&file.path).with_extension("");
        let file_name = match path.file_name() {
            Some(n) => n.to_str().unwrap_or(""),
            None => "",
        };
        let dir = match &path.parent() {
            Some(path) => path.display().to_string(),
            None => String::from(""),
        };
        if node_map.contains_key(&dir) && file_name == "index" {
            let old = node_map.get(&dir).unwrap();
            let id = old.id;
            let line_count = old.line_count;
            let real = PathBuf::from(&file.path);
            node_map.remove(&dir);
            node_map.insert(
                file_path.to_string(),
                Node {
                    id,
                    path: file_path.to_string(),
                    file_name: Some(real.file_name().unwrap().to_str().unwrap().to_string()),
                    extension: Some(real.extension().unwrap().to_str().unwrap().to_string()),
                    line_count,
                },
            );
        }
        if !node_map.contains_key(file_path) {
            node_map.insert(
                file_path.to_string(),
                Node {
                    id: node_count,
                    path: file_path.to_string(),
                    file_name: Some(file.name.clone()),
                    extension: Some(file.extension.clone()),
                    line_count: Some(file.line_count),
                },
            );
            node_count += 1;
        } else {
            let node = node_map.get_mut(file_path).unwrap();
            if node.file_name == None {
                node.file_name = Some(file.name.clone());
            }
            if node.extension == None {
                node.extension = Some(file.extension.clone());
            }
            if node.line_count == None {
                node.line_count = Some(file.line_count);
            }
        }
        for import in &file.imports {
            let mut src = import.source.clone();
            if src.starts_with(".") {
                let mut file_path = PathBuf::from(&import.file_path);
                file_path.pop();
                let source_path = Path::new(&file_path).join(Path::new(&src));
                src = normalize(&source_path).display().to_string();
            }
            if src.ends_with('/') {
                src.pop();
            }
            if !node_map.contains_key(&src) {
                node_map.insert(
                    src.to_string(),
                    Node { id: node_count, path: src.to_string(), file_name: None, extension: None, line_count: None },
                );
                node_count += 1;
            }
            for name in &import.named {
                edges.push(Edge {
                    id: edge_count,
                    source: node_map.get(&src).unwrap().id,
                    target: node_map.get(file_path).unwrap().id,
                    is_default: import.is_default,
                    name: name.to_string(),
                });
                edge_count += 1;
            }
            if import.is_default {
                edges.push(Edge {
                    id: edge_count,
                    source: node_map.get(&src).unwrap().id,
                    target: node_map.get(file_path).unwrap().id,
                    is_default: import.is_default,
                    name: String::from(""),
                });
                edge_count += 1;
            }
        }
    }
    let mut nodes: Vec<Node> = node_map.values().cloned().collect();
    nodes.sort_by_key(|n| n.id);
    (nodes, edges)
}

fn import(file_path: &str, source: &str, named: &[&str], is_default: bool) -> Import {
    Import {
        source: source.to_string(),
        file_path: file_path.to_string(),
        named: named.iter().map(|n| n.to_string()).collect(),
        is_default,
        line: 0,
    }
}

fn file(path: &str, line_count: usize, imports: &[(&str, &[&str], bool)]) -> ParsedFile {
    let p = Path::new(path);
    ParsedFile {
        line_count,
        imports: imports.iter().map(|(s, n, d)| import(path, s, n, *d)).collect(),
        exports: Vec::new(),
        name: p.file_stem().map(|s| s.to_str().unwrap().to_string()).unwrap_or_default(),
        extension: p.extension().map(|s| s.to_str().unwrap().to_string()).unwrap_or_default(),
        path: path.to_string(),
    }
}

fn projects() -> Vec<Vec<ParsedFile>> {
    vec![
        vec![],
        vec![file("a.ts", 1, &[])],
        vec![file("a.ts", 1, &[("./b", &["x"], false)]), file("b.ts", 2, &[])],
        vec![file("a.ts", 1, &[("./b.ts", &["x", "y"], true)]), file("b.ts", 2, &[("./a.ts", &[], true)])],
        vec![
            file("src/a.ts", 1, &[("./Foo", &["Foo"], false), ("react", &[], true), ("lodash/", &["x"], false)]),
            file("src/Foo/index.ts", 9, &[("../a.ts", &["a"], false), ("./Bar", &["Bar"], false)]),
            file("src/Foo/Bar/index.tsx", 4, &[("..", &[], true), (".", &["self"], false)]),
            file("src/Baz/index.js", 4, &[("../Foo", &["f"], false)]),
        ],
        vec![
            file("a.ts", 1, &[("./Foo", &["x"], false)]),
            file("b.ts", 1, &[("./Foo/index.ts", &["y"], false)]),
            file("Foo/index.ts", 9, &[("../c", &["z"], false)]),
            file("c.ts", 3, &[("./Foo/index.ts", &["w"], true)]),
        ],
        vec![
            file("index.ts", 5, &[("./a", &["a"], false)]),
            file("a/index.ts", 5, &[("..", &["root"], false), ("./", &[], true)]),
            file("a/index.ts", 7, &[("./b/../c", &["c"], false)]),
        ],
        vec![
            file("x/y.ts", 5, &[(".", &["dir"], false)]),
            file("x/index.ts", 6, &[]),
            file("x/index.ts", 8, &[("./y.ts", &[], true)]),
            file("z/index.jsx", 8, &[("../x", &["again"], false)]),
        ],
        vec![
            file("/abs/a.ts", 1, &[("./b", &["x"], false), ("../../../c", &["y"], false), ("/", &["r"], false)]),
            file("/abs/index.ts", 1, &[("pkg", &[], false), ("", &["e"], false)]),
        ],
    ]
}

#[test]
fn the_graph_is_what_a_map_from_paths_to_nodes_builds() {
    for (k, files) in projects().iter().enumerate() {
        let graph = extract_import_graph(files, &Vec::new());
        let (nodes, edges) = graph_by_map(files);
        let mut got = graph.nodes.clone();
        got.sort_by_key(|n| n.id);
        assert_eq!(got, nodes, "the nodes of project {}", k);
        assert_eq!(graph.edges, edges, "the edges of project {}", k);
    }
}
