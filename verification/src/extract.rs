//! The import graph of a source tree and what is read off it: the files that
//! nothing refers to, the imports that resolve to nothing, what each file
//! exports to which importer, and how often each declared package is used.

use vstd::prelude::*;
pub use crate::dead_files::extract_dead_files;
pub use crate::exports::{extract_exports, Export, FileExports};
pub use crate::package_json::{extract_package_json, PackageJsonExtract};
use crate::dead_files::{dead_among, dead_file_probes, probe_at, unknown_among};
use crate::exports::file_exports_of;
use crate::graph_build::{built, config_for, import_graph_of, Build};
use crate::graph_laws::{lemma_edges_resolve, lemma_nodes_are_distinct, nothing_given_up};
use crate::languages::{ParsedFile, ParsedFileView, TestFile, TestFileView};
use crate::package_json::{
    count_package_uses, import_count, lemma_import_count_grows, lemma_usage_names, package_names,
    packages_of, usage_of, PackageJson,
};
use crate::path_laws::lemma_normal_form_idempotent;
use crate::path_utils::{normal_form, normalize_text};
use crate::text::{decimal, opt_str, push_decimal, string_of, strs, views};
use crate::ts_config::{get_closest, TypeScriptConfig};

verus! {

/// A file, or the target of an import that no file has been found for yet.
/// A node is known by its path; its `id` is the order in which it was made.
#[derive(Clone, Debug, PartialEq, Eq)]
pub struct Node {
    pub id: usize,
    pub path: String,
    pub file_name: Option<String>,
    pub extension: Option<String>,
    pub line_count: Option<usize>,
}

/// A node as a value of the model.
pub struct NodeView {
    pub id: nat,
    pub path: Seq<char>,
    pub file_name: Option<Seq<char>>,
    pub extension: Option<Seq<char>>,
    pub line_count: Option<usize>,
}

impl View for Node {
    type V = NodeView;

    open spec fn view(&self) -> NodeView {
        NodeView {
            id: self.id as nat,
            path: self.path@,
            file_name: opt_str(self.file_name),
            extension: opt_str(self.extension),
            line_count: self.line_count,
        }
    }
}

/// One imported binding. It leads from the file that is imported from
/// (`source`) to the file that imports (`target`). An edge for a default
/// import has an empty name.
#[derive(Clone, Debug, PartialEq, Eq)]
pub struct Edge {
    pub id: usize,
    pub source: usize,
    pub target: usize,
    pub is_default: bool,
    pub name: String,
}

/// An edge as a value of the model.
pub struct EdgeView {
    pub id: nat,
    pub source: nat,
    pub target: nat,
    pub is_default: bool,
    pub name: Seq<char>,
}

impl View for Edge {
    type V = EdgeView;

    open spec fn view(&self) -> EdgeView {
        EdgeView {
            id: self.id as nat,
            source: self.source as nat,
            target: self.target as nat,
            is_default: self.is_default,
            name: self.name@,
        }
    }
}

/// The nodes and edges of a source tree.
#[derive(Clone, Debug, PartialEq, Eq)]
pub struct ImportGraph {
    pub nodes: Vec<Node>,
    pub edges: Vec<Edge>,
}

/// An import graph as a value of the model.
pub struct ImportGraphView {
    pub nodes: Seq<NodeView>,
    pub edges: Seq<EdgeView>,
}

impl View for ImportGraph {
    type V = ImportGraphView;

    open spec fn view(&self) -> ImportGraphView {
        ImportGraphView { nodes: views(self.nodes@), edges: views(self.edges@) }
    }
}

/// Whether some node of the graph has the given id.
pub open spec fn has_node(graph: ImportGraphView, id: nat) -> bool {
    exists|i: int| 0 <= i < graph.nodes.len() && (#[trigger] graph.nodes[i]).id == id
}

/// Every edge leads from a node of the graph to a node of the graph.
pub open spec fn edges_resolve(graph: ImportGraphView) -> bool {
    forall|k: int|
        0 <= k < graph.edges.len() ==> has_node(graph, (#[trigger] graph.edges[k]).source)
            && has_node(graph, graph.edges[k].target)
}

/// No two nodes have the same path.
pub open spec fn paths_distinct(nodes: Seq<NodeView>) -> bool {
    forall|i: int, j: int|
        0 <= i < nodes.len() && 0 <= j < nodes.len() && i != j ==> (#[trigger] nodes[i]).path != (
        #[trigger] nodes[j]).path
}

/// No two nodes have the same id.
pub open spec fn ids_distinct(nodes: Seq<NodeView>) -> bool {
    forall|i: int, j: int|
        0 <= i < nodes.len() && 0 <= j < nodes.len() && i != j ==> (#[trigger] nodes[i]).id != (
        #[trigger] nodes[j]).id
}

/// Builds the import graph of the files, which are taken in in the order in
/// which they stand. Each file gets a node under its path, or completes the
/// node that an earlier import made for that path; an entry file (`index`)
/// takes over the node of its directory. Each import gets a node for what it
/// resolves to, and one edge for each name that it binds.
///
/// No two nodes of the result have the same path or the same id. Every edge
/// leads from a node to a node as long as no node was given up for an entry
/// file.
pub fn extract_import_graph(files: &Vec<ParsedFile>, ts_configs: &Vec<TypeScriptConfig>) -> (graph:
    ImportGraph)
    ensures
        graph@ == import_graph_of(views(files@), views(ts_configs@)),
        paths_distinct(graph@.nodes),
        ids_distinct(graph@.nodes),
        nothing_given_up(views(files@), views(ts_configs@)) ==> edges_resolve(graph@),
{
    let ghost all = views(files@);
    let ghost configs = views(ts_configs@);
    let mut build = Build::new();
    let mut i: usize = 0;
    while i < files.len()
        invariant
            i <= files.len(),
            all == views(files@),
            configs == views(ts_configs@),
            build@ == built(all, configs, i as nat),
        decreases files.len() - i,
    {
        let file = &files[i];
        assert(all[i as int] == file@);
        let config = get_closest(ts_configs, file.path.as_str());
        assert(config_for(configs, file@.path) == match config {
            Some(c) => Some(c@),
            None => None,
        });
        build.add_file(config, file);
        i += 1;
    }
    proof {
        lemma_nodes_are_distinct(all, configs);
        if nothing_given_up(all, configs) {
            lemma_edges_resolve(all, configs);
        }
    }
    build.finish()
}

/// The totals of a run.
#[derive(Clone, Copy, Debug, PartialEq, Eq)]
pub struct Summary {
    pub line_count: usize,
    pub import_count: usize,
    pub file_count: usize,
    pub unused_file_count: usize,
}

/// Everything that a run finds out.
#[derive(Clone, Debug, PartialEq, Eq)]
pub struct Output {
    pub import_graph: ImportGraph,
    pub dead_files: Vec<String>,
    pub unknown_imports: Vec<String>,
    pub exports: Vec<FileExports>,
    pub summary: Summary,
    pub package_json: PackageJsonExtract,
}

/// The report on the test files; it holds nothing yet.
#[derive(Clone, Copy, Debug, PartialEq, Eq)]
pub struct TestOutput {}

/// The totals of the test files.
#[derive(Clone, Copy, Debug, PartialEq, Eq)]
pub struct TestSummary {
    pub count: usize,
    pub skipped_count: usize,
    pub line_count: usize,
}

/// The lines of the first `n` files, added up.
pub open spec fn line_total(files: Seq<ParsedFileView>, n: nat) -> nat
    decreases n,
{
    if n == 0 {
        0
    } else {
        line_total(files, (n - 1) as nat) + files[n - 1].line_count as nat
    }
}

/// The tests of the first `n` test files, added up.
pub open spec fn test_total(files: Seq<TestFileView>, n: nat) -> nat
    decreases n,
{
    if n == 0 {
        0
    } else {
        test_total(files, (n - 1) as nat) + files[n - 1].test_count as nat
    }
}

/// The skipped tests of the first `n` test files, added up.
pub open spec fn skipped_total(files: Seq<TestFileView>, n: nat) -> nat
    decreases n,
{
    if n == 0 {
        0
    } else {
        skipped_total(files, (n - 1) as nat) + files[n - 1].skipped_test_count as nat
    }
}

/// The lines of the first `n` test files, added up.
pub open spec fn test_line_total(files: Seq<TestFileView>, n: nat) -> nat
    decreases n,
{
    if n == 0 {
        0
    } else {
        test_line_total(files, (n - 1) as nat) + files[n - 1].line_count as nat
    }
}

/// The more files, the more lines.
proof fn lemma_line_total_grows(files: Seq<ParsedFileView>, n: nat, m: nat)
    requires
        n <= m,
    ensures
        line_total(files, n) <= line_total(files, m),
    decreases m,
{
    if n < m {
        lemma_line_total_grows(files, n, (m - 1) as nat);
    }
}

/// The more test files, the larger each total.
proof fn lemma_test_totals_grow(files: Seq<TestFileView>, n: nat, m: nat)
    requires
        n <= m,
    ensures
        test_total(files, n) <= test_total(files, m),
        skipped_total(files, n) <= skipped_total(files, m),
        test_line_total(files, n) <= test_line_total(files, m),
    decreases m,
{
    if n < m {
        lemma_test_totals_grow(files, n, (m - 1) as nat);
    }
}

impl Summary {
    /// The summary in four lines of text.
    pub fn to_text(&self) -> (text: String)
        ensures
            text@ == "Total Files:     "@ + decimal(self.file_count as nat)
                + "\nTotal Lines:     "@ + decimal(self.line_count as nat)
                + "\nTotal Imports:   "@ + decimal(self.import_count as nat)
                + "\nDead Files:      "@ + decimal(self.unused_file_count as nat),
    {
        let mut text = String::new();
        text.append("Total Files:     ");
        push_decimal(&mut text, self.file_count);
        text.append("\nTotal Lines:     ");
        push_decimal(&mut text, self.line_count);
        text.append("\nTotal Imports:   ");
        push_decimal(&mut text, self.import_count);
        text.append("\nDead Files:      ");
        push_decimal(&mut text, self.unused_file_count);
        assert(text@ =~= "Total Files:     "@ + decimal(self.file_count as nat)
            + "\nTotal Lines:     "@ + decimal(self.line_count as nat) + "\nTotal Imports:   "@
            + decimal(self.import_count as nat) + "\nDead Files:      "@ + decimal(
            self.unused_file_count as nat,
        ));
        text
    }
}

impl TestSummary {
    /// The summary in three lines of text.
    pub fn to_text(&self) -> (text: String)
        ensures
            text@ == "Total Tests:     "@ + decimal(self.count as nat) + "\nSkipped Tests:   "@
                + decimal(self.skipped_count as nat) + "\nTotal Lines:     "@ + decimal(
                self.line_count as nat,
            ),
    {
        let mut text = String::new();
        text.append("Total Tests:     ");
        push_decimal(&mut text, self.count);
        text.append("\nSkipped Tests:   ");
        push_decimal(&mut text, self.skipped_count);
        text.append("\nTotal Lines:     ");
        push_decimal(&mut text, self.line_count);
        assert(text@ =~= "Total Tests:     "@ + decimal(self.count as nat)
            + "\nSkipped Tests:   "@ + decimal(self.skipped_count as nat)
            + "\nTotal Lines:     "@ + decimal(self.line_count as nat));
        text
    }
}

/// The normal form of a path: each `.` dropped, each `..` resolved against
/// the component before it. Purely lexical: nothing is looked up on disk.
pub fn normalize_path(path: &str) -> (normal: String)
    ensures
        normal@ == normal_form(path@),
        normal_form(normal@) == normal@,
{
    let text = normalize_text(path);
    proof {
        lemma_normal_form_idempotent(path@);
    }
    string_of(&text)
}

/// For each node of the import graph of the files, in order, what has to be
/// looked for below `root` before `extract` can tell the dead files from the
/// unknown imports.
pub fn extract_probes(
    root: &str,
    files: &Vec<ParsedFile>,
    package_jsons: &Vec<PackageJson>,
    ts_configs: &Vec<TypeScriptConfig>,
) -> (probes: Vec<Option<String>>)
    requires
        import_count(views(files@), files.len() as nat) <= usize::MAX,
    ensures
        probes.len() == import_graph_of(views(files@), views(ts_configs@)).nodes.len(),
        forall|i: int|
            0 <= i < probes.len() ==> opt_str(#[trigger] probes[i]) == probe_at(
                import_graph_of(views(files@), views(ts_configs@)),
                packages_of(views(package_jsons@)),
                root@,
                i,
            ),
{
    let graph = extract_import_graph(files, ts_configs);
    let usage = count_package_uses(files, package_jsons);
    let dependencies = package_names(&usage);
    proof {
        lemma_usage_names(views(files@), views(package_jsons@));
    }
    dead_file_probes(&graph, &dependencies, root)
}

/// Runs the whole analysis on the files of a project: the import graph, the
/// use of the declared packages, the dead files and unknown imports among
/// the nodes that nothing refers to, the exports file by file, and the
/// totals. `on_disk` answers, node by node, what `extract_probes` asks.
pub fn extract(
    files: Vec<ParsedFile>,
    package_jsons: Vec<PackageJson>,
    ts_configs: Vec<TypeScriptConfig>,
    on_disk: &Vec<bool>,
) -> (output: Output)
    requires
        import_count(views(files@), files.len() as nat) <= usize::MAX,
        line_total(views(files@), files.len() as nat) <= usize::MAX,
    ensures
        output.import_graph@ == import_graph_of(views(files@), views(ts_configs@)),
        output.package_json@ == usage_of(views(files@), views(package_jsons@)),
        strs(output.dead_files@) == dead_among(
            output.import_graph@,
            packages_of(views(package_jsons@)),
            on_disk@,
            output.import_graph@.nodes.len(),
        ),
        strs(output.unknown_imports@) == unknown_among(
            output.import_graph@,
            packages_of(views(package_jsons@)),
            on_disk@,
            output.import_graph@.nodes.len(),
        ),
        views(output.exports@) == file_exports_of(output.import_graph@),
        output.summary.file_count == files.len(),
        output.summary.line_count == line_total(views(files@), files.len() as nat),
        output.summary.import_count == import_count(views(files@), files.len() as nat),
        output.summary.unused_file_count == output.dead_files.len(),
{
    let file_count = files.len();
    let import_graph = extract_import_graph(&files, &ts_configs);
    let package_json = count_package_uses(&files, &package_jsons);
    let dependencies = package_names(&package_json);
    proof {
        lemma_usage_names(views(files@), views(package_jsons@));
    }
    let (dead_files, unknown_imports) = extract_dead_files(&import_graph, dependencies, on_disk);
    let exports = extract_exports(&import_graph);
    let ghost all = views(files@);
    let mut line_count: usize = 0;
    let mut imports: usize = 0;
    let mut i: usize = 0;
    while i < files.len()
        invariant
            i <= files.len(),
            all == views(files@),
            line_count == line_total(all, i as nat),
            imports == import_count(all, i as nat),
            import_count(all, files.len() as nat) <= usize::MAX,
            line_total(all, files.len() as nat) <= usize::MAX,
        decreases files.len() - i,
    {
        assert(all[i as int] == files@[i as int]@);
        proof {
            lemma_line_total_grows(all, (i + 1) as nat, files.len() as nat);
            lemma_import_count_grows(all, (i + 1) as nat, files.len() as nat);
        }
        line_count += files[i].line_count;
        imports += files[i].imports.len();
        i += 1;
    }
    let summary = Summary {
        line_count,
        import_count: imports,
        file_count,
        unused_file_count: dead_files.len(),
    };
    Output { import_graph, dead_files, unknown_imports, exports, summary, package_json }
}

/// Adds up the tests, the skipped tests and the lines of the test files.
pub fn extract_test_files(test_files: Vec<TestFile>) -> (r: (TestSummary, TestOutput))
    requires
        test_total(views(test_files@), test_files.len() as nat) <= usize::MAX,
        skipped_total(views(test_files@), test_files.len() as nat) <= usize::MAX,
        test_line_total(views(test_files@), test_files.len() as nat) <= usize::MAX,
    ensures
        r.0.count == test_total(views(test_files@), test_files.len() as nat),
        r.0.skipped_count == skipped_total(views(test_files@), test_files.len() as nat),
        r.0.line_count == test_line_total(views(test_files@), test_files.len() as nat),
{
    let ghost all = views(test_files@);
    let mut count: usize = 0;
    let mut skipped_count: usize = 0;
    let mut line_count: usize = 0;
    let mut i: usize = 0;
    while i < test_files.len()
        invariant
            i <= test_files.len(),
            all == views(test_files@),
            count == test_total(all, i as nat),
            skipped_count == skipped_total(all, i as nat),
            line_count == test_line_total(all, i as nat),
            test_total(all, test_files.len() as nat) <= usize::MAX,
            skipped_total(all, test_files.len() as nat) <= usize::MAX,
            test_line_total(all, test_files.len() as nat) <= usize::MAX,
        decreases test_files.len() - i,
    {
        assert(all[i as int] == test_files@[i as int]@);
        proof {
            lemma_test_totals_grow(all, (i + 1) as nat, test_files.len() as nat);
        }
        count += test_files[i].test_count;
        skipped_count += test_files[i].skipped_test_count;
        line_count += test_files[i].line_count;
        i += 1;
    }
    (TestSummary { count, skipped_count, line_count }, TestOutput {  })
}

} // verus!
