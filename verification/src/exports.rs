//! What each file exports, and to whom: the import graph read from the side
//! of the file that is imported from.

use std::collections::HashMap;
use vstd::prelude::*;
use crate::extract::{ImportGraph, ImportGraphView, NodeView};
use crate::text::{lemma_views_push, views};

verus! {

/// One binding that a file exports to an importer.
#[derive(Clone, Debug, PartialEq, Eq)]
pub struct Export {
    /// The name of the binding; empty for the default export.
    pub name: String,
    /// The path of the importing file.
    pub target: String,
    pub is_default: bool,
}

/// An export as a value of the model.
pub struct ExportView {
    pub name: Seq<char>,
    pub target: Seq<char>,
    pub is_default: bool,
}

impl View for Export {
    type V = ExportView;

    open spec fn view(&self) -> ExportView {
        ExportView { name: self.name@, target: self.target@, is_default: self.is_default }
    }
}

/// A file and what it exports to its importers.
#[derive(Clone, Debug, PartialEq, Eq)]
pub struct FileExports {
    /// The path of the exporting file.
    pub source: String,
    pub exports: Vec<Export>,
}

/// The exports of a file as a value of the model.
pub struct FileExportsView {
    pub source: Seq<char>,
    pub exports: Seq<ExportView>,
}

impl View for FileExports {
    type V = FileExportsView;

    open spec fn view(&self) -> FileExportsView {
        FileExportsView { source: self.source@, exports: views(self.exports@) }
    }
}

/// The position of the first among the first `n` nodes that has the given
/// id.
pub open spec fn node_index_among(nodes: Seq<NodeView>, id: nat, n: nat) -> Option<int>
    decreases n,
{
    if n == 0 {
        None
    } else {
        match node_index_among(nodes, id, (n - 1) as nat) {
            Some(i) => Some(i),
            None => if nodes[n - 1].id == id {
                Some(n - 1)
            } else {
                None
            },
        }
    }
}

/// The position of the first node with the given id.
pub open spec fn node_index(nodes: Seq<NodeView>, id: nat) -> Option<int> {
    node_index_among(nodes, id, nodes.len())
}

/// What the node with the id `source` exports along the first `n` edges, in
/// the order of the edges. An edge that leads to no node of the graph exports
/// nothing.
pub open spec fn exports_among(graph: ImportGraphView, source: nat, n: nat) -> Seq<ExportView>
    decreases n,
{
    if n == 0 {
        Seq::<ExportView>::empty()
    } else {
        let before = exports_among(graph, source, (n - 1) as nat);
        let edge = graph.edges[n - 1];
        if edge.source == source {
            match node_index(graph.nodes, edge.target) {
                Some(t) => before.push(
                    ExportView {
                        name: edge.name,
                        target: graph.nodes[t].path,
                        is_default: edge.is_default,
                    },
                ),
                None => before,
            }
        } else {
            before
        }
    }
}

/// Whether one of the first `n` edges begins at the node with the given id.
pub open spec fn is_source_among(graph: ImportGraphView, id: nat, n: nat) -> bool {
    exists|k: int| 0 <= k < n && (#[trigger] graph.edges[k]).source == id
}

/// Whether some edge begins at the node with the given id.
pub open spec fn is_source(graph: ImportGraphView, id: nat) -> bool {
    is_source_among(graph, id, graph.edges.len())
}

/// The exports of the first `n` nodes: one entry for each node that some edge
/// begins at, in the order of the nodes.
pub open spec fn file_exports_among(graph: ImportGraphView, n: nat) -> Seq<FileExportsView>
    decreases n,
{
    if n == 0 {
        Seq::<FileExportsView>::empty()
    } else {
        let before = file_exports_among(graph, (n - 1) as nat);
        let node = graph.nodes[n - 1];
        if is_source(graph, node.id) {
            before.push(
                FileExportsView {
                    source: node.path,
                    exports: exports_among(graph, node.id, graph.edges.len()),
                },
            )
        } else {
            before
        }
    }
}

/// The exports of the graph, file by file.
pub open spec fn file_exports_of(graph: ImportGraphView) -> Seq<FileExportsView> {
    file_exports_among(graph, graph.nodes.len())
}

/// What `node_index_among` finds has the id and stands among the first `n`
/// nodes.
pub proof fn lemma_node_index_among(nodes: Seq<NodeView>, id: nat, n: nat)
    ensures
        match node_index_among(nodes, id, n) {
            Some(i) => 0 <= i < n && nodes[i].id == id,
            None => forall|j: int| 0 <= j < n ==> (#[trigger] nodes[j]).id != id,
        },
    decreases n,
{
    if n > 0 {
        lemma_node_index_among(nodes, id, (n - 1) as nat);
    }
}

/// The table holds, for the given id, the first among the first `n` nodes
/// that has it, and nothing where none has it.
spec fn indexed(nodes: Seq<NodeView>, index: Map<usize, usize>, id: usize, n: nat) -> bool {
    match node_index_among(nodes, id as nat, n) {
        Some(i) => index.contains_key(id) && index[id] == i,
        None => !index.contains_key(id),
    }
}

/// For each id, the position of the first node that has it.
fn index_nodes(graph: &ImportGraph) -> (index: HashMap<usize, usize>)
    ensures
        forall|id: usize| #[trigger] indexed(graph@.nodes, index@, id, graph@.nodes.len()),
{
    let mut index: HashMap<usize, usize> = HashMap::new();
    let ghost nodes = graph@.nodes;
    let mut i: usize = 0;
    while i < graph.nodes.len()
        invariant
            i <= graph.nodes.len(),
            nodes == graph@.nodes,
            forall|id: usize| #[trigger] indexed(nodes, index@, id, i as nat),
        decreases graph.nodes.len() - i,
    {
        let id = graph.nodes[i].id;
        assert(nodes[i as int] == graph.nodes@[i as int]@);
        let ghost before = index@;
        assert(indexed(nodes, before, id, i as nat));
        if !index.contains_key(&id) {
            index.insert(id, i);
        }
        proof {
            assert forall|other: usize| #[trigger]
                indexed(nodes, index@, other, (i + 1) as nat) by {
                assert(indexed(nodes, before, other, i as nat));
            }
        }
        i += 1;
    }
    index
}

/// A copy of a list of exports.
fn copy_exports(exports: &Vec<Export>) -> (out: Vec<Export>)
    ensures
        views(out@) == views(exports@),
{
    let mut out: Vec<Export> = Vec::new();
    let mut i: usize = 0;
    while i < exports.len()
        invariant
            i <= exports.len(),
            views(out@) == views(exports@).take(i as int),
        decreases exports.len() - i,
    {
        let ghost before = out@;
        let e = &exports[i];
        let copy = Export { name: e.name.clone(), target: e.target.clone(), is_default: e.is_default };
        out.push(copy);
        proof {
            lemma_views_push(before, copy);
            assert(views(exports@).take(i + 1) =~= views(exports@).take(i as int).push(e@));
        }
        i += 1;
    }
    assert(views(exports@).take(exports.len() as int) =~= views(exports@));
    out
}

/// For each id that an edge begins at, what the node with that id exports.
fn group_exports(graph: &ImportGraph, index: &HashMap<usize, usize>) -> (groups: HashMap<
    usize,
    Vec<Export>,
>)
    requires
        forall|id: usize| #[trigger] indexed(graph@.nodes, index@, id, graph@.nodes.len()),
    ensures
        forall|id: usize| #[trigger] groups@.contains_key(id) <==> is_source(graph@, id as nat),
        forall|id: usize|
            #[trigger] groups@.contains_key(id) ==> views(groups@[id]@) == exports_among(
                graph@,
                id as nat,
                graph@.edges.len(),
            ),
{
    let mut groups: HashMap<usize, Vec<Export>> = HashMap::new();
    let ghost g = graph@;
    let mut k: usize = 0;
    while k < graph.edges.len()
        invariant
            k <= graph.edges.len(),
            g == graph@,
            forall|id: usize| #[trigger] indexed(g.nodes, index@, id, g.nodes.len()),
            forall|id: usize|
                #[trigger] groups@.contains_key(id) <==> is_source_among(g, id as nat, k as nat),
            forall|id: usize|
                #[trigger] groups@.contains_key(id) ==> views(groups@[id]@) == exports_among(
                    g,
                    id as nat,
                    k as nat,
                ),
        decreases graph.edges.len() - k,
    {
        let edge = &graph.edges[k];
        assert(g.edges[k as int] == edge@);
        let source = edge.source;
        let ghost before = groups@;
        let mut group = match groups.remove(&source) {
            Some(found) => found,
            None => {
                proof {
                    lemma_no_exports_yet(g, source as nat, k as nat);
                }
                Vec::new()
            },
        };
        assert(views(group@) =~= exports_among(g, source as nat, k as nat));
        proof {
            assert(indexed(g.nodes, index@, edge.target, g.nodes.len()));
            lemma_node_index_among(g.nodes, edge.target as nat, g.nodes.len());
        }
        match index.get(&edge.target) {
            Some(t) => {
                assert(node_index(g.nodes, edge.target as nat) == Some(*t as int));
                assert(g.nodes[*t as int] == graph.nodes@[*t as int]@);
                let ghost was = group@;
                let export = Export {
                    name: edge.name.clone(),
                    target: graph.nodes[*t].path.clone(),
                    is_default: edge.is_default,
                };
                group.push(export);
                proof {
                    lemma_views_push(was, export);
                }
            },
            None => {
                assert(node_index(g.nodes, edge.target as nat) is None);
            },
        }
        assert(views(group@) == exports_among(g, source as nat, (k + 1) as nat));
        groups.insert(source, group);
        proof {
            assert forall|id: usize| #[trigger]
                groups@.contains_key(id) <==> is_source_among(g, id as nat, (k + 1) as nat) by {
                if id == source {
                    assert(g.edges[k as int].source == id as nat);
                } else {
                    assert(groups@.contains_key(id) == before.contains_key(id));
                    if is_source_among(g, id as nat, (k + 1) as nat) {
                        let j = choose|j: int|
                            0 <= j < k + 1 && (#[trigger] g.edges[j]).source == id as nat;
                        assert(j < k);
                    }
                    if is_source_among(g, id as nat, k as nat) {
                        let j = choose|j: int|
                            0 <= j < k && (#[trigger] g.edges[j]).source == id as nat;
                        assert(0 <= j < k + 1);
                    }
                }
            }
            assert forall|id: usize| #[trigger] groups@.contains_key(id) implies views(
                groups@[id]@,
            ) == exports_among(g, id as nat, (k + 1) as nat) by {
                if id != source {
                    assert(before.contains_key(id));
                    assert(groups@[id] == before[id]);
                }
            }
        }
        k += 1;
    }
    groups
}

/// A node that no edge begins at exports nothing.
proof fn lemma_no_exports_yet(graph: ImportGraphView, source: nat, n: nat)
    requires
        !is_source_among(graph, source, n),
    ensures
        exports_among(graph, source, n) == Seq::<ExportView>::empty(),
    decreases n,
{
    if n > 0 {
        assert(graph.edges[n - 1].source != source);
        assert(!is_source_among(graph, source, (n - 1) as nat)) by {
            if is_source_among(graph, source, (n - 1) as nat) {
                let j = choose|j: int| 0 <= j < n - 1 && (#[trigger] graph.edges[j]).source == source;
                assert(0 <= j < n);
            }
        }
        lemma_no_exports_yet(graph, source, (n - 1) as nat);
    }
}

/// Turns the graph round: for each node that some edge begins at, in the
/// order of the nodes, the node's path and what it exports, one export for
/// each of its edges in their order: the edge's name, the path of the node
/// that the edge leads to, and whether it is the default export. A file that
/// nothing imports has no entry.
pub fn extract_exports(import_graph: &ImportGraph) -> (file_exports: Vec<FileExports>)
    ensures
        views(file_exports@) == file_exports_of(import_graph@),
{
    let index = index_nodes(import_graph);
    let groups = group_exports(import_graph, &index);
    let ghost g = import_graph@;
    let mut file_exports: Vec<FileExports> = Vec::new();
    let mut i: usize = 0;
    assert(views(file_exports@) =~= file_exports_among(g, 0));
    while i < import_graph.nodes.len()
        invariant
            i <= import_graph.nodes.len(),
            g == import_graph@,
            forall|id: usize| #[trigger] groups@.contains_key(id) <==> is_source(g, id as nat),
            forall|id: usize|
                #[trigger] groups@.contains_key(id) ==> views(groups@[id]@) == exports_among(
                    g,
                    id as nat,
                    g.edges.len(),
                ),
            views(file_exports@) == file_exports_among(g, i as nat),
        decreases import_graph.nodes.len() - i,
    {
        let node = &import_graph.nodes[i];
        assert(g.nodes[i as int] == node@);
        match groups.get(&node.id) {
            Some(group) => {
                assert(groups@.contains_key(node.id));
                let ghost before = file_exports@;
                let entry = FileExports { source: node.path.clone(), exports: copy_exports(group) };
                file_exports.push(entry);
                proof {
                    lemma_views_push(before, entry);
                }
            },
            None => {
                assert(!groups@.contains_key(node.id));
            },
        }
        i += 1;
    }
    file_exports
}

} // verus!
