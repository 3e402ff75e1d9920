//! What holds of every import graph that is built from files.

use vstd::prelude::*;
use crate::extract::{edges_resolve, has_node, ids_distinct, paths_distinct, NodeView};
use crate::graph_build::{
    all_live, built, completed, config_for, default_edges, file_node, given_up, graph_of, holds,
    id_of, import_edges, import_graph_of, lemma_slot_of, lemma_slot_of_is, live_nodes, named_edges,
    placeholder, slot_of, taken_over, well_built, with_file, with_import, with_imports, with_node,
    with_own_node, BuildView, SlotView,
};
use crate::languages::{ImportView, ParsedFileView};
use crate::path_utils::{components, is_index_file};
use crate::ts_config::TypeScriptConfigView;

verus! {

/// No file among the first `n` gave up a node of the graph.
pub open spec fn nothing_given_up(
    files: Seq<ParsedFileView>,
    configs: Seq<TypeScriptConfigView>,
) -> bool {
    all_live(built(files, configs, files.len()))
}

/// Making sure of a node keeps the graph in order, and the node is there
/// afterwards.
pub proof fn lemma_with_node(b: BuildView, path: Seq<char>)
    requires
        well_built(b),
    ensures
        well_built(with_node(b, path)),
        with_node(b, path).slots.len() >= b.slots.len(),
        with_node(b, path).edges == b.edges,
        slot_of(with_node(b, path).slots, path) is Some,
        id_of(with_node(b, path).slots, path) < with_node(b, path).slots.len(),
        all_live(b) ==> all_live(with_node(b, path)),
{
    lemma_slot_of(b.slots, path);
    let after = with_node(b, path);
    if slot_of(b.slots, path) is None {
        let n = b.slots.len() as int;
        assert(after.slots[n] == SlotView { node: placeholder(n as nat, path), live: true });
        assert forall|i: int| 0 <= i < n implies after.slots[i] == b.slots[i] by {}
        assert forall|j: int| 0 <= j < n implies !holds(#[trigger] after.slots[j], path) by {
            assert(after.slots[j] == b.slots[j]);
        }
        lemma_slot_of_is(after.slots, path, n);
        assert(well_built(after)) by {
            assert forall|i: int, j: int|
                0 <= i < after.slots.len() && 0 <= j < after.slots.len() && i != j && (
                #[trigger] after.slots[i]).live && (#[trigger] after.slots[j]).live implies after.slots[i].node.path
                != after.slots[j].node.path by {
                if i < n && j < n {
                    assert(after.slots[i] == b.slots[i]);
                    assert(after.slots[j] == b.slots[j]);
                } else if i < n {
                    assert(!holds(after.slots[i], path));
                } else {
                    assert(!holds(after.slots[j], path));
                }
            }
            assert forall|i: int| 0 <= i < after.slots.len() implies (
            #[trigger] after.slots[i]).node.id == i by {
                if i < n {
                    assert(after.slots[i] == b.slots[i]);
                }
            }
        }
        if all_live(b) {
            assert forall|i: int| 0 <= i < after.slots.len() implies (
            #[trigger] after.slots[i]).live by {
                if i < n {
                    assert(after.slots[i] == b.slots[i]);
                }
            }
        }
    } else {
        let i = slot_of(b.slots, path)->0;
        assert(b.slots[i].node.id == i);
    }
}

/// Taking in an import keeps the graph in order.
pub proof fn lemma_with_import(b: BuildView, key: Seq<char>, target: nat, import: ImportView)
    requires
        well_built(b),
        target < b.slots.len(),
    ensures
        well_built(with_import(b, key, target, import)),
        with_import(b, key, target, import).slots.len() >= b.slots.len(),
        all_live(b) ==> all_live(with_import(b, key, target, import)),
{
    lemma_with_node(b, key);
    let b1 = with_node(b, key);
    let after = with_import(b, key, target, import);
    let first = b1.edges.len();
    let source = id_of(b1.slots, key);
    let added = import_edges(first, source, target, import);
    let named = named_edges(first, source, target, import.is_default, import.named);
    assert forall|k: int| 0 <= k < after.edges.len() implies {
        &&& (#[trigger] after.edges[k]).id == k
        &&& after.edges[k].source < after.slots.len()
        &&& after.edges[k].target < after.slots.len()
    } by {
        if k < first {
            assert(after.edges[k] == b.edges[k]);
        } else {
            assert(after.edges[k] == added[k - first]);
            if k - first < named.len() {
                assert(added[k - first] == named[k - first]);
            } else {
                assert(added[k - first] == default_edges(
                    first + import.named.len(),
                    source,
                    target,
                    import.is_default,
                )[k - first - named.len()]);
            }
        }
    }
}

/// Taking in the imports of a file keeps the graph in order.
pub proof fn lemma_with_imports(
    b: BuildView,
    config: Option<TypeScriptConfigView>,
    imports: Seq<ImportView>,
    target: nat,
    n: nat,
)
    requires
        well_built(b),
        target < b.slots.len(),
    ensures
        well_built(with_imports(b, config, imports, target, n)),
        with_imports(b, config, imports, target, n).slots.len() >= b.slots.len(),
        all_live(b) ==> all_live(with_imports(b, config, imports, target, n)),
    decreases n,
{
    if n > 0 {
        lemma_with_imports(b, config, imports, target, (n - 1) as nat);
        lemma_with_import(
            with_imports(b, config, imports, target, (n - 1) as nat),
            crate::resolve::key_for(config, imports[n - 1]),
            target,
            imports[n - 1],
        );
    }
}

/// An entry file that takes over the node of its directory keeps the graph in
/// order.
pub proof fn lemma_taken_over(b: BuildView, path: Seq<char>)
    requires
        well_built(b),
    ensures
        well_built(taken_over(b, path)),
        taken_over(b, path).slots.len() == b.slots.len(),
        !is_index_file(components(path)) ==> taken_over(b, path) == b,
{
    let after = taken_over(b, path);
    if is_index_file(components(path)) {
        let dir = crate::graph_build::dir_key(path);
        lemma_slot_of(b.slots, dir);
        match slot_of(b.slots, dir) {
            Some(d) => {
                lemma_slot_of(b.slots, path);
                let mid = given_up(b.slots, path, d);
                assert(mid.len() == b.slots.len());
                // no live node but `d` has the path once the other was given up
                assert forall|j: int| 0 <= j < mid.len() && j != d implies !holds(
                    #[trigger] mid[j],
                    path,
                ) by {
                    match slot_of(b.slots, path) {
                        Some(o) => {
                            if j != o {
                                assert(mid[j] == b.slots[j]);
                                if holds(b.slots[j], path) {
                                    assert(b.slots[o].live && b.slots[j].live);
                                    assert(false);
                                }
                            }
                        },
                        None => {
                            assert(mid[j] == b.slots[j]);
                        },
                    }
                }
                assert forall|i: int| 0 <= i < mid.len() implies (#[trigger] mid[i]).node
                    == b.slots[i].node && (mid[i].live ==> b.slots[i].live) by {}
                assert forall|i: int| 0 <= i < after.slots.len() implies (
                #[trigger] after.slots[i]).node.id == i by {
                    if i != d {
                        assert(after.slots[i] == mid[i]);
                    }
                    assert(b.slots[i].node.id == i);
                }
                assert forall|i: int, j: int|
                    0 <= i < after.slots.len() && 0 <= j < after.slots.len() && i != j && (
                    #[trigger] after.slots[i]).live && (#[trigger] after.slots[j]).live implies after.slots[i].node.path
                    != after.slots[j].node.path by {
                    if i == d {
                        assert(after.slots[j] == mid[j]);
                        assert(!holds(mid[j], path));
                    } else if j == d {
                        assert(after.slots[i] == mid[i]);
                        assert(!holds(mid[i], path));
                    } else {
                        assert(after.slots[i] == mid[i]);
                        assert(after.slots[j] == mid[j]);
                        assert(b.slots[i].live && b.slots[j].live);
                    }
                }
            },
            None => {},
        }
    }
}

/// Giving a file its own node keeps the graph in order, and the node is
/// there afterwards.
pub proof fn lemma_with_own_node(b: BuildView, file: ParsedFileView)
    requires
        well_built(b),
    ensures
        well_built(with_own_node(b, file)),
        with_own_node(b, file).slots.len() >= b.slots.len(),
        slot_of(with_own_node(b, file).slots, file.path) is Some,
        id_of(with_own_node(b, file).slots, file.path) < with_own_node(b, file).slots.len(),
        all_live(b) && !is_index_file(components(file.path)) ==> all_live(with_own_node(b, file)),
{
    lemma_taken_over(b, file.path);
    let b1 = taken_over(b, file.path);
    let after = with_own_node(b, file);
    lemma_slot_of(b1.slots, file.path);
    match slot_of(b1.slots, file.path) {
        Some(i) => {
            assert forall|j: int| 0 <= j < after.slots.len() implies (
            #[trigger] after.slots[j]).node.path == b1.slots[j].node.path && after.slots[j].live
                == b1.slots[j].live && after.slots[j].node.id == b1.slots[j].node.id by {}
            assert forall|j: int| 0 <= j < i implies !holds(#[trigger] after.slots[j], file.path) by {
                assert(!holds(b1.slots[j], file.path));
            }
            lemma_slot_of_is(after.slots, file.path, i);
            assert(b1.slots[i].node.id == i);
            assert(well_built(after)) by {
                assert forall|x: int, y: int|
                    0 <= x < after.slots.len() && 0 <= y < after.slots.len() && x != y && (
                    #[trigger] after.slots[x]).live && (#[trigger] after.slots[y]).live implies after.slots[x].node.path
                    != after.slots[y].node.path by {
                    assert(b1.slots[x].live && b1.slots[y].live);
                }
                assert forall|x: int| 0 <= x < after.slots.len() implies (
                #[trigger] after.slots[x]).node.id == x by {
                    assert(b1.slots[x].node.id == x);
                }
            }
            if all_live(b) && !is_index_file(components(file.path)) {
                assert forall|x: int| 0 <= x < after.slots.len() implies (
                #[trigger] after.slots[x]).live by {
                    assert(b1.slots[x].live);
                }
            }
        },
        None => {
            let n = b1.slots.len() as int;
            assert(after.slots[n] == SlotView { node: file_node(n as nat, file), live: true });
            assert forall|j: int| 0 <= j < n implies after.slots[j] == b1.slots[j] by {}
            assert forall|j: int| 0 <= j < n implies !holds(#[trigger] after.slots[j], file.path) by {
                assert(after.slots[j] == b1.slots[j]);
            }
            lemma_slot_of_is(after.slots, file.path, n);
            assert(well_built(after)) by {
                assert forall|x: int, y: int|
                    0 <= x < after.slots.len() && 0 <= y < after.slots.len() && x != y && (
                    #[trigger] after.slots[x]).live && (#[trigger] after.slots[y]).live implies after.slots[x].node.path
                    != after.slots[y].node.path by {
                    if x < n && y < n {
                        assert(after.slots[x] == b1.slots[x]);
                        assert(after.slots[y] == b1.slots[y]);
                    } else if x < n {
                        assert(!holds(after.slots[x], file.path));
                    } else {
                        assert(!holds(after.slots[y], file.path));
                    }
                }
                assert forall|x: int| 0 <= x < after.slots.len() implies (
                #[trigger] after.slots[x]).node.id == x by {
                    if x < n {
                        assert(after.slots[x] == b1.slots[x]);
                    }
                }
            }
            if all_live(b) && !is_index_file(components(file.path)) {
                assert forall|x: int| 0 <= x < after.slots.len() implies (
                #[trigger] after.slots[x]).live by {
                    if x < n {
                        assert(after.slots[x] == b1.slots[x]);
                    }
                }
            }
        },
    }
}

/// Taking in a file keeps the graph in order.
pub proof fn lemma_with_file(b: BuildView, configs: Seq<TypeScriptConfigView>, file: ParsedFileView)
    requires
        well_built(b),
    ensures
        well_built(with_file(b, configs, file)),
        all_live(b) && !is_index_file(components(file.path)) ==> all_live(
            with_file(b, configs, file),
        ),
{
    lemma_with_own_node(b, file);
    let b1 = with_own_node(b, file);
    lemma_with_imports(
        b1,
        config_for(configs, file.path),
        file.imports,
        id_of(b1.slots, file.path),
        file.imports.len(),
    );
}

/// The graph is in order after any number of files.
pub proof fn lemma_built(files: Seq<ParsedFileView>, configs: Seq<TypeScriptConfigView>, n: nat)
    ensures
        well_built(built(files, configs, n)),
    decreases n,
{
    if n > 0 {
        lemma_built(files, configs, (n - 1) as nat);
        lemma_with_file(built(files, configs, (n - 1) as nat), configs, files[n - 1]);
    }
}

/// Every node of the graph stands in a live slot.
pub proof fn lemma_live_nodes_from_slots(slots: Seq<SlotView>)
    ensures
        forall|k: int|
            0 <= k < live_nodes(slots).len() ==> exists|i: int|
                0 <= i < slots.len() && (#[trigger] slots[i]).live && slots[i].node
                    == #[trigger] live_nodes(slots)[k],
    decreases slots.len(),
{
    if slots.len() > 0 {
        let init = slots.drop_last();
        lemma_live_nodes_from_slots(init);
        let nodes = live_nodes(slots);
        assert forall|k: int| 0 <= k < nodes.len() implies exists|i: int|
            0 <= i < slots.len() && (#[trigger] slots[i]).live && slots[i].node
                == #[trigger] nodes[k] by {
            if k < live_nodes(init).len() {
                assert(nodes[k] == live_nodes(init)[k]);
                let i = choose|i: int|
                    0 <= i < init.len() && (#[trigger] init[i]).live && init[i].node == live_nodes(
                        init,
                    )[k];
                assert(slots[i] == init[i]);
            } else {
                let i = slots.len() - 1;
                assert(slots[i].live && slots[i].node == nodes[k]);
            }
        }
    }
}

/// Every live slot's node is a node of the graph.
pub proof fn lemma_live_slot_is_node(slots: Seq<SlotView>, i: int)
    requires
        0 <= i < slots.len(),
        slots[i].live,
    ensures
        exists|k: int|
            0 <= k < live_nodes(slots).len() && #[trigger] live_nodes(slots)[k] == slots[i].node,
    decreases slots.len(),
{
    let init = slots.drop_last();
    if i == slots.len() - 1 {
        let k = live_nodes(slots).len() - 1;
        assert(live_nodes(slots)[k] == slots[i].node);
    } else {
        assert(init[i] == slots[i]);
        lemma_live_slot_is_node(init, i);
        let k = choose|k: int|
            0 <= k < live_nodes(init).len() && #[trigger] live_nodes(init)[k] == init[i].node;
        assert(live_nodes(slots)[k] == live_nodes(init)[k]);
    }
}

/// Live nodes with distinct paths, in slots that give their ids, make a
/// graph of nodes with distinct paths and distinct ids.
proof fn lemma_live_nodes_distinct(slots: Seq<SlotView>)
    requires
        forall|i: int| 0 <= i < slots.len() ==> (#[trigger] slots[i]).node.id == i,
        forall|i: int, j: int|
            0 <= i < slots.len() && 0 <= j < slots.len() && i != j && (#[trigger] slots[i]).live
                && (#[trigger] slots[j]).live ==> slots[i].node.path != slots[j].node.path,
    ensures
        paths_distinct(live_nodes(slots)),
        ids_distinct(live_nodes(slots)),
    decreases slots.len(),
{
    if slots.len() > 0 {
        let init = slots.drop_last();
        let last = slots.last();
        assert forall|i: int| 0 <= i < init.len() implies init[i] == slots[i] by {}
        lemma_live_nodes_distinct(init);
        lemma_live_nodes_from_slots(init);
        let nodes = live_nodes(slots);
        let before = live_nodes(init);
        if last.live {
            assert forall|k: int| 0 <= k < before.len() implies (#[trigger] before[k]).path
                != last.node.path && before[k].id != last.node.id by {
                let i = choose|i: int|
                    0 <= i < init.len() && (#[trigger] init[i]).live && init[i].node == before[k];
                assert(slots[i] == init[i]);
                assert(slots[i].live && slots[slots.len() - 1].live);
                assert(slots[i].node.id == i);
                assert(slots[slots.len() - 1].node.id == slots.len() - 1);
            }
            assert forall|x: int, y: int|
                0 <= x < nodes.len() && 0 <= y < nodes.len() && x != y implies (
            #[trigger] nodes[x]).path != (#[trigger] nodes[y]).path && nodes[x].id
                != nodes[y].id by {
                if x < before.len() && y < before.len() {
                    assert(nodes[x] == before[x]);
                    assert(nodes[y] == before[y]);
                } else if x < before.len() {
                    assert(nodes[x] == before[x]);
                } else {
                    assert(nodes[y] == before[y]);
                }
            }
        }
    }
}

/// No two nodes of an import graph have the same path, and no two the same
/// id.
pub proof fn lemma_nodes_are_distinct(
    files: Seq<ParsedFileView>,
    configs: Seq<TypeScriptConfigView>,
)
    ensures
        paths_distinct(import_graph_of(files, configs).nodes),
        ids_distinct(import_graph_of(files, configs).nodes),
{
    lemma_built(files, configs, files.len());
    lemma_live_nodes_distinct(built(files, configs, files.len()).slots);
}

/// The edges of an import graph are numbered in order.
pub proof fn lemma_edges_are_numbered(
    files: Seq<ParsedFileView>,
    configs: Seq<TypeScriptConfigView>,
)
    ensures
        forall|k: int|
            0 <= k < import_graph_of(files, configs).edges.len() ==> (
            #[trigger] import_graph_of(files, configs).edges[k]).id == k,
{
    lemma_built(files, configs, files.len());
}

/// Every edge of an import graph leads from a node of the graph to a node of
/// the graph, as long as no node was given up while the graph was built.
pub proof fn lemma_edges_resolve(files: Seq<ParsedFileView>, configs: Seq<TypeScriptConfigView>)
    requires
        nothing_given_up(files, configs),
    ensures
        edges_resolve(import_graph_of(files, configs)),
{
    let b = built(files, configs, files.len());
    lemma_built(files, configs, files.len());
    let g = graph_of(b);
    assert forall|k: int| 0 <= k < g.edges.len() implies has_node(g, (#[trigger] g.edges[k]).source)
        && has_node(g, g.edges[k].target) by {
        let s = g.edges[k].source as int;
        let t = g.edges[k].target as int;
        assert(b.edges[k].source < b.slots.len());
        assert(b.slots[s].live && b.slots[s].node.id == s);
        assert(b.slots[t].live && b.slots[t].node.id == t);
        lemma_live_slot_is_node(b.slots, s);
        lemma_live_slot_is_node(b.slots, t);
    }
}

/// No node is given up where no file is the entry file of a directory.
pub proof fn lemma_nothing_given_up(
    files: Seq<ParsedFileView>,
    configs: Seq<TypeScriptConfigView>,
    n: nat,
)
    requires
        n <= files.len(),
        forall|i: int| 0 <= i < n ==> !is_index_file(components((#[trigger] files[i]).path)),
    ensures
        all_live(built(files, configs, n)),
    decreases n,
{
    if n > 0 {
        lemma_nothing_given_up(files, configs, (n - 1) as nat);
        lemma_built(files, configs, (n - 1) as nat);
        lemma_with_file(built(files, configs, (n - 1) as nat), configs, files[n - 1]);
    }
}

/// The number of edges that an import adds: one for each name that it binds,
/// and one more where it binds the default export.
pub open spec fn bindings_of(import: ImportView) -> nat {
    if import.is_default {
        import.named.len() + 1
    } else {
        import.named.len()
    }
}

/// The number of edges that the first `n` imports add.
pub open spec fn bindings_among(imports: Seq<ImportView>, n: nat) -> nat
    decreases n,
{
    if n == 0 {
        0
    } else {
        bindings_among(imports, (n - 1) as nat) + bindings_of(imports[n - 1])
    }
}

/// The number of edges that the first `n` files add.
pub open spec fn bindings_in(files: Seq<ParsedFileView>, n: nat) -> nat
    decreases n,
{
    if n == 0 {
        0
    } else {
        bindings_in(files, (n - 1) as nat) + bindings_among(
            files[n - 1].imports,
            files[n - 1].imports.len(),
        )
    }
}

/// The imports of a file add one edge for each of their bindings.
proof fn lemma_edges_of_imports(
    b: BuildView,
    config: Option<TypeScriptConfigView>,
    imports: Seq<ImportView>,
    target: nat,
    n: nat,
)
    ensures
        with_imports(b, config, imports, target, n).edges.len() == b.edges.len() + bindings_among(
            imports,
            n,
        ),
    decreases n,
{
    if n > 0 {
        lemma_edges_of_imports(b, config, imports, target, (n - 1) as nat);
    }
}

/// An import graph has one edge for each binding of each import of each
/// file.
pub proof fn lemma_edge_count(
    files: Seq<ParsedFileView>,
    configs: Seq<TypeScriptConfigView>,
    n: nat,
)
    ensures
        built(files, configs, n).edges.len() == bindings_in(files, n),
    decreases n,
{
    if n > 0 {
        lemma_edge_count(files, configs, (n - 1) as nat);
        let b = built(files, configs, (n - 1) as nat);
        let file = files[n - 1];
        let b1 = with_own_node(b, file);
        assert(b1.edges == b.edges);
        lemma_edges_of_imports(
            b1,
            config_for(configs, file.path),
            file.imports,
            id_of(b1.slots, file.path),
            file.imports.len(),
        );
    }
}

/// What a node knows once it has been completed, no later file changes: the
/// first to say it wins.
pub proof fn lemma_completed_once(node: NodeView, first: ParsedFileView, later: ParsedFileView)
    ensures
        completed(completed(node, first), later) == completed(node, first),
{
}

/// Every edge of an import graph leads from a slot to a slot, and where the
/// node in that slot is still live it is a node of the graph: an edge misses
/// its node only where the node was given up.
pub proof fn lemma_edges_miss_only_what_was_given_up(
    files: Seq<ParsedFileView>,
    configs: Seq<TypeScriptConfigView>,
)
    ensures
        forall|k: int|
            0 <= k < import_graph_of(files, configs).edges.len() ==> {
                let b = built(files, configs, files.len());
                let edge = #[trigger] import_graph_of(files, configs).edges[k];
                &&& edge.source < b.slots.len()
                &&& edge.target < b.slots.len()
                &&& b.slots[edge.source as int].live ==> has_node(
                    import_graph_of(files, configs),
                    edge.source,
                )
                &&& b.slots[edge.target as int].live ==> has_node(
                    import_graph_of(files, configs),
                    edge.target,
                )
            },
{
    let b = built(files, configs, files.len());
    lemma_built(files, configs, files.len());
    let g = graph_of(b);
    assert forall|k: int| 0 <= k < g.edges.len() implies {
        let edge = #[trigger] g.edges[k];
        &&& edge.source < b.slots.len()
        &&& edge.target < b.slots.len()
        &&& b.slots[edge.source as int].live ==> has_node(g, edge.source)
        &&& b.slots[edge.target as int].live ==> has_node(g, edge.target)
    } by {
        let s = g.edges[k].source as int;
        let t = g.edges[k].target as int;
        assert(b.edges[k].source < b.slots.len());
        assert(b.slots[s].node.id == s);
        assert(b.slots[t].node.id == t);
        if b.slots[s].live {
            lemma_live_slot_is_node(b.slots, s);
        }
        if b.slots[t].live {
            lemma_live_slot_is_node(b.slots, t);
        }
    }
}

} // verus!
