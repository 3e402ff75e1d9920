//! Which nodes of an import graph nothing refers to, and what they are.
//!
//! A node that no edge touches is a declared package, a file that nothing
//! imports, or an import that resolves to nothing. Which of the last two it
//! is depends on whether a file stands where the node points: that question
//! is put to the caller, who alone can look.

use std::collections::HashSet;
use vstd::prelude::*;
use crate::extract::{ImportGraph, ImportGraphView, NodeView};
use crate::path_utils::{
    components, join_components, joined, push_component, render, rendered, set_extension,
    split_components, with_extension,
};
use crate::text::{chars_of, lemma_strs_push, opt_str, rows, string_of, strs};

verus! {

/// Whether some edge begins or ends at the node with the given id.
pub open spec fn is_connected(graph: ImportGraphView, id: nat) -> bool {
    exists|k: int| 0 <= k < graph.edges.len() && touches(graph, k, id)
}

/// Whether the `k`-th edge begins or ends at the node with the given id.
pub open spec fn touches(graph: ImportGraphView, k: int, id: nat) -> bool {
    graph.edges[k].source == id || graph.edges[k].target == id
}

/// Whether the path, or what it begins with up to the end of one of its
/// components, is the name of a declared package.
pub open spec fn names_dependency(path: Seq<char>, dependencies: Seq<Seq<char>>) -> bool {
    exists|k: int|
        1 <= k <= components(path).len() && dependencies.contains(
            #[trigger] rendered(components(path).take(k)),
        )
}

/// Where a file for the node would stand: the node's path below the root,
/// with the node's extension, or with none where the node has none.
pub open spec fn probe_path(root: Seq<char>, node: NodeView) -> Seq<char> {
    rendered(
        with_extension(
            joined(components(root), components(node.path)),
            match node.extension {
                Some(e) => e,
                None => Seq::<char>::empty(),
            },
        ),
    )
}

/// Whether the `i`-th answer says that a file was found.
pub open spec fn found(on_disk: Seq<bool>, i: int) -> bool {
    0 <= i < on_disk.len() && on_disk[i]
}

/// The node stands for a declared package: no edge touches it, and its path
/// names a dependency.
pub open spec fn is_external(graph: ImportGraphView, dependencies: Seq<Seq<char>>, i: int) -> bool {
    !is_connected(graph, graph.nodes[i].id) && names_dependency(graph.nodes[i].path, dependencies)
}

/// Whether it has to be known if a file stands where the node points: no edge
/// touches the node, and its path names no dependency.
pub open spec fn is_loose(graph: ImportGraphView, dependencies: Seq<Seq<char>>, i: int) -> bool {
    !is_connected(graph, graph.nodes[i].id) && !names_dependency(graph.nodes[i].path, dependencies)
}

/// The node is a file that nothing imports.
pub open spec fn is_dead(
    graph: ImportGraphView,
    dependencies: Seq<Seq<char>>,
    on_disk: Seq<bool>,
    i: int,
) -> bool {
    is_loose(graph, dependencies, i) && found(on_disk, i)
}

/// The node is an import that resolves to nothing.
pub open spec fn is_unknown(
    graph: ImportGraphView,
    dependencies: Seq<Seq<char>>,
    on_disk: Seq<bool>,
    i: int,
) -> bool {
    is_loose(graph, dependencies, i) && !found(on_disk, i)
}

/// The paths of the dead files among the first `n` nodes, in order.
pub open spec fn dead_among(
    graph: ImportGraphView,
    dependencies: Seq<Seq<char>>,
    on_disk: Seq<bool>,
    n: nat,
) -> Seq<Seq<char>>
    decreases n,
{
    if n == 0 {
        Seq::<Seq<char>>::empty()
    } else if is_dead(graph, dependencies, on_disk, n - 1) {
        dead_among(graph, dependencies, on_disk, (n - 1) as nat).push(graph.nodes[n - 1].path)
    } else {
        dead_among(graph, dependencies, on_disk, (n - 1) as nat)
    }
}

/// The paths of the unknown imports among the first `n` nodes, in order.
pub open spec fn unknown_among(
    graph: ImportGraphView,
    dependencies: Seq<Seq<char>>,
    on_disk: Seq<bool>,
    n: nat,
) -> Seq<Seq<char>>
    decreases n,
{
    if n == 0 {
        Seq::<Seq<char>>::empty()
    } else if is_unknown(graph, dependencies, on_disk, n - 1) {
        unknown_among(graph, dependencies, on_disk, (n - 1) as nat).push(graph.nodes[n - 1].path)
    } else {
        unknown_among(graph, dependencies, on_disk, (n - 1) as nat)
    }
}

/// What has to be looked for on disk for the `i`-th node: nothing where an
/// edge touches the node or its path names a dependency.
pub open spec fn probe_at(
    graph: ImportGraphView,
    dependencies: Seq<Seq<char>>,
    root: Seq<char>,
    i: int,
) -> Option<Seq<char>> {
    if is_loose(graph, dependencies, i) {
        Some(probe_path(root, graph.nodes[i]))
    } else {
        None
    }
}

/// Every node is exactly one of four: connected, a declared package, a dead
/// file, or an unknown import.
pub proof fn lemma_classes_partition(
    graph: ImportGraphView,
    dependencies: Seq<Seq<char>>,
    on_disk: Seq<bool>,
    i: int,
)
    requires
        0 <= i < graph.nodes.len(),
    ensures
        ({
            let c = is_connected(graph, graph.nodes[i].id);
            let e = is_external(graph, dependencies, i);
            let d = is_dead(graph, dependencies, on_disk, i);
            let u = is_unknown(graph, dependencies, on_disk, i);
            &&& c || e || d || u
            &&& !(c && e) && !(c && d) && !(c && u)
            &&& !(e && d) && !(e && u)
            &&& !(d && u)
        }),
{
}

/// A path is reported as a dead file exactly where it is the path of a node
/// that is one.
pub proof fn lemma_dead_among(
    graph: ImportGraphView,
    dependencies: Seq<Seq<char>>,
    on_disk: Seq<bool>,
    n: nat,
    path: Seq<char>,
)
    requires
        n <= graph.nodes.len(),
    ensures
        dead_among(graph, dependencies, on_disk, n).contains(path) <==> exists|i: int|
            0 <= i < n && is_dead(graph, dependencies, on_disk, i) && (
            #[trigger] graph.nodes[i]).path == path,
    decreases n,
{
    if n > 0 {
        let k = (n - 1) as nat;
        lemma_dead_among(graph, dependencies, on_disk, k, path);
        let before = dead_among(graph, dependencies, on_disk, k);
        let now = dead_among(graph, dependencies, on_disk, n);
        if is_dead(graph, dependencies, on_disk, n - 1) {
            assert(now == before.push(graph.nodes[n - 1].path));
            if now.contains(path) {
                let x = choose|x: int| 0 <= x < now.len() && now[x] == path;
                if x < before.len() {
                    assert(before[x] == path);
                } else {
                    assert(graph.nodes[n - 1].path == path);
                }
            }
            if exists|i: int|
                0 <= i < n && is_dead(graph, dependencies, on_disk, i) && (
                #[trigger] graph.nodes[i]).path == path {
                let i = choose|i: int|
                    0 <= i < n && is_dead(graph, dependencies, on_disk, i) && (
                    #[trigger] graph.nodes[i]).path == path;
                if i < k {
                    let x = choose|x: int| 0 <= x < before.len() && before[x] == path;
                    assert(now[x] == path);
                } else {
                    assert(now[before.len() as int] == path);
                }
            }
        }
    }
}

/// A path is reported as an unknown import exactly where it is the path of a
/// node that is one.
pub proof fn lemma_unknown_among(
    graph: ImportGraphView,
    dependencies: Seq<Seq<char>>,
    on_disk: Seq<bool>,
    n: nat,
    path: Seq<char>,
)
    requires
        n <= graph.nodes.len(),
    ensures
        unknown_among(graph, dependencies, on_disk, n).contains(path) <==> exists|i: int|
            0 <= i < n && is_unknown(graph, dependencies, on_disk, i) && (
            #[trigger] graph.nodes[i]).path == path,
    decreases n,
{
    if n > 0 {
        let k = (n - 1) as nat;
        lemma_unknown_among(graph, dependencies, on_disk, k, path);
        let before = unknown_among(graph, dependencies, on_disk, k);
        let now = unknown_among(graph, dependencies, on_disk, n);
        if is_unknown(graph, dependencies, on_disk, n - 1) {
            assert(now == before.push(graph.nodes[n - 1].path));
            if now.contains(path) {
                let x = choose|x: int| 0 <= x < now.len() && now[x] == path;
                if x < before.len() {
                    assert(before[x] == path);
                } else {
                    assert(graph.nodes[n - 1].path == path);
                }
            }
            if exists|i: int|
                0 <= i < n && is_unknown(graph, dependencies, on_disk, i) && (
                #[trigger] graph.nodes[i]).path == path {
                let i = choose|i: int|
                    0 <= i < n && is_unknown(graph, dependencies, on_disk, i) && (
                    #[trigger] graph.nodes[i]).path == path;
                if i < k {
                    let x = choose|x: int| 0 <= x < before.len() && before[x] == path;
                    assert(now[x] == path);
                } else {
                    assert(now[before.len() as int] == path);
                }
            }
        }
    }
}

/// The ids that some edge begins or ends at.
fn connected_ids(graph: &ImportGraph) -> (ids: HashSet<usize>)
    ensures
        forall|id: usize| ids@.contains(id) <==> is_connected(graph@, id as nat),
{
    let mut ids: HashSet<usize> = HashSet::new();
    let ghost g = graph@;
    let mut k: usize = 0;
    while k < graph.edges.len()
        invariant
            k <= graph.edges.len(),
            g == graph@,
            forall|id: usize|
                ids@.contains(id) <==> exists|j: int| 0 <= j < k && touches(g, j, id as nat),
        decreases graph.edges.len() - k,
    {
        let source = graph.edges[k].source;
        let target = graph.edges[k].target;
        assert(g.edges[k as int] == graph.edges@[k as int]@);
        let ghost before = ids@;
        ids.insert(source);
        ids.insert(target);
        proof {
            assert forall|id: usize| ids@.contains(id) <==> exists|j: int|
                0 <= j < k + 1 && touches(g, j, id as nat) by {
                if ids@.contains(id) {
                    if before.contains(id) {
                        let j = choose|j: int| 0 <= j < k && touches(g, j, id as nat);
                        assert(0 <= j < k + 1 && touches(g, j, id as nat));
                    } else {
                        assert(touches(g, k as int, id as nat));
                    }
                }
                if exists|j: int| 0 <= j < k + 1 && touches(g, j, id as nat) {
                    let j = choose|j: int| 0 <= j < k + 1 && touches(g, j, id as nat);
                    if j < k {
                        assert(before.contains(id));
                    }
                }
            }
        }
        k += 1;
    }
    ids
}

/// Whether `text` is one of the declared names.
fn is_declared(dependencies: &Vec<String>, text: &String) -> (r: bool)
    ensures
        r == strs(dependencies@).contains(text@),
{
    let ghost names = strs(dependencies@);
    let mut i: usize = 0;
    while i < dependencies.len()
        invariant
            i <= dependencies.len(),
            names == strs(dependencies@),
            forall|j: int| 0 <= j < i ==> names[j] != text@,
        decreases dependencies.len() - i,
    {
        assert(names[i as int] == dependencies@[i as int]@);
        if dependencies[i] == *text {
            return true;
        }
        i += 1;
    }
    false
}

/// Whether the path, or a leading part of it that ends with a component, is
/// the name of a declared package.
fn path_names_dependency(path: &str, dependencies: &Vec<String>) -> (r: bool)
    ensures
        r == names_dependency(path@, strs(dependencies@)),
{
    let comps = split_components(path);
    let ghost all = rows(comps@);
    let ghost names = strs(dependencies@);
    let mut buf: Vec<char> = Vec::new();
    let mut k: usize = 0;
    assert(all.take(0) =~= Seq::<Seq<char>>::empty());
    while k < comps.len()
        invariant
            k <= comps.len(),
            all == rows(comps@),
            all == components(path@),
            names == strs(dependencies@),
            buf@ == rendered(all.take(k as int)),
            forall|j: int| 1 <= j <= k ==> !names.contains(#[trigger] rendered(all.take(j))),
        decreases comps.len() - k,
    {
        proof {
            assert(all.take(k + 1).drop_last() =~= all.take(k as int));
            assert(all.take(k + 1).last() == comps@[k as int]@);
        }
        push_component(&mut buf, &comps[k]);
        let text = string_of(&buf);
        if is_declared(dependencies, &text) {
            assert(names.contains(rendered(all.take(k + 1))));
            return true;
        }
        k += 1;
    }
    false
}

/// For each node of the graph, in order, what has to be looked for on disk
/// to tell a dead file from an unknown import: the node's path below `root`,
/// with the node's extension. Nothing has to be looked for where an edge
/// touches the node or its path names a dependency.
pub fn dead_file_probes(graph: &ImportGraph, dependencies: &Vec<String>, root: &str) -> (probes:
    Vec<Option<String>>)
    ensures
        probes.len() == graph.nodes.len(),
        forall|i: int|
            0 <= i < probes.len() ==> opt_str(#[trigger] probes[i]) == probe_at(
                graph@,
                strs(dependencies@),
                root@,
                i,
            ),
{
    let connected = connected_ids(graph);
    let ghost g = graph@;
    let ghost names = strs(dependencies@);
    let mut probes: Vec<Option<String>> = Vec::new();
    let mut i: usize = 0;
    while i < graph.nodes.len()
        invariant
            i <= graph.nodes.len(),
            g == graph@,
            names == strs(dependencies@),
            forall|id: usize| connected@.contains(id) <==> is_connected(g, id as nat),
            probes.len() == i,
            forall|j: int|
                0 <= j < i ==> opt_str(#[trigger] probes[j]) == probe_at(g, names, root@, j),
        decreases graph.nodes.len() - i,
    {
        let node = &graph.nodes[i];
        assert(g.nodes[i as int] == node@);
        let probe = if connected.contains(&node.id) || path_names_dependency(
            node.path.as_str(),
            dependencies,
        ) {
            None
        } else {
            let base = split_components(root);
            let more = split_components(node.path.as_str());
            let mut comps = join_components(&base, &more);
            let ext = match &node.extension {
                Some(e) => chars_of(e.as_str()),
                None => Vec::new(),
            };
            set_extension(&mut comps, &ext);
            let text = render(&comps);
            Some(string_of(&text))
        };
        probes.push(probe);
        i += 1;
    }
    probes
}

/// Tells the nodes that nothing refers to apart. A node that no edge touches
/// and whose path names no dependency is a dead file where `on_disk` says
/// that its file was found, and an unknown import where it does not; an
/// answer that is missing counts as not found. Returns the paths of the dead
/// files and those of the unknown imports, each in the order of the nodes.
pub fn extract_dead_files(graph: &ImportGraph, dependencies: Vec<String>, on_disk: &Vec<bool>) -> (r:
    (Vec<String>, Vec<String>))
    ensures
        strs(r.0@) == dead_among(
            graph@,
            strs(dependencies@),
            on_disk@,
            graph@.nodes.len(),
        ),
        strs(r.1@) == unknown_among(
            graph@,
            strs(dependencies@),
            on_disk@,
            graph@.nodes.len(),
        ),
{
    let connected = connected_ids(graph);
    let ghost g = graph@;
    let ghost names = strs(dependencies@);
    let mut dead_files: Vec<String> = Vec::new();
    let mut unknown_imports: Vec<String> = Vec::new();
    let mut i: usize = 0;
    assert(strs(dead_files@) =~= dead_among(g, names, on_disk@, 0));
    assert(strs(unknown_imports@) =~= unknown_among(g, names, on_disk@, 0));
    while i < graph.nodes.len()
        invariant
            i <= graph.nodes.len(),
            g == graph@,
            names == strs(dependencies@),
            forall|id: usize| connected@.contains(id) <==> is_connected(g, id as nat),
            strs(dead_files@) == dead_among(g, names, on_disk@, i as nat),
            strs(unknown_imports@) == unknown_among(g, names, on_disk@, i as nat),
        decreases graph.nodes.len() - i,
    {
        let node = &graph.nodes[i];
        assert(g.nodes[i as int] == node@);
        if !connected.contains(&node.id) && !path_names_dependency(
            node.path.as_str(),
            &dependencies,
        ) {
            let path = node.path.clone();
            if i < on_disk.len() && on_disk[i] {
                let ghost before = dead_files@;
                dead_files.push(path);
                proof {
                    lemma_strs_push(before, path);
                }
            } else {
                let ghost before = unknown_imports@;
                unknown_imports.push(path);
                proof {
                    lemma_strs_push(before, path);
                }
            }
        }
        i += 1;
    }
    (dead_files, unknown_imports)
}

} // verus!
