//! How the import graph grows, file by file.
//!
//! While the graph is built every node ever made keeps its slot, and the slot
//! of node `i` is the `i`-th. A node that an entry file displaces is marked as
//! given up; the graph holds the nodes that are still live when the last file
//! has been taken in.

use vstd::prelude::*;
use crate::extract::{Edge, EdgeView, ImportGraph, ImportGraphView, Node, NodeView};
use crate::languages::{Import, ImportView, ParsedFile, ParsedFileView};
use crate::path_utils::{
    components, ends_in_index_file, extension, extension_of, is_index_file, render, rendered,
    split_components,
};
use crate::resolve::{key_for, resolve_import};
use crate::text::{
    copy_chars, copy_opt_str, lemma_rows_drop_last, lemma_views_push, string_of, views,
};
use crate::ts_config::{closest, TypeScriptConfig, TypeScriptConfigView};

verus! {

/// A node and whether it is still part of the graph.
pub struct SlotView {
    pub node: NodeView,
    pub live: bool,
}

/// The graph under construction.
pub struct BuildView {
    pub slots: Seq<SlotView>,
    pub edges: Seq<EdgeView>,
}

/// The graph before the first file.
pub open spec fn nothing_built() -> BuildView {
    BuildView { slots: Seq::<SlotView>::empty(), edges: Seq::<EdgeView>::empty() }
}

/// Whether the slot holds the live node with the given path.
pub open spec fn holds(slot: SlotView, path: Seq<char>) -> bool {
    slot.live && slot.node.path == path
}

/// The position of the first live node with the given path.
pub open spec fn slot_of(slots: Seq<SlotView>, path: Seq<char>) -> Option<int>
    decreases slots.len(),
{
    if slots.len() == 0 {
        None
    } else {
        match slot_of(slots.drop_last(), path) {
            Some(i) => Some(i),
            None => if holds(slots.last(), path) {
                Some(slots.len() - 1)
            } else {
                None
            },
        }
    }
}

/// The id of the live node with the given path; 0 where there is none.
pub open spec fn id_of(slots: Seq<SlotView>, path: Seq<char>) -> nat {
    match slot_of(slots, path) {
        Some(i) => slots[i].node.id,
        None => 0,
    }
}

/// A node of which only the path is known.
pub open spec fn placeholder(id: nat, path: Seq<char>) -> NodeView {
    NodeView { id, path, file_name: None, extension: None, line_count: None }
}

/// The graph with a node for `path`: as it was where it has one, and with a
/// new placeholder behind its nodes where it has none.
pub open spec fn with_node(b: BuildView, path: Seq<char>) -> BuildView {
    match slot_of(b.slots, path) {
        Some(_) => b,
        None => BuildView {
            slots: b.slots.push(
                SlotView { node: placeholder(b.slots.len(), path), live: true },
            ),
            edges: b.edges,
        },
    }
}

/// One edge for each name that the import binds.
pub open spec fn named_edges(
    first: nat,
    source: nat,
    target: nat,
    is_default: bool,
    names: Seq<Seq<char>>,
) -> Seq<EdgeView> {
    Seq::new(
        names.len(),
        |k: int| EdgeView { id: first + k as nat, source, target, is_default, name: names[k] },
    )
}

/// The edge without a name that an import of the default export adds.
pub open spec fn default_edges(first: nat, source: nat, target: nat, is_default: bool) -> Seq<
    EdgeView,
> {
    if is_default {
        seq![EdgeView { id: first, source, target, is_default: true, name: Seq::<char>::empty() }]
    } else {
        Seq::<EdgeView>::empty()
    }
}

/// The edges of one import, numbered from `first`.
pub open spec fn import_edges(first: nat, source: nat, target: nat, import: ImportView) -> Seq<
    EdgeView,
> {
    named_edges(first, source, target, import.is_default, import.named) + default_edges(
        first + import.named.len(),
        source,
        target,
        import.is_default,
    )
}

/// The graph with one more import: a node for what it refers to, and its
/// edges from there to the node `target` of the importing file.
pub open spec fn with_import(b: BuildView, key: Seq<char>, target: nat, import: ImportView)
    -> BuildView {
    let b1 = with_node(b, key);
    BuildView {
        slots: b1.slots,
        edges: b1.edges + import_edges(b1.edges.len(), id_of(b1.slots, key), target, import),
    }
}

/// The graph with the first `n` imports of a file.
pub open spec fn with_imports(
    b: BuildView,
    config: Option<TypeScriptConfigView>,
    imports: Seq<ImportView>,
    target: nat,
    n: nat,
) -> BuildView
    decreases n,
{
    if n == 0 {
        b
    } else {
        with_import(
            with_imports(b, config, imports, target, (n - 1) as nat),
            key_for(config, imports[n - 1]),
            target,
            imports[n - 1],
        )
    }
}

/// The key under which an import of a directory refers to the directory's
/// entry file: the path of the directory.
pub open spec fn dir_key(path: Seq<char>) -> Seq<char> {
    rendered(components(path).drop_last())
}

/// The directory's node once its entry file has taken it over: under the
/// file's path, with the file's name and extension, and with the id and the
/// line count that it had.
pub open spec fn taking_over(node: NodeView, path: Seq<char>) -> NodeView {
    NodeView {
        id: node.id,
        path,
        file_name: Some(components(path).last()),
        extension: extension_of(components(path).last()),
        line_count: node.line_count,
    }
}

/// The slots with the node for `path` given up, unless it is the one to keep.
pub open spec fn given_up(slots: Seq<SlotView>, path: Seq<char>, keep: int) -> Seq<SlotView> {
    match slot_of(slots, path) {
        Some(j) => if j != keep {
            slots.update(j, SlotView { node: slots[j].node, live: false })
        } else {
            slots
        },
        None => slots,
    }
}

/// The graph after an entry file (`index`) has taken over the node of its
/// directory, where there is one. A node that stood under the file's own path
/// before is given up for it.
pub open spec fn taken_over(b: BuildView, path: Seq<char>) -> BuildView {
    if is_index_file(components(path)) {
        match slot_of(b.slots, dir_key(path)) {
            Some(d) => BuildView {
                slots: given_up(b.slots, path, d).update(
                    d,
                    SlotView { node: taking_over(b.slots[d].node, path), live: true },
                ),
                edges: b.edges,
            },
            None => b,
        }
    } else {
        b
    }
}

/// The node of a file that is met for the first time.
pub open spec fn file_node(id: nat, file: ParsedFileView) -> NodeView {
    NodeView {
        id,
        path: file.path,
        file_name: Some(file.name),
        extension: Some(file.extension),
        line_count: Some(file.line_count),
    }
}

/// The node with what it did not know yet taken from the file. What it knew
/// stays.
pub open spec fn completed(node: NodeView, file: ParsedFileView) -> NodeView {
    NodeView {
        id: node.id,
        path: node.path,
        file_name: match node.file_name {
            Some(n) => Some(n),
            None => Some(file.name),
        },
        extension: match node.extension {
            Some(e) => Some(e),
            None => Some(file.extension),
        },
        line_count: match node.line_count {
            Some(c) => Some(c),
            None => Some(file.line_count),
        },
    }
}

/// The graph with the file's own node.
pub open spec fn with_own_node(b: BuildView, file: ParsedFileView) -> BuildView {
    let b1 = taken_over(b, file.path);
    match slot_of(b1.slots, file.path) {
        Some(i) => BuildView {
            slots: b1.slots.update(
                i,
                SlotView { node: completed(b1.slots[i].node, file), live: true },
            ),
            edges: b1.edges,
        },
        None => BuildView {
            slots: b1.slots.push(SlotView { node: file_node(b1.slots.len(), file), live: true }),
            edges: b1.edges,
        },
    }
}

/// The configuration that holds for the file at `path`.
pub open spec fn config_for(configs: Seq<TypeScriptConfigView>, path: Seq<char>) -> Option<
    TypeScriptConfigView,
> {
    match closest(configs, path) {
        Some(k) => Some(configs[k]),
        None => None,
    }
}

/// The graph with one more file: its own node, then its imports in order.
pub open spec fn with_file(b: BuildView, configs: Seq<TypeScriptConfigView>, file: ParsedFileView)
    -> BuildView {
    let b1 = with_own_node(b, file);
    with_imports(
        b1,
        config_for(configs, file.path),
        file.imports,
        id_of(b1.slots, file.path),
        file.imports.len(),
    )
}

/// The graph after the first `n` files.
pub open spec fn built(files: Seq<ParsedFileView>, configs: Seq<TypeScriptConfigView>, n: nat)
    -> BuildView
    decreases n,
{
    if n == 0 {
        nothing_built()
    } else {
        with_file(built(files, configs, (n - 1) as nat), configs, files[n - 1])
    }
}

/// The nodes that are still live, in the order of their slots.
pub open spec fn live_nodes(slots: Seq<SlotView>) -> Seq<NodeView>
    decreases slots.len(),
{
    if slots.len() == 0 {
        Seq::<NodeView>::empty()
    } else if slots.last().live {
        live_nodes(slots.drop_last()).push(slots.last().node)
    } else {
        live_nodes(slots.drop_last())
    }
}

/// The graph that has been built.
pub open spec fn graph_of(b: BuildView) -> ImportGraphView {
    ImportGraphView { nodes: live_nodes(b.slots), edges: b.edges }
}

/// The import graph of the files, taken in in the order in which they stand.
pub open spec fn import_graph_of(files: Seq<ParsedFileView>, configs: Seq<TypeScriptConfigView>)
    -> ImportGraphView {
    graph_of(built(files, configs, files.len()))
}

/// No node was given up.
pub open spec fn all_live(b: BuildView) -> bool {
    forall|i: int| 0 <= i < b.slots.len() ==> (#[trigger] b.slots[i]).live
}

/// What holds of the graph at every step: the node in slot `i` has the id
/// `i`, no two live nodes have the same path, and every edge has its position
/// as its id and leads from a slot to a slot.
pub open spec fn well_built(b: BuildView) -> bool {
    &&& forall|i: int| 0 <= i < b.slots.len() ==> (#[trigger] b.slots[i]).node.id == i
    &&& forall|i: int, j: int|
        0 <= i < b.slots.len() && 0 <= j < b.slots.len() && i != j && (#[trigger] b.slots[i]).live
            && (#[trigger] b.slots[j]).live ==> b.slots[i].node.path != b.slots[j].node.path
    &&& forall|k: int|
        0 <= k < b.edges.len() ==> {
            &&& (#[trigger] b.edges[k]).id == k
            &&& b.edges[k].source < b.slots.len()
            &&& b.edges[k].target < b.slots.len()
        }
}

/// What `slot_of` finds is the first live node with the path, and it finds
/// none only where there is none.
pub proof fn lemma_slot_of(slots: Seq<SlotView>, path: Seq<char>)
    ensures
        match slot_of(slots, path) {
            Some(i) => {
                &&& 0 <= i < slots.len()
                &&& holds(slots[i], path)
                &&& forall|j: int| 0 <= j < i ==> !holds(#[trigger] slots[j], path)
            },
            None => forall|j: int| 0 <= j < slots.len() ==> !holds(#[trigger] slots[j], path),
        },
    decreases slots.len(),
{
    if slots.len() > 0 {
        lemma_slot_of(slots.drop_last(), path);
        let init = slots.drop_last();
        assert forall|j: int| 0 <= j < init.len() implies init[j] == slots[j] by {}
        match slot_of(init, path) {
            Some(i) => {
                assert(slots[i] == init[i]);
                assert forall|j: int| 0 <= j < i implies !holds(#[trigger] slots[j], path) by {
                    assert(slots[j] == init[j]);
                }
            },
            None => {
                assert forall|j: int| 0 <= j < slots.len() - 1 implies !holds(
                    #[trigger] slots[j],
                    path,
                ) by {
                    assert(slots[j] == init[j]);
                }
            },
        }
    }
}

/// The first live node with the path is what `slot_of` finds.
pub proof fn lemma_slot_of_is(slots: Seq<SlotView>, path: Seq<char>, i: int)
    requires
        0 <= i < slots.len(),
        holds(slots[i], path),
        forall|j: int| 0 <= j < i ==> !holds(#[trigger] slots[j], path),
    ensures
        slot_of(slots, path) == Some(i),
{
    lemma_slot_of(slots, path);
}

/// Where no live node has the path, `slot_of` finds none.
pub proof fn lemma_slot_of_none(slots: Seq<SlotView>, path: Seq<char>)
    requires
        forall|j: int| 0 <= j < slots.len() ==> !holds(#[trigger] slots[j], path),
    ensures
        slot_of(slots, path) is None,
{
    lemma_slot_of(slots, path);
}

/// A node and whether it is still part of the graph.
pub struct Slot {
    pub node: Node,
    pub live: bool,
}

impl View for Slot {
    type V = SlotView;

    open spec fn view(&self) -> SlotView {
        SlotView { node: self.node@, live: self.live }
    }
}

/// The graph under construction.
pub struct Build {
    pub slots: Vec<Slot>,
    pub edges: Vec<Edge>,
}

impl View for Build {
    type V = BuildView;

    open spec fn view(&self) -> BuildView {
        BuildView { slots: views(self.slots@), edges: views(self.edges@) }
    }
}

/// A copy of a node.
fn copy_node(node: &Node) -> (out: Node)
    ensures
        out@ == node@,
{
    Node {
        id: node.id,
        path: node.path.clone(),
        file_name: copy_opt_str(&node.file_name),
        extension: copy_opt_str(&node.extension),
        line_count: node.line_count,
    }
}

/// The position of the first live node with the given path.
pub fn find_slot(slots: &Vec<Slot>, path: &String) -> (r: Option<usize>)
    ensures
        match r {
            Some(i) => i < slots.len() && slot_of(views(slots@), path@) == Some(i as int),
            None => slot_of(views(slots@), path@) is None,
        },
{
    let ghost all = views(slots@);
    let mut i: usize = 0;
    while i < slots.len()
        invariant
            i <= slots.len(),
            all == views(slots@),
            forall|j: int| 0 <= j < i ==> !holds(#[trigger] all[j], path@),
        decreases slots.len() - i,
    {
        assert(all[i as int] == slots@[i as int]@);
        if slots[i].live && slots[i].node.path == *path {
            proof {
                lemma_slot_of_is(all, path@, i as int);
            }
            return Some(i);
        }
        i += 1;
    }
    proof {
        lemma_slot_of_none(all, path@);
    }
    None
}

impl Build {
    /// The graph before the first file.
    pub fn new() -> (b: Build)
        ensures
            b@ == nothing_built(),
    {
        let b = Build { slots: Vec::new(), edges: Vec::new() };
        assert(b@.slots =~= Seq::<SlotView>::empty());
        assert(b@.edges =~= Seq::<EdgeView>::empty());
        b
    }

    /// Makes sure that there is a node for `key`, and gives its id.
    pub fn ensure_node(&mut self, key: String) -> (id: usize)
        ensures
            final(self)@ == with_node(old(self)@, key@),
            id as nat == id_of(final(self)@.slots, key@),
    {
        match find_slot(&self.slots, &key) {
            Some(i) => {
                assert(self@.slots[i as int] == self.slots@[i as int]@);
                self.slots[i].node.id
            },
            None => {
                let id = self.slots.len();
                let ghost before = self.slots@;
                let ghost path = key@;
                let slot = Slot {
                    node: Node { id, path: key, file_name: None, extension: None, line_count: None },
                    live: true,
                };
                self.slots.push(slot);
                proof {
                    lemma_views_push(before, slot);
                    let after = views(self.slots@);
                    assert forall|j: int| 0 <= j < before.len() implies !holds(
                        #[trigger] after[j],
                        path,
                    ) by {
                        lemma_slot_of(views(before), path);
                        assert(after[j] == views(before)[j]);
                    }
                    lemma_slot_of_is(after, path, id as int);
                }
                id
            },
        }
    }

    /// Takes in one import of the file whose node has the id `target`.
    pub fn add_import(&mut self, config: Option<&TypeScriptConfig>, target: usize, import: &Import)
        ensures
            final(self)@ == with_import(
                old(self)@,
                key_for(
                    match config {
                        Some(c) => Some(c@),
                        None => None,
                    },
                    import@,
                ),
                target as nat,
                import@,
            ),
    {
        let key = resolve_import(config, import);
        let source = self.ensure_node(key);
        let ghost b1 = self@;
        let ghost first = b1.edges.len();
        let ghost named = named_edges(
            first,
            source as nat,
            target as nat,
            import.is_default,
            import@.named,
        );
        let mut k: usize = 0;
        assert(self@.edges =~= b1.edges + named.take(0));
        while k < import.named.len()
            invariant
                k <= import.named.len(),
                self@.slots == b1.slots,
                first == b1.edges.len(),
                named == named_edges(
                    first,
                    source as nat,
                    target as nat,
                    import.is_default,
                    import@.named,
                ),
                self@.edges == b1.edges + named.take(k as int),
            decreases import.named.len() - k,
        {
            let ghost before = self.edges@;
            assert(views(before).len() == first + k);
            let edge = Edge {
                id: self.edges.len(),
                source,
                target,
                is_default: import.is_default,
                name: import.named[k].clone(),
            };
            self.edges.push(edge);
            proof {
                lemma_views_push(before, edge);
                assert(import@.named[k as int] == import.named@[k as int]@);
                assert(edge@.id == first + k);
                assert(edge@.name == import@.named[k as int]);
                assert(edge@ == named[k as int]);
                assert(named.take(k + 1) =~= named.take(k as int).push(named[k as int]));
                assert(self@.edges =~= b1.edges + named.take(k + 1));
            }
            k += 1;
        }
        assert(named.take(import.named.len() as int) =~= named);
        if import.is_default {
            let ghost before = self.edges@;
            assert(views(before).len() == first + import.named.len());
            assert(import@.named.len() == import.named.len());
            let edge = Edge {
                id: self.edges.len(),
                source,
                target,
                is_default: true,
                name: String::new(),
            };
            self.edges.push(edge);
            proof {
                lemma_views_push(before, edge);
                assert(self@.edges =~= b1.edges + import_edges(
                    first,
                    source as nat,
                    target as nat,
                    import@,
                ));
            }
        } else {
            assert(self@.edges =~= b1.edges + import_edges(
                first,
                source as nat,
                target as nat,
                import@,
            ));
        }
    }

    /// Lets an entry file take over the node of its directory, where there is
    /// one.
    pub fn take_over(&mut self, path: &String)
        ensures
            final(self)@ == taken_over(old(self)@, path@),
    {
        let mut comps = split_components(path.as_str());
        if !ends_in_index_file(&comps) {
            return ;
        }
        let ghost whole = comps@;
        let name = copy_chars(&comps[comps.len() - 1]);
        comps.pop();
        proof {
            lemma_rows_drop_last(whole);
        }
        let text = render(&comps);
        let dir = string_of(&text);
        match find_slot(&self.slots, &dir) {
            Some(d) => {
                let ghost start = self@;
                assert(start.slots[d as int] == self.slots@[d as int]@);
                match find_slot(&self.slots, path) {
                    Some(j) => {
                        if j != d {
                            assert(start.slots[j as int] == self.slots@[j as int]@);
                            let gone = Slot { node: copy_node(&self.slots[j].node), live: false };
                            self.slots.set(j, gone);
                            assert(views(self.slots@) =~= given_up(start.slots, path@, d as int));
                        }
                    },
                    None => {},
                }
                assert(views(self.slots@) == given_up(start.slots, path@, d as int));
                assert(views(self.slots@)[d as int] == self.slots@[d as int]@);
                let old = &self.slots[d].node;
                let node = Node {
                    id: old.id,
                    path: path.clone(),
                    file_name: Some(string_of(&name)),
                    extension: match extension(&name) {
                        Some(e) => Some(string_of(&e)),
                        None => None,
                    },
                    line_count: old.line_count,
                };
                assert(node@ == taking_over(start.slots[d as int].node, path@));
                let ghost mid = views(self.slots@);
                self.slots.set(d, Slot { node, live: true });
                assert(views(self.slots@) =~= mid.update(
                    d as int,
                    SlotView { node: node@, live: true },
                ));
                assert(self@.edges == start.edges);
            },
            None => {},
        }
    }

    /// Gives the file its own node, and gives the node's id.
    pub fn own_node(&mut self, file: &ParsedFile) -> (id: usize)
        ensures
            final(self)@ == with_own_node(old(self)@, file@),
            id as nat == id_of(final(self)@.slots, file@.path),
    {
        self.take_over(&file.path);
        let ghost b1 = self@;
        match find_slot(&self.slots, &file.path) {
            Some(i) => {
                assert(b1.slots[i as int] == self.slots@[i as int]@);
                let old = &self.slots[i].node;
                let id = old.id;
                let node = Node {
                    id,
                    path: old.path.clone(),
                    file_name: match &old.file_name {
                        Some(n) => Some(n.clone()),
                        None => Some(file.name.clone()),
                    },
                    extension: match &old.extension {
                        Some(e) => Some(e.clone()),
                        None => Some(file.extension.clone()),
                    },
                    line_count: match old.line_count {
                        Some(c) => Some(c),
                        None => Some(file.line_count),
                    },
                };
                assert(node@ == completed(b1.slots[i as int].node, file@));
                self.slots.set(i, Slot { node, live: true });
                proof {
                    let after = views(self.slots@);
                    assert(after =~= b1.slots.update(
                        i as int,
                        SlotView { node: node@, live: true },
                    ));
                    lemma_slot_of(b1.slots, file@.path);
                    assert forall|j: int| 0 <= j < i implies !holds(
                        #[trigger] after[j],
                        file@.path,
                    ) by {
                        assert(after[j] == b1.slots[j]);
                    }
                    lemma_slot_of_is(after, file@.path, i as int);
                }
                id
            },
            None => {
                let id = self.slots.len();
                let ghost before = self.slots@;
                let slot = Slot {
                    node: Node {
                        id,
                        path: file.path.clone(),
                        file_name: Some(file.name.clone()),
                        extension: Some(file.extension.clone()),
                        line_count: Some(file.line_count),
                    },
                    live: true,
                };
                assert(slot@.node == file_node(id as nat, file@));
                self.slots.push(slot);
                proof {
                    lemma_views_push(before, slot);
                    let after = views(self.slots@);
                    lemma_slot_of(b1.slots, file@.path);
                    assert forall|j: int| 0 <= j < before.len() implies !holds(
                        #[trigger] after[j],
                        file@.path,
                    ) by {
                        assert(after[j] == b1.slots[j]);
                    }
                    lemma_slot_of_is(after, file@.path, id as int);
                }
                id
            },
        }
    }

    /// Takes in one file under the configuration that holds for it: its own
    /// node, then its imports in order.
    pub fn add_file(&mut self, config: Option<&TypeScriptConfig>, file: &ParsedFile)
        ensures
            final(self)@ == with_imports(
                with_own_node(old(self)@, file@),
                match config {
                    Some(c) => Some(c@),
                    None => None,
                },
                file@.imports,
                id_of(with_own_node(old(self)@, file@).slots, file@.path),
                file@.imports.len(),
            ),
    {
        let target = self.own_node(file);
        let ghost b1 = self@;
        let ghost cfg = match config {
            Some(c) => Some(c@),
            None => None,
        };
        let mut k: usize = 0;
        while k < file.imports.len()
            invariant
                k <= file.imports.len(),
                cfg == match config {
                    Some(c) => Some(c@),
                    None => None,
                },
                self@ == with_imports(b1, cfg, file@.imports, target as nat, k as nat),
            decreases file.imports.len() - k,
        {
            assert(file@.imports[k as int] == file.imports@[k as int]@);
            self.add_import(config, target, &file.imports[k]);
            k += 1;
        }
    }

    /// The graph that has been built: the nodes that are still live, and the
    /// edges.
    pub fn finish(self) -> (graph: ImportGraph)
        ensures
            graph@ == graph_of(self@),
    {
        let mut nodes: Vec<Node> = Vec::new();
        let ghost all = views(self.slots@);
        let mut i: usize = 0;
        assert(all.take(0) =~= Seq::<SlotView>::empty());
        assert(views(nodes@) =~= live_nodes(all.take(0)));
        while i < self.slots.len()
            invariant
                i <= self.slots.len(),
                all == views(self.slots@),
                views(nodes@) == live_nodes(all.take(i as int)),
            decreases self.slots.len() - i,
        {
            proof {
                assert(all.take(i + 1).drop_last() =~= all.take(i as int));
                assert(all.take(i + 1).last() == self.slots@[i as int]@);
            }
            if self.slots[i].live {
                let ghost before = nodes@;
                let node = copy_node(&self.slots[i].node);
                nodes.push(node);
                proof {
                    lemma_views_push(before, node);
                }
            }
            i += 1;
        }
        assert(all.take(self.slots.len() as int) =~= all);
        ImportGraph { nodes, edges: self.edges }
    }
}

} // verus!
