//! The editor's data-provider bridge: a read-only projection of the graph and
//! the current selection for a generic tree view, plus the two structural
//! commands it issues — drag-drop reparenting and selection changes. The
//! bridge never mutates the graph itself: it hands batched commands back to
//! the caller, so one user gesture stays one undoable step.

use crate::graph::{in_ancestor_chain, Graph, IconKind, spec_icon_of};
use crate::pool::Handle;
use crate::selection::{
    clone_selection, sel_view, sel_wf, selections_equal, spec_toggle, GraphSelection, Selection,
};
use vstd::prelude::*;

verus! {

/// One reparent to perform: make `parent` the parent of `child`.
#[derive(Clone, Copy, Debug, PartialEq, Eq, Structural, Hash)]
pub struct LinkNodesCommand {
    pub child: Handle,
    pub parent: Handle,
}

/// A batch of reparents that one drag gesture produced; applied as one
/// undoable step.
pub struct CommandGroup {
    pub commands: Vec<LinkNodesCommand>,
}

/// A selection change to apply: the selection to install and the one to
/// restore on undo.
pub struct ChangeSelectionCommand {
    pub new_selection: Selection,
    pub old_selection: Selection,
}

/// A dragged node is reparented only when its handle is still valid and the
/// drop target is not the node itself or one of its descendants.
pub open spec fn spec_drop_keep(g: Graph, node: Handle, parent: Handle) -> bool {
    &&& g.spec_is_valid(node)
    &&& !in_ancestor_chain(g.parent_map(), parent.index as int, node.index as int)
}

/// The reparents a drop onto `parent` issues: one per selected node that
/// passes the cycle check, in selection order.
pub open spec fn spec_drop_batch(g: Graph, nodes: Seq<Handle>, parent: Handle) -> Seq<
    LinkNodesCommand,
>
    decreases nodes.len(),
{
    if nodes.len() == 0 {
        Seq::empty()
    } else {
        spec_drop_batch(g, nodes.drop_last(), parent) + if spec_drop_keep(
            g,
            nodes.last(),
            parent,
        ) {
            seq![LinkNodesCommand { child: nodes.last(), parent }]
        } else {
            Seq::empty()
        }
    }
}

/// What a flat list of clicked handles reduces to, starting from the
/// selection its first entry makes and toggling each further entry.
pub open spec fn spec_reduce_nodes(input: Seq<Handle>, i: int, acc: Seq<Handle>) -> Seq<Handle>
    decreases input.len() - i,
    when 0 <= i <= input.len()
{
    if i >= input.len() {
        acc
    } else {
        spec_reduce_nodes(input, i + 1, spec_toggle(acc, input[i]))
    }
}

/// The selection a flat list of clicked handles stands for: none at all for
/// an empty list, otherwise the fold of insert-or-exclude toggles.
pub open spec fn spec_reduced_view(input: Seq<Handle>) -> Option<Seq<Handle>> {
    if input.len() == 0 {
        None
    } else {
        let first: Seq<Handle> = if input[0].index == 0 {
            Seq::empty()
        } else {
            seq![input[0]]
        };
        Some(spec_reduce_nodes(input, 1, first))
    }
}

/// A selection-change command is emitted exactly when the reduced input
/// differs from the current selection.
pub open spec fn spec_selection_emits(input: Seq<Handle>, current: Option<Seq<Handle>>) -> bool {
    spec_reduced_view(input) != current
}

/// Applying `on_selection_changed` twice with the same input set is
/// idempotent: the first application installs the reduced selection, and the
/// same input reduces to that very selection again, so the second
/// application emits no command.
pub proof fn lemma_selection_changed_idempotent(input: Seq<Handle>)
    ensures
        !spec_selection_emits(input, spec_reduced_view(input)),
{
}

/// What the editor hands a generic tree view: the graph, the current
/// selection and the scene's file path, read-only.
pub struct EditorSceneWrapper {
    pub graph: Graph,
    pub selection: Selection,
    pub path: Option<String>,
}

impl EditorSceneWrapper {
    pub open spec fn wf(self) -> bool {
        &&& self.graph.wf()
        &&& sel_wf(self.selection)
    }

    /// The root of the scene content.
    pub fn root_node(&self) -> (h: Handle)
        ensures
            h == self.graph.spec_root(),
    {
        self.graph.root()
    }

    /// The scene's file path, if it has been saved before.
    pub fn path(&self) -> (r: Option<&String>)
        ensures
            match r {
                Some(p) => self.path == Some(*p),
                None => self.path is None,
            },
    {
        self.path.as_ref()
    }

    /// The children of a node, empty for an invalid handle.
    pub fn children_of(&self, node: Handle) -> (r: Vec<Handle>)
        ensures
            self.graph.spec_is_valid(node) ==> r@ == self.graph.spec_children(node.index as int),
            !self.graph.spec_is_valid(node) ==> r@ == Seq::<Handle>::empty(),
    {
        self.graph.children_of(node)
    }

    /// How many children a node has, zero for an invalid handle.
    pub fn child_count_of(&self, node: Handle) -> (n: usize)
        ensures
            self.graph.spec_is_valid(node) ==> n == self.graph.spec_children(
                node.index as int,
            ).len(),
            !self.graph.spec_is_valid(node) ==> n == 0,
    {
        self.graph.child_count_of(node)
    }

    /// Whether `child` stands in `node`'s children list.
    pub fn is_node_has_child(&self, node: Handle, child: Handle) -> (r: bool)
        ensures
            r == (self.graph.spec_is_valid(node) && self.graph.spec_children(
                node.index as int,
            ).contains(child)),
    {
        self.graph.has_child(node, child)
    }

    /// A node's parent, the null handle for an invalid handle or the root.
    pub fn parent_of(&self, node: Handle) -> (p: Handle)
        ensures
            self.graph.spec_is_valid(node) ==> p == self.graph.spec_parent_of(node.index as int),
            !self.graph.spec_is_valid(node) ==> p == Handle::spec_none(),
    {
        self.graph.parent_of(node)
    }

    /// A node's name, nothing for an invalid handle.
    pub fn name_of(&self, node: Handle) -> (r: Option<String>)
        ensures
            match r {
                Some(n) => self.graph.spec_is_valid(node) && n@ == self.graph.spec_node(
                    node.index as int,
                ).name@,
                None => !self.graph.spec_is_valid(node),
            },
    {
        self.graph.name_of(node)
    }

    pub fn is_valid_handle(&self, node: Handle) -> (r: bool)
        ensures
            r == self.graph.spec_is_valid(node),
    {
        self.graph.is_valid(node)
    }

    /// The icon category of a node; resolving the category to an image asset
    /// stays with the caller. A stale or null handle is absorbed and reads as
    /// the generic cube category.
    pub fn icon_of(&self, node: Handle) -> (r: IconKind)
        ensures
            self.graph.spec_is_valid(node) ==> r == spec_icon_of(
                self.graph.spec_node(node.index as int).kind,
            ),
            !self.graph.spec_is_valid(node) ==> r == IconKind::Cube,
    {
        self.graph.icon_kind_of(node)
    }

    /// Whether the node was instantiated from an external resource.
    pub fn is_instance(&self, node: Handle) -> (r: bool)
        ensures
            r == (self.graph.spec_is_valid(node) && self.graph.spec_node(
                node.index as int,
            ).is_resource_instance),
    {
        self.graph.is_instance(node)
    }

    /// The currently selected nodes, empty when nothing (or something other
    /// than graph nodes) is selected.
    #[verifier::loop_isolation(false)]
    pub fn selection(&self) -> (r: Vec<Handle>)
        ensures
            match sel_view(self.selection) {
                Some(nodes) => r@ == nodes,
                None => r@ == Seq::<Handle>::empty(),
            },
    {
        match &self.selection {
            Selection::Graph(gs) => {
                let mut out: Vec<Handle> = Vec::new();
                let n = gs.nodes.len();
                let mut i: usize = 0;
                while i < n
                    invariant
                        0 <= i <= n,
                        n == gs.nodes@.len(),
                        out@ =~= gs.nodes@.take(i as int),
                    decreases n - i,
                {
                    out.push(gs.nodes[i]);
                    proof {
                        assert(out@ =~= gs.nodes@.take(i + 1 as int));
                    }
                    i = i + 1;
                }
                proof {
                    assert(gs.nodes@.take(n as int) =~= gs.nodes@);
                }
                out
            },
            Selection::Clear => {
                let out: Vec<Handle> = Vec::new();
                proof {
                    assert(out@ =~= Seq::<Handle>::empty());
                }
                out
            },
        }
    }

    /// A drop of `child` onto `parent`. When the dragged node is part of the
    /// selection, the whole selection is reparented onto the target, each
    /// node individually cycle-checked: a node that is the target or one of
    /// its ancestors is silently skipped, as is a stale handle. The accepted
    /// reparents come back as one batch; an empty batch issues no command.
    #[verifier::loop_isolation(false)]
    pub fn on_drop(&self, child: Handle, parent: Handle) -> (r: Option<CommandGroup>)
        requires
            self.wf(),
        ensures
            match sel_view(self.selection) {
                Some(nodes) => {
                    if nodes.contains(child) && self.graph.spec_is_valid(parent) {
                        let batch = spec_drop_batch(self.graph, nodes, parent);
                        match r {
                            Some(cg) => cg.commands@ == batch && batch.len() > 0,
                            None => batch.len() == 0,
                        }
                    } else {
                        r is None
                    }
                },
                None => r is None,
            },
    {
        if let Selection::Graph(sel) = &self.selection {
            if sel.contains(child) && self.graph.is_valid(parent) {
                let ghost nodes = sel.nodes@;
                let mut commands: Vec<LinkNodesCommand> = Vec::new();
                let n = sel.nodes.len();
                let mut i: usize = 0;
                proof {
                    assert(commands@ =~= spec_drop_batch(self.graph, nodes.take(0), parent));
                }
                while i < n
                    invariant
                        0 <= i <= n,
                        n == nodes.len(),
                        nodes == sel.nodes@,
                        self.graph.spec_is_valid(parent),
                        commands@ == spec_drop_batch(self.graph, nodes.take(i as int), parent),
                    decreases n - i,
                {
                    let node_handle = sel.nodes[i];
                    let keep: bool = if self.graph.is_valid(node_handle) {
                        !self.graph.chain_contains(parent, node_handle)
                    } else {
                        false
                    };
                    if keep {
                        commands.push(LinkNodesCommand { child: node_handle, parent });
                    }
                    proof {
                        assert(nodes.take(i + 1 as int).drop_last() =~= nodes.take(i as int));
                        assert(nodes.take(i + 1 as int).last() == node_handle);
                        assert(keep == spec_drop_keep(self.graph, node_handle, parent));
                        assert(commands@ =~= spec_drop_batch(
                            self.graph,
                            nodes.take(i + 1 as int),
                            parent,
                        ));
                    }
                    i = i + 1;
                }
                proof {
                    assert(nodes.take(n as int) =~= nodes);
                }
                if commands.len() > 0 {
                    Some(CommandGroup { commands })
                } else {
                    None
                }
            } else {
                None
            }
        } else {
            None
        }
    }

    /// Reduces a flat list of clicked handles into a selection and, when the
    /// result differs from the current selection, hands back the change to
    /// apply; an identical result emits nothing.
    #[verifier::loop_isolation(false)]
    pub fn on_selection_changed(&self, selection: &Vec<Handle>) -> (r: Option<
        ChangeSelectionCommand,
    >)
        requires
            self.wf(),
        ensures
            match r {
                Some(cmd) => {
                    &&& spec_selection_emits(selection@, sel_view(self.selection))
                    &&& sel_view(cmd.new_selection) == spec_reduced_view(selection@)
                    &&& sel_wf(cmd.new_selection)
                    &&& sel_view(cmd.old_selection) == sel_view(self.selection)
                    &&& sel_wf(cmd.old_selection)
                },
                None => !spec_selection_emits(selection@, sel_view(self.selection)),
            },
    {
        let input_len = selection.len();
        let new_selection: Selection = if input_len == 0 {
            Selection::Clear
        } else {
            let mut gs = GraphSelection::single_or_empty(selection[0]);
            let ghost first = gs.nodes@;
            let mut i: usize = 1;
            while i < input_len
                invariant
                    1 <= i <= input_len,
                    input_len == selection@.len(),
                    gs.wf(),
                    spec_reduce_nodes(selection@, i as int, gs.nodes@) == spec_reduce_nodes(
                        selection@,
                        1,
                        first,
                    ),
                decreases input_len - i,
            {
                gs.insert_or_exclude(selection[i]);
                i = i + 1;
            }
            Selection::Graph(gs)
        };
        proof {
            assert(sel_view(new_selection) == spec_reduced_view(selection@));
        }
        if !selections_equal(&new_selection, &self.selection) {
            Some(
                ChangeSelectionCommand {
                    new_selection,
                    old_selection: clone_selection(&self.selection),
                },
            )
        } else {
            None
        }
    }

    /// Runs the graph's per-node structural check over every live node; see
    /// [`Graph::validate`].
    pub fn validate(&self) -> (r: Vec<(Handle, Result<(), String>)>)
        requires
            self.wf(),
        ensures
            ({
                let live = self.graph.live_indices_upto(self.graph.spec_len());
                &&& r@.len() == live.len()
                &&& forall|k: int|
                    0 <= k < live.len() ==> (#[trigger] r@[k]).0 == self.graph.spec_handle(live[k])
                        && (r@[k].1 is Ok <==> self.graph.spec_node_ok(live[k]))
            }),
    {
        self.graph.validate()
    }
}

} // verus!
