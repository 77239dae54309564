use scene_core::bridge::{EditorSceneWrapper, LinkNodesCommand};
use scene_core::codec::{decode_node, encode_node};
use scene_core::graph::{Graph, IconKind, Node, NodeKind};
use scene_core::pool::{Handle, Pool};
use scene_core::selection::{GraphSelection, Selection};

#[test]
fn pool_spawn_free_lookup() {
    let mut pool: Pool<u64> = Pool::new();
    let a = pool.spawn(10);
    let b = pool.spawn(20);
    assert!(pool.is_valid(a));
    assert!(pool.is_valid(b));
    assert_ne!(a, b);
    assert_eq!(pool.try_get(a), Some(&10));
    assert_eq!(pool.try_get(b), Some(&20));
    assert_eq!(pool.free(a), Some(10));
    assert!(!pool.is_valid(a));
    assert_eq!(pool.try_get(a), None);
    assert_eq!(pool.free(a), None);
}

#[test]
fn stale_handle_stays_invalid() {
    let mut pool: Pool<u64> = Pool::new();
    let a = pool.spawn(1);
    pool.free(a);
    // The freed slot is reused, at a different generation.
    let c = pool.spawn(3);
    assert_eq!(c.index, a.index);
    assert_ne!(c.generation, a.generation);
    assert!(!pool.is_valid(a));
    assert!(pool.is_valid(c));
    assert_eq!(pool.try_get(a), None);
    assert_eq!(pool.try_get(c), Some(&3));
}

#[test]
fn pool_replace() {
    let mut pool: Pool<u64> = Pool::new();
    let a = pool.spawn(1);
    assert_eq!(pool.replace(a, 9), Some(1));
    assert_eq!(pool.try_get(a), Some(&9));
    assert!(pool.is_valid(a));
}

#[test]
fn null_handle_is_never_valid() {
    let mut pool: Pool<u64> = Pool::new();
    assert!(!pool.is_valid(Handle::none()));
    let _ = pool.spawn(1);
    assert!(!pool.is_valid(Handle::none()));
    assert!(Handle::none().is_none());
}

fn demo_graph() -> (Graph, Handle, Handle, Handle) {
    let mut g = Graph::new(String::from("scene"));
    let root = g.root();
    let a = g.spawn_node(String::from("a"), NodeKind::Base, false);
    let b = g.spawn_node(String::from("b"), NodeKind::Base, false);
    let c = g.spawn_node(String::from("c"), NodeKind::Base, true);
    assert!(g.link(a, root));
    assert!(g.link(b, a));
    assert!(g.link(c, b));
    (g, a, b, c)
}

#[test]
fn link_builds_a_tree() {
    let (g, a, b, c) = demo_graph();
    let root = g.root();
    assert_eq!(g.children_of(root), vec![a]);
    assert_eq!(g.children_of(a), vec![b]);
    assert_eq!(g.children_of(b), vec![c]);
    assert_eq!(g.parent_of(c), b);
    assert_eq!(g.parent_of(a), root);
    assert_eq!(g.child_count_of(a), 1);
    assert!(g.has_child(a, b));
    assert!(!g.has_child(a, c));
    assert_eq!(g.name_of(b).unwrap(), "b");
}

#[test]
fn link_rejects_cycles() {
    let (mut g, a, b, c) = demo_graph();
    // A node cannot be linked under itself or any of its descendants.
    assert!(!g.link(a, a));
    assert!(!g.link(a, b));
    assert!(!g.link(a, c));
    // The rejected links changed nothing.
    assert_eq!(g.children_of(a), vec![b]);
    assert_eq!(g.parent_of(a), g.root());
    // The other direction is fine: c moves from b up to a.
    assert!(g.link(c, a));
    assert_eq!(g.children_of(b), vec![]);
    assert_eq!(g.children_of(a), vec![b, c]);
    assert_eq!(g.parent_of(c), a);
}

#[test]
fn link_rejects_root_and_stale_handles() {
    let (mut g, a, _b, _c) = demo_graph();
    let root = g.root();
    assert!(!g.link(root, a));
    let stale = Handle {
        index: a.index,
        generation: a.generation + 1,
    };
    assert!(!g.link(stale, root));
    assert!(!g.link(a, stale));
}

#[test]
fn reparent_moves_between_children_lists() {
    let mut g = Graph::new(String::from("scene"));
    let root = g.root();
    let a = g.spawn_node(String::from("a"), NodeKind::Base, false);
    let b = g.spawn_node(String::from("b"), NodeKind::Base, false);
    let x = g.spawn_node(String::from("x"), NodeKind::Base, false);
    assert!(g.link(a, root));
    assert!(g.link(b, root));
    assert!(g.link(x, a));
    assert_eq!(g.children_of(a), vec![x]);
    assert_eq!(g.children_of(b), vec![]);
    // Reparent x from a to b: out of exactly one list, into exactly one.
    assert!(g.link(x, b));
    assert_eq!(g.children_of(a), vec![]);
    assert_eq!(g.children_of(b), vec![x]);
    assert_eq!(g.parent_of(x), b);
}

#[test]
fn validate_reports_every_node() {
    let mut g = Graph::new(String::from("scene"));
    let root = g.root();
    let body = g.spawn_node(String::from("body"), NodeKind::RigidBody, false);
    let joint_ok = g.spawn_node(String::from("j1"), NodeKind::Joint, false);
    let joint_bad = g.spawn_node(String::from("j2"), NodeKind::Joint, false);
    assert!(g.link(body, root));
    assert!(g.link(joint_ok, body));
    assert!(g.link(joint_bad, root));
    let report = g.validate();
    assert_eq!(report.len(), 4);
    for (h, outcome) in &report {
        if *h == joint_bad {
            assert!(outcome.is_err());
        } else {
            assert!(outcome.is_ok());
        }
    }
}

#[test]
fn stale_handles_are_absorbed() {
    let (mut g, a, _b, _c) = demo_graph();
    let name = g.name_of(a);
    assert_eq!(name.unwrap(), "a");
    // Free the node's slot through a fresh pool-level stale handle.
    let stale = Handle {
        index: a.index,
        generation: a.generation + 1,
    };
    assert!(!g.is_valid(stale));
    // Every read absorbs the invalid handle, none errors out.
    assert_eq!(g.icon_kind_of(stale), IconKind::Cube);
    assert_eq!(g.kind_of(stale), NodeKind::Base);
    assert_eq!(g.name_of(stale), None);
    assert_eq!(g.parent_of(stale), Handle::none());
    assert_eq!(g.children_of(stale), vec![]);
    assert_eq!(g.child_count_of(stale), 0);
    assert!(!g.is_instance(stale));
    let wrapper = EditorSceneWrapper {
        graph: g,
        selection: Selection::Clear,
        path: None,
    };
    assert_eq!(wrapper.icon_of(stale), IconKind::Cube);
}

#[test]
fn icons_and_instances() {
    let mut g = Graph::new(String::from("scene"));
    let root = g.root();
    let light = g.spawn_node(String::from("l"), NodeKind::SpotLight, false);
    let body = g.spawn_node(String::from("r"), NodeKind::RigidBody2d, true);
    assert!(g.link(light, root));
    assert!(g.link(body, root));
    assert_eq!(g.icon_kind_of(light), IconKind::Light);
    assert_eq!(g.icon_kind_of(body), IconKind::RigidBody);
    assert_eq!(g.icon_kind_of(root), IconKind::Cube);
    assert!(g.is_instance(body));
    assert!(!g.is_instance(light));
}

#[test]
fn selection_toggle_is_an_exclusion() {
    let h1 = Handle {
        index: 1,
        generation: 1,
    };
    let h2 = Handle {
        index: 2,
        generation: 1,
    };
    let mut sel = GraphSelection::single_or_empty(h1);
    assert!(sel.contains(h1));
    sel.insert_or_exclude(h2);
    assert!(sel.contains(h2));
    sel.insert_or_exclude(h1);
    assert!(!sel.contains(h1));
    assert!(sel.contains(h2));
    assert_eq!(GraphSelection::single_or_empty(Handle::none()).nodes, vec![]);
}

#[test]
fn selection_changed_emits_once() {
    let (g, a, b, _c) = demo_graph();
    let wrapper = EditorSceneWrapper {
        graph: g,
        selection: Selection::Clear,
        path: None,
    };
    let clicked = vec![a, b];
    let cmd = wrapper.on_selection_changed(&clicked).unwrap();
    let installed = cmd.new_selection;
    // Apply the command, then hand the same input in again: no command.
    let wrapper = EditorSceneWrapper {
        graph: wrapper.graph,
        selection: installed,
        path: None,
    };
    assert!(wrapper.on_selection_changed(&clicked).is_none());
}

#[test]
fn selection_changed_toggles_duplicates() {
    let (g, a, b, _c) = demo_graph();
    let wrapper = EditorSceneWrapper {
        graph: g,
        selection: Selection::Clear,
        path: None,
    };
    // Clicking a twice toggles it away again: only b stays selected.
    let cmd = wrapper.on_selection_changed(&vec![a, b, a]).unwrap();
    match cmd.new_selection {
        Selection::Graph(gs) => assert_eq!(gs.nodes, vec![b]),
        _ => panic!("expected a graph selection"),
    }
}

#[test]
fn drop_reparents_the_whole_selection() {
    let (g, a, b, c) = demo_graph();
    let root = g.root();
    let wrapper = EditorSceneWrapper {
        graph: g,
        selection: Selection::Graph(GraphSelection {
            nodes: vec![a, c],
        }),
        path: None,
    };
    // Dropping a (part of the selection) onto the root: a is already fine,
    // c is reparented too; both pass the cycle check.
    let group = wrapper.on_drop(a, root).unwrap();
    assert_eq!(
        group.commands,
        vec![
            LinkNodesCommand {
                child: a,
                parent: root
            },
            LinkNodesCommand {
                child: c,
                parent: root
            }
        ]
    );
    // Dropping onto a descendant of everything selected: all filtered, no
    // command.
    assert!(wrapper.on_drop(a, c).is_none());
    // Dropping a node that is not part of the selection: no command.
    assert!(wrapper.on_drop(b, root).is_none());
}

#[test]
fn drop_skips_filtered_nodes() {
    let (g, a, _b, c) = demo_graph();
    let root = g.root();
    let wrapper = EditorSceneWrapper {
        graph: g,
        selection: Selection::Graph(GraphSelection {
            nodes: vec![a, c],
        }),
        path: None,
    };
    // Dropping onto b: a fails the cycle check (b is its descendant), c
    // passes; the batch holds only c.
    let b = wrapper.parent_of(c);
    let group = wrapper.on_drop(a, b).unwrap();
    assert_eq!(
        group.commands,
        vec![LinkNodesCommand {
            child: c,
            parent: b
        }]
    );
}

#[test]
fn wrapper_projection() {
    let (g, a, b, _c) = demo_graph();
    let root = g.root();
    let wrapper = EditorSceneWrapper {
        graph: g,
        selection: Selection::Graph(GraphSelection { nodes: vec![a] }),
        path: Some(String::from("scene.rgs")),
    };
    assert_eq!(wrapper.root_node(), root);
    assert_eq!(wrapper.path().unwrap(), "scene.rgs");
    assert_eq!(wrapper.children_of(root), vec![a]);
    assert_eq!(wrapper.child_count_of(a), 1);
    assert!(wrapper.is_node_has_child(a, b));
    assert_eq!(wrapper.parent_of(b), a);
    assert_eq!(wrapper.name_of(a).unwrap(), "a");
    assert!(wrapper.is_valid_handle(a));
    assert!(!wrapper.is_valid_handle(Handle::none()));
    assert_eq!(wrapper.icon_of(a), IconKind::Cube);
    assert!(!wrapper.is_instance(a));
    assert_eq!(wrapper.selection(), vec![a]);
    let report = wrapper.validate();
    assert_eq!(report.len(), 4);
    assert!(report.iter().all(|(_, r)| r.is_ok()));
}

#[test]
fn node_serialization_round_trip() {
    let node = Node {
        name: String::from("lamp post"),
        kind: NodeKind::PointLight,
        is_resource_instance: true,
        parent: Handle {
            index: 3,
            generation: 7,
        },
        children: vec![
            Handle {
                index: 4,
                generation: 1,
            },
            Handle {
                index: 9,
                generation: 2,
            },
        ],
    };
    let mut words: Vec<u64> = Vec::new();
    encode_node(&node, &mut words);
    let (back, end) = decode_node(&words, 0).unwrap();
    assert_eq!(end, words.len());
    assert_eq!(back.name, node.name);
    assert_eq!(back.kind, node.kind);
    assert_eq!(back.is_resource_instance, node.is_resource_instance);
    assert_eq!(back.parent, node.parent);
    assert_eq!(back.children, node.children);
}

#[test]
fn decode_rejects_garbage() {
    // A one-word stream claiming a longer name than it holds.
    let words: Vec<u64> = vec![5];
    assert!(decode_node(&words, 0).is_none());
    // A surrogate code point is not a character.
    let words: Vec<u64> = vec![1, 0xD800, 0, 0, 0, 0];
    assert!(decode_node(&words, 0).is_none());
}
