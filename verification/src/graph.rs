//! The scene graph: a forest of named nodes stored in a [`Pool`], each node
//! pointing at its parent and listing its children in draw order. Reparenting
//! walks the would-be parent's ancestor chain first and refuses to create a
//! cycle; refused links change nothing.

use crate::pool::{Handle, Pool};
use vstd::prelude::*;

verus! {

broadcast use crate::pool::lemma_live_in_range, crate::pool::lemma_len_bound;

// ---------------------------------------------------------------------------
// Ancestor chains
// ---------------------------------------------------------------------------
/// Following parents from `i` reaches the null index 0 within `fuel` steps.
pub open spec fn chain_reaches_null(m: Map<int, int>, i: int, fuel: nat) -> bool
    decreases fuel,
{
    if i == 0 {
        true
    } else if fuel == 0 {
        false
    } else if !m.dom().contains(i) {
        false
    } else {
        chain_reaches_null(m, m[i], (fuel - 1) as nat)
    }
}

/// Following parents from `i` reaches the null index 0.
pub open spec fn chain_terminates(m: Map<int, int>, i: int) -> bool {
    exists|f: nat| chain_reaches_null(m, i, f)
}

/// `t` appears within `fuel` steps on the chain `i`, parent of `i`, ... .
pub open spec fn chain_hits(m: Map<int, int>, i: int, t: int, fuel: nat) -> bool
    decreases fuel,
{
    if i == 0 {
        false
    } else if i == t {
        true
    } else if fuel == 0 {
        false
    } else if !m.dom().contains(i) {
        false
    } else {
        chain_hits(m, m[i], t, (fuel - 1) as nat)
    }
}

/// `t` is `i` itself or a (transitive) parent of `i`; equivalently, `i` is
/// `t` or one of its descendants.
pub open spec fn in_ancestor_chain(m: Map<int, int>, i: int, t: int) -> bool {
    exists|f: nat| chain_hits(m, i, t, f)
}

proof fn lemma_hits_step(m: Map<int, int>, i: int, t: int)
    requires
        i != 0,
        i != t,
        m.dom().contains(i),
    ensures
        in_ancestor_chain(m, i, t) == in_ancestor_chain(m, m[i], t),
{
    if in_ancestor_chain(m, i, t) {
        let f = choose|f: nat| chain_hits(m, i, t, f);
        assert(chain_hits(m, m[i], t, (f - 1) as nat));
    }
    if in_ancestor_chain(m, m[i], t) {
        let f = choose|f: nat| chain_hits(m, m[i], t, f);
        assert(chain_hits(m, i, t, f + 1));
    }
}

/// A chain that avoids `c` is untouched when `c` is redirected.
proof fn lemma_chain_avoiding_insert(m: Map<int, int>, c: int, p: int, i: int, f: nat)
    requires
        chain_reaches_null(m, i, f),
        !chain_hits(m, i, c, f),
    ensures
        chain_reaches_null(m.insert(c, p), i, f),
        !chain_hits(m.insert(c, p), i, c, f),
    decreases f,
{
    if i != 0 {
        assert(i != c);
        lemma_chain_avoiding_insert(m, c, p, m[i], (f - 1) as nat);
    }
}

/// Redirecting `c` onto a parent whose chain avoids `c` keeps every chain
/// terminating.
proof fn lemma_insert_keeps_termination(
    m: Map<int, int>,
    c: int,
    p: int,
    fp: nat,
    i: int,
    f: nat,
)
    requires
        c != 0,
        chain_reaches_null(m, p, fp),
        !chain_hits(m, p, c, fp),
        chain_reaches_null(m, i, f),
        m.dom().contains(c),
    ensures
        chain_terminates(m.insert(c, p), i),
    decreases f,
{
    let m2 = m.insert(c, p);
    if i == 0 {
        assert(chain_reaches_null(m2, 0, 0));
    } else if i == c {
        lemma_chain_avoiding_insert(m, c, p, p, fp);
        assert(chain_reaches_null(m2, c, fp + 1));
    } else {
        lemma_insert_keeps_termination(m, c, p, fp, m[i], (f - 1) as nat);
        let g = choose|g: nat| chain_reaches_null(m2, m[i], g);
        assert(chain_reaches_null(m2, i, g + 1));
    }
}

/// A terminating chain keeps terminating in any map that extends its own.
proof fn lemma_chain_extend(m: Map<int, int>, m2: Map<int, int>, i: int, f: nat)
    requires
        chain_reaches_null(m, i, f),
        forall|j: int| #[trigger] m.dom().contains(j) ==> m2.dom().contains(j) && m2[j] == m[j],
    ensures
        chain_reaches_null(m2, i, f),
    decreases f,
{
    if i != 0 {
        assert(m.dom().contains(i));
        lemma_chain_extend(m, m2, m[i], (f - 1) as nat);
    }
}

/// A node stands in at most one children list: whoever lists it is its
/// parent, and a handle determines its slot. Together with `link`'s contract
/// — one removal, one append, live count unchanged — a reparent moves a node
/// from exactly one children list to exactly one other.
pub proof fn lemma_one_owner(g: Graph, i: int, j: int, h: Handle)
    requires
        g.wf(),
        g.spec_live(i),
        g.spec_live(j),
        g.spec_children(i).contains(h),
        g.spec_children(j).contains(h),
    ensures
        i == j,
{
    let ki = choose|k: int| 0 <= k < g.spec_children(i).len() && g.spec_children(i)[k] == h;
    let kj = choose|k: int| 0 <= k < g.spec_children(j).len() && g.spec_children(j)[k] == h;
    assert(g.spec_children(i)[ki] == h);
    assert(g.spec_children(j)[kj] == h);
    assert(g.spec_parent_of(h.index as int) == g.spec_handle(i));
    assert(g.spec_parent_of(h.index as int) == g.spec_handle(j));
}

/// On a terminating chain no node is its own parent.
proof fn lemma_no_self_parent(m: Map<int, int>, i: int, f: nat)
    requires
        i != 0,
        chain_reaches_null(m, i, f),
    ensures
        m.dom().contains(i) && m[i] != i,
    decreases f,
{
    if m[i] == i {
        lemma_no_self_parent(m, i, (f - 1) as nat);
    }
}

/// Removing one value from a duplicate-free sequence that holds it: one
/// element shorter, the value gone, everything else kept, still
/// duplicate-free.
proof fn lemma_remove_value_distinct<A>(s: Seq<A>, v: A)
    requires
        s.contains(v),
        forall|i: int, j: int| 0 <= i < j < s.len() ==> s[i] != s[j],
    ensures
        ({
            let r = s.remove_value(v);
            &&& r.len() == s.len() - 1
            &&& forall|x: A| #[trigger] r.contains(x) <==> (s.contains(x) && x != v)
            &&& forall|i: int, j: int| 0 <= i < j < r.len() ==> r[i] != r[j]
        }),
{
    s.index_of_first_ensures(v);
    let k: int = match s.index_of_first(v) {
        Some(i) => i,
        None => 0,
    };
    let r = s.remove_value(v);
    assert(r == s.remove(k));
    s.remove_ensures(k);
    assert forall|x: A| #[trigger] r.contains(x) implies (s.contains(x) && x != v) by {
        let j = choose|j: int| 0 <= j < r.len() && r[j] == x;
        if j < k {
            assert(s[j] == x);
            assert(x != v);
        } else {
            assert(s[j + 1] == x);
            assert(x != v);
        }
    }
    assert forall|x: A| s.contains(x) && x != v implies r.contains(x) by {
        let j = choose|j: int| 0 <= j < s.len() && s[j] == x;
        if j < k {
            assert(r[j] == x);
        } else {
            assert(j != k);
            assert(r[j - 1] == x);
        }
    }
    assert forall|i: int, j: int| 0 <= i < j < r.len() implies r[i] != r[j] by {
        let si: int = if i < k {
            i
        } else {
            i + 1
        };
        let sj: int = if j < k {
            j
        } else {
            j + 1
        };
        assert(r[i] == s[si]);
        assert(r[j] == s[sj]);
    }
}

// ---------------------------------------------------------------------------
// Nodes
// ---------------------------------------------------------------------------
/// The closed classification of node kinds the editor distinguishes.
#[derive(Clone, Copy, Debug, PartialEq, Eq, Structural, Hash)]
pub enum NodeKind {
    /// Any node with no special classification.
    Base,
    PointLight,
    DirectionalLight,
    SpotLight,
    Joint,
    Joint2d,
    RigidBody,
    RigidBody2d,
    Collider,
    Collider2d,
    Sound,
}

/// The icon category a node shows in the tree view; resolving a category to
/// an image asset is the caller's business.
#[derive(Clone, Copy, Debug, PartialEq, Eq, Structural, Hash)]
pub enum IconKind {
    Light,
    Joint,
    RigidBody,
    Collider,
    Sound,
    Cube,
}

/// Which icon a node kind shows.
pub open spec fn spec_icon_of(kind: NodeKind) -> IconKind {
    match kind {
        NodeKind::PointLight => IconKind::Light,
        NodeKind::DirectionalLight => IconKind::Light,
        NodeKind::SpotLight => IconKind::Light,
        NodeKind::Joint => IconKind::Joint,
        NodeKind::Joint2d => IconKind::Joint,
        NodeKind::RigidBody => IconKind::RigidBody,
        NodeKind::RigidBody2d => IconKind::RigidBody,
        NodeKind::Collider => IconKind::Collider,
        NodeKind::Collider2d => IconKind::Collider,
        NodeKind::Sound => IconKind::Sound,
        NodeKind::Base => IconKind::Cube,
    }
}

/// One scene node, owned by the graph's pool.
pub struct Node {
    pub name: String,
    pub kind: NodeKind,
    /// The node was instantiated from an external resource.
    pub is_resource_instance: bool,
    /// The owning parent; the null handle for a detached node or the root.
    pub parent: Handle,
    /// Children in draw order.
    pub children: Vec<Handle>,
}

/// The structural check `validate` runs on one node: a joint must hang
/// under a rigid body of the matching dimension.
pub open spec fn spec_node_rule_ok(kind: NodeKind, parent_live: bool, parent_kind: NodeKind) -> bool {
    match kind {
        NodeKind::Joint => parent_live && parent_kind == NodeKind::RigidBody,
        NodeKind::Joint2d => parent_live && parent_kind == NodeKind::RigidBody2d,
        _ => true,
    }
}

// ---------------------------------------------------------------------------
// The graph
// ---------------------------------------------------------------------------
/// A forest of pooled nodes with one distinguished root.
pub struct Graph {
    pool: Pool<Node>,
    root: Handle,
}

impl Graph {
    pub closed spec fn spec_root(self) -> Handle {
        self.root
    }

    spec fn pool_view(self) -> Pool<Node> {
        self.pool
    }

    pub closed spec fn spec_len(self) -> int {
        self.pool.spec_len()
    }

    pub closed spec fn spec_live(self, i: int) -> bool {
        self.pool.spec_live(i)
    }

    pub closed spec fn spec_node(self, i: int) -> Node {
        self.pool.spec_value(i)
    }

    pub closed spec fn spec_is_valid(self, h: Handle) -> bool {
        self.pool.spec_is_valid(h)
    }

    pub closed spec fn spec_live_count(self) -> int {
        self.pool.spec_live_count()
    }

    /// The (unique) valid handle of live slot `i`.
    pub closed spec fn spec_handle(self, i: int) -> Handle {
        Handle { index: i as u32, generation: self.pool.slot_gen(i) as u32 }
    }

    pub open spec fn spec_children(self, i: int) -> Seq<Handle> {
        self.spec_node(i).children@
    }

    pub open spec fn spec_parent_of(self, i: int) -> Handle {
        self.spec_node(i).parent
    }

    /// The parent relation at index level: defined on live indices, mapping
    /// each to its parent's index (0 when detached or root).
    pub closed spec fn parent_map(self) -> Map<int, int> {
        Map::new(|i: int| self.spec_live(i), |i: int| self.spec_node(i).parent.index as int)
    }

    spec fn children_ok(self) -> bool {
        forall|i: int, k: int|
            self.spec_live(i) && 0 <= k < self.spec_children(i).len() ==> {
                let c = #[trigger] self.spec_children(i)[k];
                &&& self.spec_is_valid(c)
                &&& c.index as int != i
                &&& self.spec_parent_of(c.index as int) == self.spec_handle(i)
            }
    }

    spec fn children_distinct(self) -> bool {
        forall|i: int, k1: int, k2: int|
            #![trigger self.spec_children(i)[k1], self.spec_children(i)[k2]]
            self.spec_live(i) && 0 <= k1 < k2 < self.spec_children(i).len()
                ==> self.spec_children(i)[k1] != self.spec_children(i)[k2]
    }

    spec fn parents_ok(self) -> bool {
        forall|i: int|
            #[trigger] self.spec_live(i) ==> (self.spec_parent_of(i) == Handle::spec_none() || (
            self.spec_is_valid(self.spec_parent_of(i)) && self.spec_children(
                self.spec_parent_of(i).index as int,
            ).contains(self.spec_handle(i))))
    }

    spec fn acyclic(self) -> bool {
        forall|i: int| #[trigger]
            self.spec_live(i) ==> chain_terminates(self.parent_map(), i)
    }

    /// The graph's structural invariant: a well-formed pool; a valid root
    /// whose parent is null; children lists holding valid, distinct handles
    /// whose nodes point back at their one owner; parent pointers answered by
    /// the parent's children list; and every ancestor chain ending at null.
    pub closed spec fn wf(self) -> bool {
        &&& self.pool.wf()
        &&& self.pool.spec_is_valid(self.root)
        &&& self.spec_parent_of(self.root.index as int) == Handle::spec_none()
        &&& self.children_ok()
        &&& self.children_distinct()
        &&& self.parents_ok()
        &&& self.acyclic()
    }

    /// A fresh graph holding only its root node.
    pub fn new(root_name: String) -> (g: Graph)
        ensures
            g.wf(),
            g.spec_is_valid(g.spec_root()),
            g.spec_live_count() == 1,
            g.spec_node(g.spec_root().index as int).name == root_name,
            g.spec_node(g.spec_root().index as int).kind == NodeKind::Base,
            g.spec_children(g.spec_root().index as int) == Seq::<Handle>::empty(),
    {
        let mut pool: Pool<Node> = Pool::new();
        let root = pool.spawn(
            Node {
                name: root_name,
                kind: NodeKind::Base,
                is_resource_instance: false,
                parent: Handle::none(),
                children: Vec::new(),
            },
        );
        let g = Graph { pool, root };
        proof {
            assert(g.spec_children(root.index as int) =~= Seq::<Handle>::empty());
            assert forall|i: int| #[trigger]
                g.spec_live(i) implies chain_terminates(g.parent_map(), i) by {
                assert(i == root.index as int);
                assert(g.parent_map()[i] == 0);
                assert(chain_reaches_null(g.parent_map(), 0, 0));
                assert(chain_reaches_null(g.parent_map(), i, 1));
            }
        }
        g
    }

    /// The distinguished root.
    pub fn root(&self) -> (h: Handle)
        ensures
            h == self.spec_root(),
    {
        self.root
    }

    pub fn is_valid(&self, h: Handle) -> (r: bool)
        ensures
            r == self.spec_is_valid(h),
    {
        self.pool.is_valid(h)
    }

    /// Spawns a new detached node (no parent, no children).
    pub fn spawn_node(&mut self, name: String, kind: NodeKind, is_resource_instance: bool) -> (h:
        Handle)
        requires
            old(self).wf(),
            old(self).spec_len() < u32::MAX as int,
        ensures
            final(self).wf(),
            final(self).spec_is_valid(h),
            !old(self).spec_is_valid(h),
            final(self).spec_root() == old(self).spec_root(),
            final(self).spec_is_valid(old(self).spec_root()),
            final(self).spec_live_count() == old(self).spec_live_count() + 1,
            final(self).spec_node(h.index as int) == (Node {
                name,
                kind,
                is_resource_instance,
                parent: Handle::spec_none(),
                children: final(self).spec_node(h.index as int).children,
            }),
            final(self).spec_children(h.index as int) == Seq::<Handle>::empty(),
            forall|i: int|
                0 < i < old(self).spec_len() && i != h.index as int ==> #[trigger] final(self).spec_live(i) == old(self).spec_live(i),
            forall|i: int|
                0 < i < old(self).spec_len() && i != h.index as int && old(self).spec_live(i)
                    ==> #[trigger] final(self).spec_node(i) == old(self).spec_node(i) && final(self).spec_handle(i) == old(self).spec_handle(i),
            forall|hh: Handle|
                old(self).spec_is_valid(hh) ==> #[trigger] final(self).spec_is_valid(hh),
    {
        let node = Node {
            name,
            kind,
            is_resource_instance,
            parent: Handle::none(),
            children: Vec::new(),
        };
        let h = self.pool.spawn(node);
        proof {
            let g = *self;
            let old_g = *old(self);
            assert(g.spec_children(h.index as int) =~= Seq::<Handle>::empty());
            let m = old_g.parent_map();
            let m2 = g.parent_map();
            assert forall|j: int| m.dom().contains(j) implies m2.dom().contains(j) && m2[j]
                == m[j] by {
                assert(old_g.spec_live(j));
                assert(j != h.index as int);
            }
            assert forall|i: int| #[trigger] g.spec_live(i) implies chain_terminates(m2, i) by {
                if i == h.index as int {
                    assert(m2[i] == 0);
                    assert(chain_reaches_null(m2, 0, 0));
                    assert(chain_reaches_null(m2, i, 1));
                } else {
                    assert(old_g.spec_live(i));
                    let f = choose|f: nat| chain_reaches_null(m, i, f);
                    lemma_chain_extend(m, m2, i, f);
                }
            }
            assert(g.children_ok()) by {
                assert forall|i: int, k: int|
                    g.spec_live(i) && 0 <= k < g.spec_children(i).len() implies {
                    let c = #[trigger] g.spec_children(i)[k];
                    &&& g.spec_is_valid(c)
                    &&& c.index as int != i
                    &&& g.spec_parent_of(c.index as int) == g.spec_handle(i)
                } by {
                    assert(i != h.index as int);
                    assert(g.spec_live(i) == old_g.spec_live(i));
                    assert(old_g.spec_live(i));
                    assert(g.spec_node(i) == old_g.spec_node(i));
                    let c = g.spec_children(i)[k];
                    assert(old_g.spec_children(i)[k] == c);
                    assert(old_g.spec_is_valid(c));
                    assert(c.index as int != h.index as int);
                    assert(g.spec_live(c.index as int) == old_g.spec_live(c.index as int));
                    assert(g.spec_node(c.index as int) == old_g.spec_node(c.index as int));
                    assert(g.spec_handle(i) == old_g.spec_handle(i));
                }
            }
            assert forall|hh: Handle| old_g.spec_is_valid(hh) implies g.spec_is_valid(hh) by {
                assert(hh.index as int != h.index as int);
                assert(g.spec_live(hh.index as int) == old_g.spec_live(hh.index as int));
            }
            assert(g.spec_is_valid(old_g.spec_root()));
            assert(g.spec_node(old_g.spec_root().index as int) == old_g.spec_node(
                old_g.spec_root().index as int,
            ));
            assert(g.children_distinct()) by {
                assert forall|i: int, k1: int, k2: int|
                    #![trigger g.spec_children(i)[k1], g.spec_children(i)[k2]]
                    g.spec_live(i) && 0 <= k1 < k2 < g.spec_children(i).len() implies g.spec_children(
                    i,
                )[k1] != g.spec_children(i)[k2] by {
                    assert(i != h.index as int);
                    assert(old_g.spec_live(i));
                    assert(g.spec_node(i) == old_g.spec_node(i));
                    assert(old_g.spec_children(i)[k1] != old_g.spec_children(i)[k2]);
                }
            }
            assert(g.parents_ok()) by {
                assert forall|i: int| #[trigger] g.spec_live(i) implies (g.spec_parent_of(i)
                    == Handle::spec_none() || (g.spec_is_valid(g.spec_parent_of(i))
                    && g.spec_children(g.spec_parent_of(i).index as int).contains(
                    g.spec_handle(i),
                ))) by {
                    if i != h.index as int {
                        assert(old_g.spec_live(i));
                        let p = old_g.spec_parent_of(i);
                        if p != Handle::spec_none() {
                            assert(p.index as int != h.index as int);
                            assert(g.spec_children(p.index as int) == old_g.spec_children(
                                p.index as int,
                            ));
                        }
                    }
                }
            }
        }
        h
    }

    /// Number of slots the graph's pool holds, the reserved null slot
    /// included; `spawn_node` asks for this to stay below the handles'
    /// index range.
    pub fn slot_count(&self) -> (n: usize)
        ensures
            n as int == self.spec_len(),
    {
        self.pool.slot_count()
    }

    /// The children of a node, in draw order; empty for an invalid handle.
    #[verifier::loop_isolation(false)]
    pub fn children_of(&self, h: Handle) -> (r: Vec<Handle>)
        ensures
            self.spec_is_valid(h) ==> r@ == self.spec_children(h.index as int),
            !self.spec_is_valid(h) ==> r@ == Seq::<Handle>::empty(),
    {
        match self.pool.try_get(h) {
            Some(node) => {
                let mut out: Vec<Handle> = Vec::new();
                let n = node.children.len();
                let mut i: usize = 0;
                while i < n
                    invariant
                        0 <= i <= n,
                        n == node.children@.len(),
                        out@ =~= node.children@.take(i as int),
                    decreases n - i,
                {
                    out.push(node.children[i]);
                    proof {
                        assert(out@ =~= node.children@.take(i + 1 as int));
                    }
                    i = i + 1;
                }
                proof {
                    assert(node.children@.take(n as int) =~= node.children@);
                }
                out
            },
            None => {
                let out: Vec<Handle> = Vec::new();
                proof {
                    assert(out@ =~= Seq::<Handle>::empty());
                }
                out
            },
        }
    }

    /// How many children a node has; zero for an invalid handle.
    pub fn child_count_of(&self, h: Handle) -> (n: usize)
        ensures
            self.spec_is_valid(h) ==> n == self.spec_children(h.index as int).len(),
            !self.spec_is_valid(h) ==> n == 0,
    {
        match self.pool.try_get(h) {
            Some(node) => node.children.len(),
            None => 0,
        }
    }

    /// Whether `child` stands in `h`'s children list.
    #[verifier::loop_isolation(false)]
    pub fn has_child(&self, h: Handle, child: Handle) -> (r: bool)
        ensures
            r == (self.spec_is_valid(h) && self.spec_children(h.index as int).contains(child)),
    {
        match self.pool.try_get(h) {
            Some(node) => {
                let n = node.children.len();
                let mut i: usize = 0;
                while i < n
                    invariant
                        0 <= i <= n,
                        n == node.children@.len(),
                        forall|j: int| 0 <= j < i ==> node.children@[j] != child,
                    decreases n - i,
                {
                    if node.children[i] == child {
                        return true;
                    }
                    i = i + 1;
                }
                false
            },
            None => false,
        }
    }

    /// A node's parent handle; the null handle for an invalid handle, a
    /// detached node or the root.
    pub fn parent_of(&self, h: Handle) -> (p: Handle)
        ensures
            self.spec_is_valid(h) ==> p == self.spec_parent_of(h.index as int),
            !self.spec_is_valid(h) ==> p == Handle::spec_none(),
    {
        match self.pool.try_get(h) {
            Some(node) => node.parent,
            None => Handle::none(),
        }
    }

    /// A node's name; nothing for an invalid handle.
    pub fn name_of(&self, h: Handle) -> (r: Option<String>)
        ensures
            match r {
                Some(n) => self.spec_is_valid(h) && n@ == self.spec_node(h.index as int).name@,
                None => !self.spec_is_valid(h),
            },
    {
        match self.pool.try_get(h) {
            Some(node) => Some(node.name.clone()),
            None => None,
        }
    }

    /// The icon category of a node. A stale or null handle is absorbed: it
    /// reads as the generic cube category, never an error.
    pub fn icon_kind_of(&self, h: Handle) -> (r: IconKind)
        ensures
            self.spec_is_valid(h) ==> r == spec_icon_of(self.spec_node(h.index as int).kind),
            !self.spec_is_valid(h) ==> r == IconKind::Cube,
    {
        let node = match self.pool.try_get(h) {
            Some(node) => node,
            None => {
                return IconKind::Cube;
            },
        };
        match node.kind {
            NodeKind::PointLight => IconKind::Light,
            NodeKind::DirectionalLight => IconKind::Light,
            NodeKind::SpotLight => IconKind::Light,
            NodeKind::Joint => IconKind::Joint,
            NodeKind::Joint2d => IconKind::Joint,
            NodeKind::RigidBody => IconKind::RigidBody,
            NodeKind::RigidBody2d => IconKind::RigidBody,
            NodeKind::Collider => IconKind::Collider,
            NodeKind::Collider2d => IconKind::Collider,
            NodeKind::Sound => IconKind::Sound,
            NodeKind::Base => IconKind::Cube,
        }
    }

    /// Walks the ancestor chain that starts at `start` itself, looking for
    /// `target`.
    #[verifier::loop_isolation(false)]
    pub fn chain_contains(&self, start: Handle, target: Handle) -> (r: bool)
        requires
            self.wf(),
            self.spec_is_valid(start),
            self.spec_is_valid(target),
        ensures
            r == in_ancestor_chain(self.parent_map(), start.index as int, target.index as int),
    {
        let ghost m = self.parent_map();
        let ghost t = target.index as int;
        let mut p: Handle = start;
        proof {
            assert(self.spec_live(start.index as int));
        }
        let ghost mut fuel: nat = choose|f: nat|
            chain_reaches_null(m, start.index as int, f);
        while p.index != 0
            invariant
                p.index == 0 || self.spec_is_valid(p),
                chain_reaches_null(m, p.index as int, fuel),
                in_ancestor_chain(m, start.index as int, t) == in_ancestor_chain(
                    m,
                    p.index as int,
                    t,
                ),
            decreases fuel,
        {
            if p.index == target.index {
                proof {
                    assert(chain_hits(m, p.index as int, t, 0));
                }
                return true;
            }
            proof {
                assert(m.dom().contains(p.index as int));
                lemma_hits_step(m, p.index as int, t);
            }
            let ghost old_fuel = fuel;
            let newp = self.parent_of(p);
            proof {
                assert(m[p.index as int] == newp.index as int);
                fuel = (old_fuel - 1) as nat;
                if !newp.spec_is_none() {
                    assert(self.spec_is_valid(newp));
                }
            }
            p = newp;
        }
        proof {
            assert(!in_ancestor_chain(m, 0, t)) by {
                assert forall|f: nat| !chain_hits(m, 0, t, f) by {}
            }
        }
        false
    }

    /// Whether `link(child, parent)` is accepted: both handles must be valid,
    /// the root cannot be reparented, and `parent` must not be `child` or one
    /// of `child`'s descendants — the one mutation that could close a cycle.
    pub open spec fn spec_can_link(self, child: Handle, parent: Handle) -> bool {
        &&& self.spec_is_valid(child)
        &&& self.spec_is_valid(parent)
        &&& child.index != self.spec_root().index
        &&& !in_ancestor_chain(self.parent_map(), parent.index as int, child.index as int)
    }

    /// Reparents `child` under `parent`: the child leaves its old parent's
    /// children list (if it had a parent) and is appended to the new parent's
    /// list. The link is refused — and nothing changes — exactly when a handle
    /// is stale, the child is the root, or the new parent is the child itself
    /// or one of the child's descendants (which would close a cycle). The
    /// node count never changes.
    #[verifier::rlimit(100)]
    pub fn link(&mut self, child: Handle, parent: Handle) -> (linked: bool)
        requires
            old(self).wf(),
        ensures
            final(self).wf(),
            linked == old(self).spec_can_link(child, parent),
            !linked ==> *final(self) == *old(self),
            final(self).spec_root() == old(self).spec_root(),
            final(self).spec_len() == old(self).spec_len(),
            final(self).spec_live_count() == old(self).spec_live_count(),
            forall|i: int|
                0 < i < old(self).spec_len() ==> #[trigger] final(self).spec_live(i) == old(self).spec_live(i) && final(self).spec_handle(i) == old(self).spec_handle(i),
            forall|h: Handle| final(self).spec_is_valid(h) == old(self).spec_is_valid(h),
            linked ==> ({
                let c = child.index as int;
                let p = parent.index as int;
                let q = old(self).spec_parent_of(c);
                &&& final(self).spec_parent_of(c) == parent
                &&& (q != parent ==> final(self).spec_children(p) == old(self).spec_children(
                    p,
                ).push(child))
                &&& (q == parent ==> final(self).spec_children(p) == old(self).spec_children(
                    p,
                ).remove_value(child).push(child))
                &&& (!q.spec_is_none() && q != parent ==> final(self).spec_children(
                    q.index as int,
                ) == old(self).spec_children(q.index as int).remove_value(child))
                &&& (q.spec_is_none() ==> forall|i: int|
                    old(self).spec_live(i) && i != c && i != p ==> #[trigger] final(self).spec_node(i) == old(self).spec_node(i))
                &&& (!q.spec_is_none() ==> forall|i: int|
                    old(self).spec_live(i) && i != c && i != p && i != q.index as int
                        ==> #[trigger] final(self).spec_node(i) == old(self).spec_node(i))
                &&& final(self).spec_children(c) == old(self).spec_children(c)
                &&& final(self).spec_node(c).name == old(self).spec_node(c).name
                &&& final(self).spec_node(c).kind == old(self).spec_node(c).kind
                &&& final(self).spec_node(c).is_resource_instance == old(self).spec_node(
                    c,
                ).is_resource_instance
                &&& final(self).spec_node(p).parent == old(self).spec_node(p).parent
            }),
    {
        if !self.pool.is_valid(child) || !self.pool.is_valid(parent) {
            return false;
        }
        if child.index == self.root.index {
            return false;
        }
        if self.chain_contains(parent, child) {
            return false;
        }
        let ghost old_g = *self;
        let ghost m = old_g.parent_map();
        let ghost c = child.index as int;
        let ghost p = parent.index as int;

        // Point the child at its new parent; a placeholder node keeps the
        // slot occupied while the real node is out for editing.
        let placeholder = Node {
            name: String::new(),
            kind: NodeKind::Base,
            is_resource_instance: false,
            parent: Handle::none(),
            children: Vec::new(),
        };
        let mut cn: Node = match self.pool.replace(child, placeholder) {
            Some(n) => n,
            None => vstd::pervasive::unreached(),
        };
        let q: Handle = cn.parent;
        cn.parent = parent;
        let _ = self.pool.replace(child, cn);
        proof {
            assert(old_g.spec_live(c));
            lemma_no_self_parent(m, c, choose|f: nat| chain_reaches_null(m, c, f));
            assert(q.index as int != c);
        }

        // Unhook the child from its old parent's children list.
        if q.index != 0 {
            proof {
                assert(old_g.spec_is_valid(q));
                assert(self.pool.spec_len() == old_g.spec_len());
                assert(self.pool.spec_live(q.index as int) == old_g.pool_view().spec_live(
                    q.index as int,
                ));
                assert(self.pool.spec_is_valid(q));
            }
            let placeholder = Node {
                name: String::new(),
                kind: NodeKind::Base,
                is_resource_instance: false,
                parent: Handle::none(),
                children: Vec::new(),
            };
            let mut qn: Node = match self.pool.replace(q, placeholder) {
                Some(n) => n,
                None => vstd::pervasive::unreached(),
            };
            proof {
                assert(old_g.spec_children(q.index as int).contains(old_g.spec_handle(c)));
                assert(old_g.spec_handle(c) == child);
                assert(qn.children@ == old_g.spec_children(q.index as int));
            }
            let n = qn.children.len();
            let mut k: usize = 0;
            let mut scanning: bool = true;
            while k < n && scanning
                invariant
                    0 <= k <= n,
                    n == qn.children@.len(),
                    forall|j: int| 0 <= j < k ==> qn.children@[j] != child,
                    !scanning ==> k < n && qn.children@[k as int] == child,
                decreases n - k + if scanning {
                    1int
                } else {
                    0int
                },
            {
                if qn.children[k] == child {
                    scanning = false;
                } else {
                    k = k + 1;
                }
            }
            proof {
                if scanning {
                    assert(qn.children@.contains(child));
                    let j = choose|j: int| 0 <= j < qn.children@.len() && qn.children@[j]
                        == child;
                    assert(false);
                }
            }
            let ghost before_remove = qn.children@;
            qn.children.remove(k);
            proof {
                before_remove.index_of_first_ensures(child);
                let io: int = match before_remove.index_of_first(child) {
                    Some(i) => i,
                    None => 0,
                };
                assert(before_remove[io] == child);
                assert(io == k) by {
                    if io < k {
                        assert(before_remove[io] != child);
                    }
                    if io > k {
                        assert(old_g.spec_children(q.index as int)[k as int] != old_g.spec_children(
                            q.index as int,
                        )[io]);
                    }
                }
                assert(qn.children@ == before_remove.remove_value(child));
            }
            let _ = self.pool.replace(q, qn);
        }

        // Append the child to the new parent's children list.
        let placeholder = Node {
            name: String::new(),
            kind: NodeKind::Base,
            is_resource_instance: false,
            parent: Handle::none(),
            children: Vec::new(),
        };
        proof {
            assert(self.pool.spec_len() == old_g.spec_len());
            assert(self.pool.spec_live(p) == old_g.pool_view().spec_live(p));
            assert(self.pool.spec_is_valid(parent));
        }
        let mut pn: Node = match self.pool.replace(parent, placeholder) {
            Some(n) => n,
            None => vstd::pervasive::unreached(),
        };
        pn.children.push(child);
        let _ = self.pool.replace(parent, pn);
        proof {
            let g = *self;
            let qi = q.index as int;
            // State frame: length, liveness, generations and so validity are
            // untouched by the value swaps above.
            assert(g.spec_len() == old_g.spec_len());
            assert forall|i: int|
                0 < i < old_g.spec_len() implies #[trigger] g.pool_view().spec_live(i)
                == old_g.pool_view().spec_live(i) && g.pool_view().slot_gen(i)
                == old_g.pool_view().slot_gen(i) by {}
            assert forall|h2: Handle| g.spec_is_valid(h2) == old_g.spec_is_valid(h2) by {
                if !(0 < h2.index < old_g.spec_len()) {
                    assert(!old_g.spec_is_valid(h2));
                    assert(!g.spec_is_valid(h2));
                }
            }
            assert forall|i: int|
                0 < i < old_g.spec_len() implies #[trigger] g.spec_handle(i) == old_g.spec_handle(
                i,
            ) by {
                assert(g.pool_view().spec_live(i) == old_g.pool_view().spec_live(i));
            }
            let old_pc = old_g.spec_children(p);
            let base_pc: Seq<Handle> = if qi == p {
                old_pc.remove_value(child)
            } else {
                old_pc
            };
            assert(q == old_g.spec_parent_of(c));
            assert(old_g.spec_handle(c) == child);
            assert(old_g.spec_handle(p) == parent);
            assert(p != c) by {
                if p == c {
                    assert(chain_hits(m, p, c, 0));
                }
            }
            assert(!in_ancestor_chain(m, p, c));
            // Values of the touched nodes.
            assert(g.spec_node(c).parent == parent);
            assert(g.spec_children(c) == old_g.spec_children(c));
            assert(g.spec_node(p).parent == old_g.spec_node(p).parent);
            assert(g.spec_children(p) == base_pc.push(child));
            assert(qi != 0 && qi != p ==> g.spec_children(qi) == old_g.spec_children(
                qi,
            ).remove_value(child) && g.spec_node(qi).parent == old_g.spec_node(qi).parent);
            assert forall|i: int|
                old_g.spec_live(i) && i != c && i != p && i != qi implies #[trigger] g.spec_node(i)
                == old_g.spec_node(i) by {}
            // The child sat in no other list than its old parent's.
            assert(qi != p ==> !old_pc.contains(child)) by {
                if old_pc.contains(child) {
                    let k = choose|k: int| 0 <= k < old_pc.len() && old_pc[k] == child;
                    assert(old_g.spec_parent_of(c) == old_g.spec_handle(p));
                }
            }
            if qi != 0 {
                assert(old_g.spec_is_valid(q));
                lemma_remove_value_distinct(old_g.spec_children(qi), child);
            }
            // Any valid handle with the child's index is the child itself.
            assert forall|e: Handle| old_g.spec_is_valid(e) && e.index as int == c implies e
                == child by {}
            // children_ok
            assert forall|i: int, k: int|
                g.spec_live(i) && 0 <= k < g.spec_children(i).len() implies {
                let e = #[trigger] g.spec_children(i)[k];
                &&& g.spec_is_valid(e)
                &&& e.index as int != i
                &&& g.spec_parent_of(e.index as int) == g.spec_handle(i)
            } by {
                let e = g.spec_children(i)[k];
                assert(old_g.spec_live(i));
                if i == p {
                    if k < base_pc.len() {
                        assert(e == base_pc[k]);
                        assert(old_pc.contains(e)) by {
                            if qi == p {
                                assert(base_pc.contains(e));
                            } else {
                                assert(old_pc[k] == e);
                            }
                        }
                        let ko = choose|j: int| 0 <= j < old_pc.len() && old_pc[j] == e;
                        assert(old_g.spec_children(p)[ko] == e);
                        assert(e != child);
                        assert(e.index as int != c);
                        assert(g.spec_parent_of(e.index as int) == old_g.spec_parent_of(
                            e.index as int,
                        ));
                    } else {
                        assert(e == child);
                        assert(g.spec_parent_of(c) == parent);
                    }
                } else if qi != 0 && i == qi {
                    assert(g.spec_children(qi).contains(e));
                    assert(old_g.spec_children(qi).contains(e) && e != child);
                    let ko = choose|j: int|
                        0 <= j < old_g.spec_children(qi).len() && old_g.spec_children(qi)[j] == e;
                    assert(old_g.spec_children(qi)[ko] == e);
                    assert(e.index as int != c);
                    assert(g.spec_parent_of(e.index as int) == old_g.spec_parent_of(
                        e.index as int,
                    ));
                } else {
                    assert(g.spec_children(i) == old_g.spec_children(i));
                    assert(old_g.spec_children(i)[k] == e);
                    assert(e.index as int != c) by {
                        if e.index as int == c {
                            assert(old_g.spec_parent_of(c) == old_g.spec_handle(i));
                            assert(qi == i);
                        }
                    }
                    assert(g.spec_parent_of(e.index as int) == old_g.spec_parent_of(
                        e.index as int,
                    ));
                }
            }
            // children_distinct
            assert forall|i: int, k1: int, k2: int|
                #![trigger g.spec_children(i)[k1], g.spec_children(i)[k2]]
                g.spec_live(i) && 0 <= k1 < k2 < g.spec_children(i).len() implies g.spec_children(
                i,
            )[k1] != g.spec_children(i)[k2] by {
                assert(old_g.spec_live(i));
                if i == p {
                    assert(!base_pc.contains(child));
                    assert(forall|j1: int, j2: int|
                        0 <= j1 < j2 < base_pc.len() ==> base_pc[j1] != base_pc[j2]) by {
                        if qi != p {
                            assert(forall|j1: int, j2: int|
                                0 <= j1 < j2 < old_pc.len() ==> old_pc[j1] != old_pc[j2]);
                        }
                    }
                    if k2 == base_pc.len() {
                        assert(g.spec_children(p)[k1] == base_pc[k1]);
                        assert(base_pc.contains(base_pc[k1]));
                    }
                } else if qi != 0 && i == qi {
                } else {
                    assert(g.spec_children(i) == old_g.spec_children(i));
                    assert(old_g.spec_children(i)[k1] != old_g.spec_children(i)[k2]);
                }
            }
            // parents_ok
            assert forall|i: int| #[trigger] g.spec_live(i) implies (g.spec_parent_of(i)
                == Handle::spec_none() || (g.spec_is_valid(g.spec_parent_of(i))
                && g.spec_children(g.spec_parent_of(i).index as int).contains(
                g.spec_handle(i),
            ))) by {
                assert(old_g.spec_live(i));
                if i == c {
                    assert(g.spec_parent_of(c) == parent);
                    assert(g.spec_children(p)[base_pc.len() as int] == child);
                    assert(g.spec_children(p).contains(g.spec_handle(c)));
                } else {
                    let pr = g.spec_parent_of(i);
                    assert(pr == old_g.spec_parent_of(i));
                    if pr != Handle::spec_none() {
                        let e = old_g.spec_handle(i);
                        assert(old_g.spec_children(pr.index as int).contains(e));
                        assert(e != child) by {
                            if e == child {
                                assert(e.index as int == c);
                            }
                        }
                        if pr.index as int == p {
                            assert(base_pc.contains(e)) by {
                                if qi == p {
                                } else {
                                }
                            }
                            let j = choose|j: int| 0 <= j < base_pc.len() && base_pc[j] == e;
                            assert(g.spec_children(p)[j] == e);
                            assert(g.spec_children(p).contains(e));
                        } else if qi != 0 && pr.index as int == qi {
                            assert(g.spec_children(qi).contains(e));
                        } else {
                            assert(g.spec_children(pr.index as int) == old_g.spec_children(
                                pr.index as int,
                            ));
                        }
                        assert(g.spec_handle(i) == e);
                    }
                }
            }
            // acyclicity
            let m2 = g.parent_map();
            assert(m2 =~= m.insert(c, p)) by {
                assert forall|i: int| m2.dom().contains(i) == m.insert(c, p).dom().contains(
                    i,
                ) by {
                    assert(g.spec_live(i) == old_g.spec_live(i));
                }
                assert forall|i: int| m2.dom().contains(i) implies m2[i] == m.insert(c, p)[i] by {
                    if i != c {
                        assert(g.spec_node(i).parent == old_g.spec_node(i).parent);
                    }
                }
            }
            assert(old_g.spec_live(p));
            assert(chain_terminates(m, p));
            let fp: nat = choose|f: nat| chain_reaches_null(m, p, f);
            assert(chain_reaches_null(m, p, fp));
            assert(!chain_hits(m, p, c, fp));
            assert forall|i: int| #[trigger] g.spec_live(i) implies chain_terminates(m2, i) by {
                assert(old_g.spec_live(i));
                assert(chain_terminates(m, i));
                let f = choose|f: nat| chain_reaches_null(m, i, f);
                lemma_insert_keeps_termination(m, c, p, fp, i, f);
                assert(m2 == m.insert(c, p));
            }
            // root
            assert(g.spec_is_valid(g.spec_root()));
            assert(g.spec_root().index as int != c);
            assert(g.spec_parent_of(g.spec_root().index as int) == Handle::spec_none());
        }
        true
    }

    /// The indices of the live slots below `n`, in ascending order.
    pub open spec fn live_indices_upto(self, n: int) -> Seq<int>
        decreases n,
    {
        if n <= 0 {
            Seq::empty()
        } else if self.spec_live(n - 1) {
            self.live_indices_upto(n - 1).push(n - 1)
        } else {
            self.live_indices_upto(n - 1)
        }
    }

    /// Whether one node passes the structural check: a joint must hang under
    /// a rigid body of the matching dimension.
    pub open spec fn spec_node_ok(self, i: int) -> bool {
        let nd = self.spec_node(i);
        let pi = nd.parent.index as int;
        spec_node_rule_ok(nd.kind, self.spec_live(pi), self.spec_node(pi).kind)
    }

    /// Runs the per-node structural check over every live node, pairing each
    /// node with its own outcome; it never stops at the first failure, so
    /// the caller sees a complete report.
    #[verifier::loop_isolation(false)]
    pub fn validate(&self) -> (r: Vec<(Handle, Result<(), String>)>)
        requires
            self.wf(),
        ensures
            ({
                let live = self.live_indices_upto(self.spec_len());
                &&& r@.len() == live.len()
                &&& forall|k: int|
                    0 <= k < live.len() ==> (#[trigger] r@[k]).0 == self.spec_handle(live[k]) && (
                    r@[k].1 is Ok <==> self.spec_node_ok(live[k]))
            }),
    {
        let mut out: Vec<(Handle, Result<(), String>)> = Vec::new();
        let n: usize = self.pool.slot_count();
        let mut i: usize = 0;
        while i < n
            invariant
                0 <= i <= n,
                n == self.spec_len(),
                out@.len() == self.live_indices_upto(i as int).len(),
                forall|k: int|
                    0 <= k < out@.len() ==> (#[trigger] out@[k]).0 == self.spec_handle(
                        self.live_indices_upto(i as int)[k],
                    ) && (out@[k].1 is Ok <==> self.spec_node_ok(
                        self.live_indices_upto(i as int)[k],
                    )),
            decreases n - i,
        {
            match self.pool.handle_at(i) {
                Some(h) => {
                    let node = match self.pool.try_get(h) {
                        Some(node) => node,
                        None => vstd::pervasive::unreached(),
                    };
                    let ok: bool = match node.kind {
                        NodeKind::Joint => {
                            match self.pool.try_get(node.parent) {
                                Some(pn) => matches!(pn.kind, NodeKind::RigidBody),
                                None => false,
                            }
                        },
                        NodeKind::Joint2d => {
                            match self.pool.try_get(node.parent) {
                                Some(pn) => matches!(pn.kind, NodeKind::RigidBody2d),
                                None => false,
                            }
                        },
                        _ => true,
                    };
                    proof {
                        assert(self.spec_live(i as int));
                        let pr = self.spec_node(i as int).parent;
                        assert(pr == Handle::spec_none() || (self.spec_is_valid(pr)
                            && self.spec_children(pr.index as int).contains(
                            self.spec_handle(i as int),
                        )));
                        if pr == Handle::spec_none() {
                            assert(!self.pool.spec_live(0));
                        }
                        assert(h == self.spec_handle(i as int));
                        assert(ok == self.spec_node_ok(i as int));
                    }
                    let outcome: Result<(), String> = if ok {
                        Ok(())
                    } else {
                        let mut msg = String::new();
                        msg.append("a joint must be directly under a rigid body");
                        Err(msg)
                    };
                    out.push((h, outcome));
                },
                None => {},
            }
            proof {
                assert(self.live_indices_upto(i + 1 as int) == if self.spec_live(i as int) {
                    self.live_indices_upto(i as int).push(i as int)
                } else {
                    self.live_indices_upto(i as int)
                });
            }
            i = i + 1;
        }
        out
    }

    /// The kind of a node. A stale or null handle is absorbed: it reads as
    /// the base kind, never an error.
    pub fn kind_of(&self, h: Handle) -> (r: NodeKind)
        ensures
            self.spec_is_valid(h) ==> r == self.spec_node(h.index as int).kind,
            !self.spec_is_valid(h) ==> r == NodeKind::Base,
    {
        match self.pool.try_get(h) {
            Some(node) => node.kind,
            None => NodeKind::Base,
        }
    }

    /// Whether the node was instantiated from an external resource; false
    /// for an invalid handle.
    pub fn is_instance(&self, h: Handle) -> (r: bool)
        ensures
            r == (self.spec_is_valid(h) && self.spec_node(
                h.index as int,
            ).is_resource_instance),
    {
        match self.pool.try_get(h) {
            Some(node) => node.is_resource_instance,
            None => false,
        }
    }
}

} // verus!
