//! The editor's multi-selection: a set of node handles with an
//! insert-or-exclude toggle, as multi-select-by-click wants it.

use crate::pool::Handle;
use vstd::prelude::*;

verus! {

/// A selection over graph nodes. The list order records insertion order but
/// membership is what matters; the toggle keeps entries duplicate-free.
pub struct GraphSelection {
    pub nodes: Vec<Handle>,
}

impl GraphSelection {
    /// No entry appears twice.
    pub open spec fn wf(self) -> bool {
        forall|i: int, j: int| 0 <= i < j < self.nodes@.len() ==> self.nodes@[i] != self.nodes@[j]
    }

    /// A selection holding just `h`, or nothing for the null handle.
    pub fn single_or_empty(h: Handle) -> (s: GraphSelection)
        ensures
            s.wf(),
            h.spec_is_none() ==> s.nodes@ == Seq::<Handle>::empty(),
            !h.spec_is_none() ==> s.nodes@ == seq![h],
    {
        let mut nodes: Vec<Handle> = Vec::new();
        if h.index != 0 {
            nodes.push(h);
            proof {
                assert(nodes@ =~= seq![h]);
            }
        }
        GraphSelection { nodes }
    }

    /// Whether `h` is selected.
    #[verifier::loop_isolation(false)]
    pub fn contains(&self, h: Handle) -> (r: bool)
        ensures
            r == self.nodes@.contains(h),
    {
        let n = self.nodes.len();
        let mut i: usize = 0;
        while i < n
            invariant
                0 <= i <= n,
                n == self.nodes@.len(),
                forall|j: int| 0 <= j < i ==> self.nodes@[j] != h,
            decreases n - i,
        {
            if self.nodes[i] == h {
                return true;
            }
            i = i + 1;
        }
        false
    }

    /// Toggles `h`: a selected handle leaves the selection, an unselected one
    /// joins it at the end.
    #[verifier::loop_isolation(false)]
    pub fn insert_or_exclude(&mut self, h: Handle)
        requires
            old(self).wf(),
        ensures
            final(self).wf(),
            final(self).nodes@ == spec_toggle(old(self).nodes@, h),
    {
        let n = self.nodes.len();
        let mut i: usize = 0;
        let mut scanning: bool = true;
        while i < n && scanning
            invariant
                0 <= i <= n,
                n == self.nodes@.len(),
                self.nodes@ == old(self).nodes@,
                forall|j: int| 0 <= j < i ==> self.nodes@[j] != h,
                !scanning ==> i < n && self.nodes@[i as int] == h,
            decreases n - i + if scanning {
                1int
            } else {
                0int
            },
        {
            if self.nodes[i] == h {
                scanning = false;
            } else {
                i = i + 1;
            }
        }
        if scanning {
            proof {
                if self.nodes@.contains(h) {
                    let j = choose|j: int| 0 <= j < self.nodes@.len() && self.nodes@[j] == h;
                    assert(false);
                }
            }
            self.nodes.push(h);
            proof {
                assert forall|a: int, b: int|
                    0 <= a < b < self.nodes@.len() implies self.nodes@[a] != self.nodes@[b] by {
                    if b == self.nodes@.len() - 1 {
                        assert(old(self).nodes@[a] != h);
                    }
                }
            }
        } else {
            let ghost before = self.nodes@;
            self.nodes.remove(i);
            proof {
                before.index_of_first_ensures(h);
                let io: int = match before.index_of_first(h) {
                    Some(j) => j,
                    None => 0,
                };
                assert(io == i) by {
                    if io < i {
                        assert(before[io] != h);
                    }
                    if io > i {
                        assert(before[i as int] != before[io]);
                    }
                }
                assert(self.nodes@ == before.remove_value(h));
                before.remove_ensures(i as int);
                assert forall|a: int, b: int|
                    0 <= a < b < self.nodes@.len() implies self.nodes@[a] != self.nodes@[b] by {
                    let sa: int = if a < i {
                        a
                    } else {
                        a + 1
                    };
                    let sb: int = if b < i {
                        b
                    } else {
                        b + 1
                    };
                    assert(self.nodes@[a] == before[sa]);
                    assert(self.nodes@[b] == before[sb]);
                }
            }
        }
    }
}

/// What the toggle does to the selected set.
pub open spec fn spec_toggle(nodes: Seq<Handle>, h: Handle) -> Seq<Handle> {
    if nodes.contains(h) {
        nodes.remove_value(h)
    } else {
        nodes.push(h)
    }
}

/// The editor's current selection: nothing, or a set of graph nodes.
pub enum Selection {
    /// Nothing is selected.
    Clear,
    /// Graph nodes are selected.
    Graph(GraphSelection),
}

/// What a selection holds: nothing at all, or a (possibly empty) node list.
pub open spec fn sel_view(s: Selection) -> Option<Seq<Handle>> {
    match s {
        Selection::Clear => None,
        Selection::Graph(gs) => Some(gs.nodes@),
    }
}

pub open spec fn sel_wf(s: Selection) -> bool {
    match s {
        Selection::Clear => true,
        Selection::Graph(gs) => gs.wf(),
    }
}

/// Compares two selections by what they hold.
#[verifier::loop_isolation(false)]
pub fn selections_equal(a: &Selection, b: &Selection) -> (r: bool)
    ensures
        r == (sel_view(*a) == sel_view(*b)),
{
    match (a, b) {
        (Selection::Clear, Selection::Clear) => true,
        (Selection::Graph(ga), Selection::Graph(gb)) => {
            if ga.nodes.len() != gb.nodes.len() {
                proof {
                    assert(ga.nodes@ != gb.nodes@);
                }
                return false;
            }
            let n = ga.nodes.len();
            let mut i: usize = 0;
            while i < n
                invariant
                    0 <= i <= n,
                    n == ga.nodes@.len() == gb.nodes@.len(),
                    forall|j: int| 0 <= j < i ==> ga.nodes@[j] == gb.nodes@[j],
                decreases n - i,
            {
                if ga.nodes[i] != gb.nodes[i] {
                    proof {
                        assert(ga.nodes@ != gb.nodes@);
                    }
                    return false;
                }
                i = i + 1;
            }
            proof {
                assert(ga.nodes@ =~= gb.nodes@);
            }
            true
        },
        _ => {
            proof {
                assert(sel_view(*a) != sel_view(*b));
            }
            false
        },
    }
}

/// Copies a selection.
#[verifier::loop_isolation(false)]
pub fn clone_selection(s: &Selection) -> (r: Selection)
    ensures
        sel_view(r) == sel_view(*s),
        sel_wf(*s) ==> sel_wf(r),
{
    match s {
        Selection::Clear => Selection::Clear,
        Selection::Graph(gs) => {
            let mut nodes: Vec<Handle> = Vec::new();
            let n = gs.nodes.len();
            let mut i: usize = 0;
            while i < n
                invariant
                    0 <= i <= n,
                    n == gs.nodes@.len(),
                    nodes@ =~= gs.nodes@.take(i as int),
                decreases n - i,
            {
                nodes.push(gs.nodes[i]);
                proof {
                    assert(nodes@ =~= gs.nodes@.take(i + 1 as int));
                }
                i = i + 1;
            }
            proof {
                assert(gs.nodes@.take(n as int) =~= gs.nodes@);
            }
            Selection::Graph(GraphSelection { nodes })
        },
    }
}

} // verus!
