//! Generational-index storage: a pool of slots addressed by handles that
//! carry both a slot index and the generation the slot had when the handle
//! was made. Freeing a slot bumps its generation, so every handle taken out
//! earlier stays invalid forever. Index 0 is reserved for the null handle.
//!
//! Vacant slots form an intrusive free list: each free slot stores the index
//! of the next free slot, so allocation and release are O(1). A slot whose
//! generation space is exhausted is retired instead of reused.

use vstd::pervasive::unreached;
use vstd::prelude::*;

verus! {

/// A generational reference to a slot of a [`Pool`]. Handles are plain
/// values: they carry no ownership and may outlive what they refer to.
#[derive(Clone, Copy, Debug, PartialEq, Eq, Structural, Hash)]
pub struct Handle {
    pub index: u32,
    pub generation: u32,
}

impl Handle {
    /// The null handle; it refers to nothing and is never valid.
    pub open spec fn spec_none() -> Handle {
        Handle { index: 0, generation: 0 }
    }

    /// True of every handle with the reserved index 0.
    pub open spec fn spec_is_none(self) -> bool {
        self.index == 0
    }

    pub fn none() -> (h: Handle)
        ensures
            h == Handle::spec_none(),
    {
        Handle { index: 0, generation: 0 }
    }

    pub fn is_none(&self) -> (r: bool)
        ensures
            r == self.spec_is_none(),
    {
        self.index == 0
    }

    pub fn is_some(&self) -> (r: bool)
        ensures
            r == !self.spec_is_none(),
    {
        self.index != 0
    }
}

enum Slot<T> {
    /// Vacant and reusable: stores the generation the slot will carry when
    /// next occupied and the index of the next free slot (0 ends the list).
    Free { next_generation: u32, next_free: u32 },
    /// Vacant forever: the reserved slot 0, or a slot whose generation space
    /// is exhausted.
    Retired,
    /// In use.
    Occupied { generation: u32, value: T },
}

/// The generation counter a slot stands at; one past `u32::MAX` for retired
/// slots, which no handle can ever match again.
spec fn slot_gen_of<T>(s: Slot<T>) -> int {
    match s {
        Slot::Free { next_generation, .. } => next_generation as int,
        Slot::Retired => 0x1_0000_0000,
        Slot::Occupied { generation, .. } => generation as int,
    }
}

spec fn slot_next_free_of<T>(s: Slot<T>) -> u32 {
    match s {
        Slot::Free { next_free, .. } => next_free,
        _ => 0,
    }
}

spec fn slot_value_of<T>(s: Slot<T>) -> T {
    match s {
        Slot::Occupied { value, .. } => value,
        _ => vstd::pervasive::arbitrary(),
    }
}

/// Generational storage with O(1) allocate, release and lookup.
pub struct Pool<T> {
    slots: Vec<Slot<T>>,
    free_head: u32,
    free_order: Ghost<Seq<u32>>,
}

impl<T> Pool<T> {
    /// Number of slots, the reserved slot 0 included.
    pub closed spec fn spec_len(self) -> int {
        self.slots@.len() as int
    }

    /// The generation counter of slot `i`.
    pub closed spec fn slot_gen(self, i: int) -> int {
        slot_gen_of(self.slots@[i])
    }

    /// Slot `i` currently holds a value.
    pub closed spec fn spec_live(self, i: int) -> bool {
        0 < i < self.spec_len() && self.slots@[i] is Occupied
    }

    /// The value slot `i` holds.
    pub closed spec fn spec_value(self, i: int) -> T {
        slot_value_of(self.slots@[i])
    }

    /// A handle is valid exactly when its slot is live at the handle's own
    /// generation.
    pub open spec fn spec_is_valid(self, h: Handle) -> bool {
        &&& 0 < h.index < self.spec_len()
        &&& self.spec_live(h.index as int)
        &&& self.slot_gen(h.index as int) == h.generation as int
    }

    /// How many slots before `n` are live.
    pub closed spec fn count_live_upto(self, n: int) -> int
        decreases n,
    {
        if n <= 0 {
            0
        } else {
            self.count_live_upto(n - 1) + if self.spec_live(n - 1) {
                1int
            } else {
                0int
            }
        }
    }

    /// How many values the pool holds.
    pub open spec fn spec_live_count(self) -> int {
        self.count_live_upto(self.spec_len())
    }

    /// Slot generations never move backwards.
    pub open spec fn gens_monotone_from(self, earlier: Pool<T>) -> bool {
        &&& self.spec_len() >= earlier.spec_len()
        &&& forall|i: int|
            0 < i < earlier.spec_len() ==> #[trigger] self.slot_gen(i) >= earlier.slot_gen(i)
    }

    spec fn free_list_wf(self) -> bool {
        let fl = self.free_order@;
        &&& forall|k: int|
            0 <= k < fl.len() ==> 0 < (#[trigger] fl[k]) < self.slots@.len() && self.slots@[
                fl[k] as int
            ] is Free
        &&& forall|k1: int, k2: int| 0 <= k1 < k2 < fl.len() ==> fl[k1] != fl[k2]
        &&& forall|i: int|
            0 < i < self.slots@.len() && self.slots@[i] is Free ==> fl.contains(i as u32)
        &&& self.free_head == if fl.len() == 0 {
            0u32
        } else {
            fl[0]
        }
        &&& forall|k: int|
            0 <= k < fl.len() ==> slot_next_free_of(#[trigger] self.slots@[fl[k] as int]) == (if k
                + 1 < fl.len() {
                fl[k + 1]
            } else {
                0u32
            })
    }

    /// The pool's structural invariant.
    pub closed spec fn wf(self) -> bool {
        &&& 1 <= self.slots@.len() <= u32::MAX as int
        &&& self.slots@[0] is Retired
        &&& self.free_list_wf()
    }

    /// An empty pool: only the reserved null slot.
    pub fn new() -> (p: Pool<T>)
        ensures
            p.wf(),
            p.spec_len() == 1,
            p.spec_live_count() == 0,
            forall|h: Handle| !p.spec_is_valid(h),
    {
        let mut slots: Vec<Slot<T>> = Vec::new();
        slots.push(Slot::Retired);
        let p = Pool { slots, free_head: 0u32, free_order: Ghost(Seq::empty()) };
        proof {
            assert(p.count_live_upto(0) == 0);
            assert(p.count_live_upto(1) == 0);
        }
        p
    }

    pub fn is_valid(&self, h: Handle) -> (r: bool)
        ensures
            r == self.spec_is_valid(h),
    {
        if h.index == 0 {
            return false;
        }
        let idx = h.index as usize;
        if idx >= self.slots.len() {
            return false;
        }
        match &self.slots[idx] {
            Slot::Occupied { generation, .. } => *generation == h.generation,
            _ => false,
        }
    }

    /// Looks a handle up, yielding nothing when the handle is stale or null.
    pub fn try_get(&self, h: Handle) -> (r: Option<&T>)
        ensures
            match r {
                Some(v) => self.spec_is_valid(h) && *v == self.spec_value(h.index as int),
                None => !self.spec_is_valid(h),
            },
    {
        if h.index == 0 {
            return None;
        }
        let idx = h.index as usize;
        if idx >= self.slots.len() {
            return None;
        }
        match &self.slots[idx] {
            Slot::Occupied { generation, value } => {
                if *generation == h.generation {
                    Some(value)
                } else {
                    None
                }
            },
            _ => None,
        }
    }

    /// Two pools of equal length whose liveness agrees everywhere but at
    /// `idx` differ by exactly the liveness step at `idx` in their counts.
    proof fn lemma_count_one_change(self, other: Pool<T>, idx: int, n: int)
        requires
            self.spec_len() == other.spec_len(),
            0 <= idx < self.spec_len(),
            n <= self.spec_len(),
            forall|i: int| 0 <= i < self.spec_len() && i != idx ==> self.spec_live(i)
                == other.spec_live(i),
        ensures
            self.count_live_upto(n) - other.count_live_upto(n) == if idx < n {
                (if self.spec_live(idx) {
                    1int
                } else {
                    0int
                }) - (if other.spec_live(idx) {
                    1int
                } else {
                    0int
                })
            } else {
                0int
            },
        decreases n,
    {
        if n > 0 {
            self.lemma_count_one_change(other, idx, n - 1);
        }
    }

    /// Pools whose liveness agrees below `n` count alike below `n`.
    proof fn lemma_count_congruent(self, other: Pool<T>, n: int)
        requires
            forall|i: int| 0 <= i < n ==> self.spec_live(i) == other.spec_live(i),
        ensures
            self.count_live_upto(n) == other.count_live_upto(n),
        decreases n,
    {
        if n > 0 {
            self.lemma_count_congruent(other, n - 1);
        }
    }

    /// Takes the lowest free-list slot or appends a new one, and hands back
    /// a handle that no earlier handle equals.
    pub fn spawn(&mut self, value: T) -> (h: Handle)
        requires
            old(self).wf(),
            old(self).spec_len() < u32::MAX as int,
        ensures
            final(self).wf(),
            final(self).spec_is_valid(h),
            0 < h.index < final(self).spec_len(),
            !old(self).spec_live(h.index as int),
            h.index as int >= old(self).spec_len() || h.generation as int == old(self).slot_gen(
                h.index as int,
            ),
            final(self).spec_value(h.index as int) == value,
            final(self).spec_len() == (if (h.index as int) < old(self).spec_len() {
                old(self).spec_len()
            } else {
                old(self).spec_len() + 1
            }),
            forall|i: int|
                0 < i < old(self).spec_len() && i != h.index as int
                    ==> #[trigger] final(self).spec_live(i) == old(self).spec_live(i)
                    && final(self).slot_gen(i) == old(self).slot_gen(i),
            forall|i: int|
                0 < i < old(self).spec_len() && i != h.index as int && old(self).spec_live(i)
                    ==> #[trigger] final(self).spec_value(i) == old(self).spec_value(i),
            final(self).gens_monotone_from(*old(self)),
            final(self).spec_live_count() == old(self).spec_live_count() + 1,
    {
        if self.free_head != 0 {
            let hidx: u32 = self.free_head;
            let idx: usize = hidx as usize;
            proof {
                assert(self.free_order@.len() > 0);
                assert(self.free_order@[0] == self.free_head);
            }
            let (gen, nf): (u32, u32) = match &self.slots[idx] {
                Slot::Free { next_generation, next_free } => (*next_generation, *next_free),
                _ => unreached(),
            };
            self.slots[idx] = Slot::Occupied { generation: gen, value };
            self.free_head = nf;
            proof {
                let old_fl = self.free_order@;
                self.free_order = Ghost(old_fl.drop_first());
                let fl = self.free_order@;
                assert forall|i: int|
                    0 < i < self.slots@.len() && self.slots@[i] is Free implies fl.contains(
                    i as u32,
                ) by {
                    assert(old(self).slots@[i] is Free);
                    let k = choose|k: int|
                        0 <= k < old_fl.len() && old_fl[k] == i as u32;
                    assert(k != 0);
                    assert(fl[k - 1] == i as u32);
                }
                assert(self.free_list_wf());
                old(self).lemma_count_one_change(*self, idx as int, self.spec_len());
            }
            Handle { index: hidx, generation: gen }
        } else {
            let idx: usize = self.slots.len();
            self.slots.push(Slot::Occupied { generation: 1, value });
            proof {
                let fl = self.free_order@;
                assert(fl.len() == 0);
                assert forall|i: int|
                    0 < i < self.slots@.len() && self.slots@[i] is Free implies fl.contains(
                    i as u32,
                ) by {
                    assert(i < idx as int ==> old(self).slots@[i] is Free);
                }
                assert(self.free_list_wf());
                old(self).lemma_count_congruent(*self, idx as int);
                assert(self.count_live_upto(idx + 1 as int) == self.count_live_upto(idx as int)
                    + 1);
            }
            Handle { index: idx as u32, generation: 1 }
        }
    }

    /// Releases a valid handle's slot, handing the value back and bumping
    /// the slot's generation so the handle (and every copy of it) goes
    /// stale. An invalid handle releases nothing and changes nothing.
    pub fn free(&mut self, h: Handle) -> (r: Option<T>)
        requires
            old(self).wf(),
        ensures
            final(self).wf(),
            match r {
                Some(_) => old(self).spec_is_valid(h),
                None => !old(self).spec_is_valid(h) && *final(self) == *old(self),
            },
            old(self).spec_is_valid(h) ==> {
                &&& r == Some(old(self).spec_value(h.index as int))
                &&& !final(self).spec_is_valid(h)
                &&& !final(self).spec_live(h.index as int)
                &&& final(self).slot_gen(h.index as int) > old(self).slot_gen(h.index as int)
                &&& final(self).spec_live_count() == old(self).spec_live_count() - 1
            },
            final(self).spec_len() == old(self).spec_len(),
            forall|i: int|
                0 < i < old(self).spec_len() && i != h.index as int
                    ==> #[trigger] final(self).spec_live(i) == old(self).spec_live(i)
                    && final(self).slot_gen(i) == old(self).slot_gen(i),
            forall|i: int|
                0 < i < old(self).spec_len() && i != h.index as int && old(self).spec_live(i)
                    ==> #[trigger] final(self).spec_value(i) == old(self).spec_value(i),
            final(self).gens_monotone_from(*old(self)),
    {
        if !self.is_valid(h) {
            return None;
        }
        let idx = h.index as usize;
        let mut taken: Slot<T> = Slot::Retired;
        core::mem::swap(&mut self.slots[idx], &mut taken);
        let (gen, value): (u32, T) = match taken {
            Slot::Occupied { generation, value } => (generation, value),
            _ => unreached(),
        };
        proof {
            assert forall|k: int|
                0 <= k < self.free_order@.len() implies self.free_order@[k] != h.index by {
                assert(old(self).slots@[self.free_order@[k] as int] is Free);
            }
        }
        if gen < u32::MAX {
            self.slots[idx] = Slot::Free { next_generation: gen + 1, next_free: self.free_head };
            self.free_head = h.index;
            proof {
                let old_fl = self.free_order@;
                self.free_order = Ghost(seq![h.index] + old_fl);
                let fl = self.free_order@;
                assert(fl[0] == h.index);
                assert(fl.drop_first() =~= old_fl);
                assert forall|i: int|
                    0 < i < self.slots@.len() && self.slots@[i] is Free implies fl.contains(
                    i as u32,
                ) by {
                    if i == idx as int {
                        assert(fl[0] == i as u32);
                    } else {
                        assert(old(self).slots@[i] is Free);
                        let k = choose|k: int| 0 <= k < old_fl.len() && old_fl[k] == i as u32;
                        assert(fl[k + 1] == i as u32);
                    }
                }
                assert(self.free_list_wf());
            }
        } else {
            // The generation space of this slot is exhausted: retire it so
            // stale handles can never come back to life.
            self.slots[idx] = Slot::Retired;
            proof {
                let fl = self.free_order@;
                assert forall|i: int|
                    0 < i < self.slots@.len() && self.slots@[i] is Free implies fl.contains(
                    i as u32,
                ) by {
                    assert(old(self).slots@[i] is Free);
                }
                assert(self.free_list_wf());
            }
        }
        proof {
            old(self).lemma_count_one_change(*self, idx as int, self.spec_len());
        }
        Some(value)
    }

    /// Swaps the value a valid handle refers to, handing the old value back;
    /// the handle stays valid. An invalid handle changes nothing.
    pub fn replace(&mut self, h: Handle, value: T) -> (r: Option<T>)
        requires
            old(self).wf(),
        ensures
            final(self).wf(),
            match r {
                Some(v) => old(self).spec_is_valid(h) && v == old(self).spec_value(
                    h.index as int,
                ),
                None => !old(self).spec_is_valid(h) && *final(self) == *old(self),
            },
            old(self).spec_is_valid(h) ==> final(self).spec_is_valid(h) && final(self).spec_value(
                h.index as int,
            ) == value,
            final(self).spec_len() == old(self).spec_len(),
            forall|i: int|
                #![trigger final(self).spec_live(i)]
                #![trigger final(self).slot_gen(i)]
                0 < i < old(self).spec_len() ==> final(self).spec_live(i) == old(self).spec_live(i) && final(self).slot_gen(i) == old(self).slot_gen(i),
            forall|i: int|
                0 < i < old(self).spec_len() && i != h.index as int && old(self).spec_live(i)
                    ==> #[trigger] final(self).spec_value(i) == old(self).spec_value(i),
            final(self).gens_monotone_from(*old(self)),
            final(self).spec_live_count() == old(self).spec_live_count(),
    {
        if !self.is_valid(h) {
            return None;
        }
        let idx = h.index as usize;
        let mut taken: Slot<T> = Slot::Occupied { generation: h.generation, value };
        core::mem::swap(&mut self.slots[idx], &mut taken);
        let old_value: T = match taken {
            Slot::Occupied { value, .. } => value,
            _ => unreached(),
        };
        proof {
            assert forall|k: int|
                0 <= k < self.free_order@.len() implies self.slots@[
                self.free_order@[k] as int
            ] is Free by {
                assert(old(self).slots@[self.free_order@[k] as int] is Free);
            }
            assert(self.free_list_wf());
            old(self).lemma_count_congruent(*self, self.spec_len());
        }
        Some(old_value)
    }

    /// Number of slots, the reserved null slot included.
    pub fn slot_count(&self) -> (n: usize)
        ensures
            n as int == self.spec_len(),
    {
        self.slots.len()
    }

    /// The valid handle of slot `index`, if that slot is live.
    pub fn handle_at(&self, index: usize) -> (r: Option<Handle>)
        requires
            self.wf(),
            index < self.spec_len(),
        ensures
            match r {
                Some(h) => self.spec_is_valid(h) && h.index as int == index as int,
                None => !self.spec_live(index as int),
            },
    {
        if index == 0 {
            return None;
        }
        match &self.slots[index] {
            Slot::Occupied { generation, .. } => Some(
                Handle { index: index as u32, generation: *generation },
            ),
            _ => None,
        }
    }
}

/// Only slots inside the pool, other than the reserved slot 0, can be live.
pub broadcast proof fn lemma_live_in_range<T>(p: Pool<T>, i: int)
    ensures
        #[trigger] p.spec_live(i) ==> 0 < i < p.spec_len(),
{
}

/// A well-formed pool's slot indices all fit in a handle's index field.
pub broadcast proof fn lemma_len_bound<T>(p: Pool<T>)
    ensures
        #[trigger] p.wf() ==> p.spec_len() <= u32::MAX as int,
{
}

/// Once a slot's generation counter has moved past a handle's generation,
/// that handle can never be valid again: a live slot is valid only at the
/// generation the counter stands at, and `spawn`, `free` and `replace` all
/// keep counters from moving backwards (`gens_monotone_from`).
pub proof fn lemma_stale_handle_stays_invalid<T>(p: Pool<T>, h: Handle)
    requires
        p.slot_gen(h.index as int) > h.generation as int,
    ensures
        !p.spec_is_valid(h),
{
}

/// A handle stays invalid forever: once `free` has moved a slot's generation
/// counter past the handle's generation, no later pool state whose counters
/// dominate that one — as every operation's contract guarantees — can make
/// the handle valid, however many slots were spawned or freed in between.
pub proof fn lemma_stale_handle_stays_invalid_later<T>(earlier: Pool<T>, later: Pool<T>, h: Handle)
    requires
        later.gens_monotone_from(earlier),
        0 < h.index < earlier.spec_len(),
        earlier.slot_gen(h.index as int) > h.generation as int,
    ensures
        !later.spec_is_valid(h),
{
    lemma_stale_handle_stays_invalid(later, h);
}

} // verus!
