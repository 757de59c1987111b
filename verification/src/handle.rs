//! The opaque-handle protocol: every native value that crosses the boundary
//! outward is allocated once in an arena, its handle passed out as an
//! untyped token, and reclaimed exactly once through the matching release.
//!
//! A handle is a nonzero index; zero stands for the foreign null pointer.
//! A handle is live from allocation until its single release. Releasing a
//! handle twice, or using it after release, is a caller obligation stated as
//! a precondition here, not guarded against at runtime.

use vstd::prelude::*;

verus! {

/// How many slots of an arena still hold a live value.
pub open spec fn live_slots<T>(s: Seq<Option<T>>) -> nat
    decreases s.len(),
{
    if s.len() == 0 {
        0
    } else {
        live_slots(s.drop_last()) + if s.last() is Some {
            1nat
        } else {
            0nat
        }
    }
}

/// An arena of opaque handles: one slot per handle ever allocated, holding
/// the value while the handle is live and nothing once it is released.
pub struct Arena<T> {
    slots: Vec<Option<T>>,
}

impl<T> Arena<T> {
    /// The slots, one per handle handed out so far.
    pub closed spec fn slots_view(&self) -> Seq<Option<T>> {
        self.slots@
    }

    /// Whether `h` is a handle this arena handed out and has not released.
    pub open spec fn live(&self, h: usize) -> bool {
        &&& 1 <= h <= self.slots_view().len()
        &&& self.slots_view()[h - 1] is Some
    }

    /// The value a live handle stands for.
    pub open spec fn value_of(&self, h: usize) -> T {
        self.slots_view()[h - 1]->Some_0
    }

    /// How many handles are live: allocations not yet released.
    pub open spec fn live_count(&self) -> nat {
        live_slots(self.slots_view())
    }

    /// A fresh arena: nothing allocated, nothing live.
    pub fn new() -> (a: Arena<T>)
        ensures
            a.slots_view().len() == 0,
            a.live_count() == 0,
            forall|h: usize| !a.live(h),
    {
        Arena { slots: Vec::new() }
    }

    /// Reads the value a live handle stands for, without consuming it; the
    /// handle may be read any number of times before its release.
    pub fn get(&self, h: usize) -> (r: &T)
        requires
            self.live(h),
        ensures
            *r == self.value_of(h),
    {
        self.slots[h - 1].as_ref().unwrap()
    }

    /// Counts the live handles: the allocation-tracking view of the arena.
    pub fn live_handles(&self) -> (n: usize)
        ensures
            n == self.live_count(),
    {
        let mut n: usize = 0;
        let mut i: usize = 0;
        while i < self.slots.len()
            invariant
                i <= self.slots@.len(),
                n == live_slots(self.slots@.subrange(0, i as int)),
                n <= i,
            decreases self.slots@.len() - i,
        {
            proof {
                assert(self.slots@.subrange(0, i + 1 as int).drop_last() =~= self.slots@.subrange(
                    0,
                    i as int,
                ));
            }
            if self.slots[i].is_some() {
                n = n + 1;
            }
            i += 1;
        }
        proof {
            assert(self.slots@.subrange(0, self.slots@.len() as int) =~= self.slots@);
        }
        n
    }
}

/// Appending a live slot raises the census by one.
proof fn lemma_live_slots_push<T>(s: Seq<Option<T>>, v: T)
    ensures
        live_slots(s.push(Some(v))) == live_slots(s) + 1,
{
    assert(s.push(Some(v)).drop_last() =~= s);
}

/// Clearing a live slot lowers the census by one.
proof fn lemma_live_slots_clear<T>(s: Seq<Option<T>>, i: int)
    requires
        0 <= i < s.len(),
        s[i] is Some,
    ensures
        live_slots(s.update(i, None)) + 1 == live_slots(s),
    decreases s.len(),
{
    let t = s.update(i, None);
    if i == s.len() - 1 {
        assert(t.drop_last() =~= s.drop_last());
    } else {
        assert(t.drop_last() =~= s.drop_last().update(i, None));
        lemma_live_slots_clear(s.drop_last(), i);
    }
}

/// Moves a value into the arena and hands out its address as a fresh opaque
/// handle. The handle is never null: a null "valid" handle would be
/// indistinguishable from the failure sentinel.
pub fn box_into_raw_new<T>(arena: &mut Arena<T>, value: T) -> (h: usize)
    ensures
        h != 0,
        !old(arena).live(h),
        final(arena).live(h),
        final(arena).value_of(h) == value,
        forall|g: usize| g != h ==> final(arena).live(g) == old(arena).live(g),
        forall|g: usize|
            g != h && old(arena).live(g) ==> final(arena).value_of(g) == old(arena).value_of(g),
        final(arena).live_count() == old(arena).live_count() + 1,
{
    proof {
        lemma_live_slots_push(arena.slots@, value);
    }
    arena.slots.push(Some(value));
    arena.slots.len()
}

/// Releases a handle: a no-op on null, otherwise the one sanctioned
/// reclamation of the value the handle stands for. The caller must not
/// release a handle twice nor touch it afterwards; that discipline is the
/// precondition.
pub fn ngenrs_free_ptr<T>(arena: &mut Arena<T>, raw: usize)
    requires
        raw == 0 || old(arena).live(raw),
    ensures
        raw == 0 ==> *final(arena) == *old(arena),
        raw != 0 ==> !final(arena).live(raw),
        forall|g: usize| g != raw ==> final(arena).live(g) == old(arena).live(g),
        forall|g: usize|
            g != raw && old(arena).live(g) ==> final(arena).value_of(g) == old(arena).value_of(g),
        raw != 0 ==> final(arena).live_count() + 1 == old(arena).live_count(),
{
    if raw == 0 {
        return ;
    }
    proof {
        lemma_live_slots_clear(arena.slots@, raw - 1);
    }
    let slot: &mut Option<T> = &mut arena.slots[raw - 1];
    *slot = None;
}

/// Law: one allocation, one release. Allocating a value and then releasing
/// the very handle that came back leaves every other handle's liveness and
/// value as they were and restores the live census, so a run in which each
/// successful construction meets exactly one release leaks nothing.
pub proof fn lemma_alloc_then_release_balanced<T>(a0: Arena<T>, a1: Arena<T>, a2: Arena<T>, h: usize, value: T)
    requires
        // what allocation ensures
        h != 0,
        !a0.live(h),
        a1.live(h),
        a1.value_of(h) == value,
        forall|g: usize| g != h ==> a1.live(g) == a0.live(g),
        forall|g: usize| g != h && a0.live(g) ==> a1.value_of(g) == a0.value_of(g),
        a1.live_count() == a0.live_count() + 1,
        // what the matching release ensures
        !a2.live(h),
        forall|g: usize| g != h ==> a2.live(g) == a1.live(g),
        forall|g: usize| g != h && a1.live(g) ==> a2.value_of(g) == a1.value_of(g),
        a2.live_count() + 1 == a1.live_count(),
    ensures
        a2.live_count() == a0.live_count(),
        forall|g: usize| a2.live(g) == a0.live(g),
        forall|g: usize| a0.live(g) ==> a2.value_of(g) == a0.value_of(g),
{
    assert(forall|g: usize| a2.live(g) == a0.live(g)) by {
        assert(a2.live(h) == a0.live(h));
    }
}

} // verus!
