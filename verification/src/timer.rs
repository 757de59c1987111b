//! The timer subsystem's decision core: which handle a registration gets,
//! which timers a poll expires, and what a cancellation removes. The
//! embedding layer supplies the clock readings and invokes the expired
//! callbacks by name; every bookkeeping decision is made here.

use vstd::prelude::*;

verus! {

/// One registered timer: its handle, its deadline on the embedding layer's
/// clock, and the name of the callback to invoke when it expires.
pub struct Timer {
    pub id: u64,
    pub deadline: u64,
    pub callback: String,
}

/// The timers of `s` that a poll at `now` expires, in registration order.
pub open spec fn expired_of(s: Seq<Timer>, now: u64) -> Seq<Timer>
    decreases s.len(),
{
    if s.len() == 0 {
        Seq::empty()
    } else {
        let rest = expired_of(s.drop_last(), now);
        if s.last().deadline <= now {
            rest.push(s.last())
        } else {
            rest
        }
    }
}

/// The timers of `s` that a poll at `now` retains, in registration order.
pub open spec fn retained_of(s: Seq<Timer>, now: u64) -> Seq<Timer>
    decreases s.len(),
{
    if s.len() == 0 {
        Seq::empty()
    } else {
        let rest = retained_of(s.drop_last(), now);
        if s.last().deadline <= now {
            rest
        } else {
            rest.push(s.last())
        }
    }
}

/// The timers of `s` other than the one registered under `id`.
pub open spec fn without_id(s: Seq<Timer>, id: u64) -> Seq<Timer>
    decreases s.len(),
{
    if s.len() == 0 {
        Seq::empty()
    } else {
        let rest = without_id(s.drop_last(), id);
        if s.last().id == id {
            rest
        } else {
            rest.push(s.last())
        }
    }
}

/// The active timers, with the counter the next registration draws its
/// handle from. Handles are unique and never reused.
pub struct TimerQueue {
    next_id: u64,
    timers: Vec<Timer>,
}

impl TimerQueue {
    /// The active timers in registration order.
    pub closed spec fn timers_view(&self) -> Seq<Timer> {
        self.timers@
    }

    /// The handle the next registration will receive.
    pub closed spec fn next_id_view(&self) -> u64 {
        self.next_id
    }

    /// Well-formed: every active handle was drawn from the counter, so no
    /// two active timers share one and no future handle collides.
    pub open spec fn wf(&self) -> bool {
        forall|i: int|
            0 <= i < self.timers_view().len() ==> (#[trigger] self.timers_view()[i]).id
                < self.next_id_view()
    }

    /// An empty queue; handles start at one, leaving zero as a sentinel.
    pub fn new() -> (q: TimerQueue)
        ensures
            q.wf(),
            q.timers_view().len() == 0,
            q.next_id_view() == 1,
    {
        TimerQueue { next_id: 1, timers: Vec::new() }
    }

    /// Registers a callback to run once `deadline` has passed and hands its
    /// fresh handle back; `None` exactly when the handle space is used up.
    pub fn add(&mut self, deadline: u64, callback: String) -> (r: Option<u64>)
        requires
            old(self).wf(),
        ensures
            final(self).wf(),
            r is None <==> old(self).next_id_view() == u64::MAX,
            r is None ==> *final(self) == *old(self),
            r matches Some(id) ==> {
                &&& id == old(self).next_id_view()
                &&& final(self).next_id_view() == id + 1
                &&& final(self).timers_view() == old(self).timers_view().push(
                    (Timer { id, deadline, callback }),
                )
            },
    {
        if self.next_id == u64::MAX {
            return None;
        }
        let id = self.next_id;
        self.next_id = self.next_id + 1;
        let ghost before = self.timers@;
        self.timers.push(Timer { id, deadline, callback });
        proof {
            assert forall|i: int|
                0 <= i < self.timers@.len() implies (#[trigger] self.timers@[i]).id
                < self.next_id by {
                if i < before.len() {
                    assert(self.timers@[i] == before[i]);
                    assert(old(self).timers_view()[i].id < old(self).next_id_view());
                }
            }
        }
        Some(id)
    }

    /// Expires every timer whose deadline has passed at `now`: hands them
    /// back in registration order for their callbacks to be invoked, and
    /// retains exactly the others.
    pub fn poll(&mut self, now: u64) -> (expired: Vec<Timer>)
        requires
            old(self).wf(),
        ensures
            final(self).wf(),
            expired@ == expired_of(old(self).timers_view(), now),
            final(self).timers_view() == retained_of(old(self).timers_view(), now),
            final(self).next_id_view() == old(self).next_id_view(),
    {
        let mut drained: Vec<Timer> = Vec::new();
        core::mem::swap(&mut drained, &mut self.timers);
        let ghost orig = drained@;
        proof {
            assert(orig == old(self).timers_view());
            assert forall|j: int|
                0 <= j < orig.len() implies (#[trigger] orig[j]).id < self.next_id by {
                assert(old(self).timers_view()[j].id < old(self).next_id_view());
            }
        }
        let mut expired: Vec<Timer> = Vec::new();
        let mut i: usize = 0;
        let n = drained.len();
        while i < n
            invariant
                n == orig.len(),
                drained@ == orig,
                i <= n,
                self.next_id == old(self).next_id,
                expired@ == expired_of(orig.subrange(0, i as int), now),
                self.timers@ == retained_of(orig.subrange(0, i as int), now),
                forall|j: int| 0 <= j < orig.len() ==> (#[trigger] orig[j]).id < self.next_id,
            decreases n - i,
        {
            proof {
                assert(orig.subrange(0, i as int + 1).drop_last() =~= orig.subrange(0, i as int));
                assert(orig.subrange(0, i as int + 1).last() == orig[i as int]);
            }
            let t = clone_timer(&drained[i]);
            if t.deadline <= now {
                expired.push(t);
            } else {
                self.timers.push(t);
            }
            i += 1;
        }
        proof {
            assert(orig.subrange(0, n as int) =~= orig);
            lemma_retained_ids(orig, now);
            assert forall|k: int|
                0 <= k < self.timers@.len() implies (#[trigger] self.timers@[k]).id
                < self.next_id by {
                assert(orig.contains(self.timers@[k]));
                let j = choose|j: int| 0 <= j < orig.len() && orig[j] == self.timers@[k];
            }
        }
        expired
    }

    /// Cancels the timer registered under `id`, if it is still active;
    /// every other timer stays, in order.
    pub fn remove(&mut self, id: u64)
        requires
            old(self).wf(),
        ensures
            final(self).wf(),
            final(self).timers_view() == without_id(old(self).timers_view(), id),
            final(self).next_id_view() == old(self).next_id_view(),
    {
        let mut drained: Vec<Timer> = Vec::new();
        core::mem::swap(&mut drained, &mut self.timers);
        let ghost orig = drained@;
        proof {
            assert(orig == old(self).timers_view());
            assert forall|j: int|
                0 <= j < orig.len() implies (#[trigger] orig[j]).id < self.next_id by {
                assert(old(self).timers_view()[j].id < old(self).next_id_view());
            }
        }
        let mut i: usize = 0;
        let n = drained.len();
        while i < n
            invariant
                n == orig.len(),
                drained@ == orig,
                i <= n,
                self.next_id == old(self).next_id,
                self.timers@ == without_id(orig.subrange(0, i as int), id),
                forall|j: int| 0 <= j < orig.len() ==> (#[trigger] orig[j]).id < self.next_id,
            decreases n - i,
        {
            proof {
                assert(orig.subrange(0, i as int + 1).drop_last() =~= orig.subrange(0, i as int));
                assert(orig.subrange(0, i as int + 1).last() == orig[i as int]);
            }
            let t = clone_timer(&drained[i]);
            if t.id == id {
            } else {
                self.timers.push(t);
            }
            i += 1;
        }
        proof {
            assert(orig.subrange(0, n as int) =~= orig);
            lemma_without_id_ids(orig, id);
            assert forall|k: int|
                0 <= k < self.timers@.len() implies (#[trigger] self.timers@[k]).id
                < self.next_id by {
                assert(orig.contains(self.timers@[k]));
                let j = choose|j: int| 0 <= j < orig.len() && orig[j] == self.timers@[k];
            }
        }
    }

    /// How many timers are active.
    pub fn active(&self) -> (n: usize)
        ensures
            n == self.timers_view().len(),
    {
        self.timers.len()
    }
}

/// A retained timer was an active timer: polling forges no handles.
proof fn lemma_retained_ids(s: Seq<Timer>, now: u64)
    ensures
        forall|i: int|
            0 <= i < retained_of(s, now).len() ==> s.contains(#[trigger] retained_of(s, now)[i]),
    decreases s.len(),
{
    if s.len() > 0 {
        lemma_retained_ids(s.drop_last(), now);
        assert forall|i: int|
            0 <= i < retained_of(s, now).len() implies s.contains(
            #[trigger] retained_of(s, now)[i],
        ) by {
            let r = retained_of(s, now);
            let rp = retained_of(s.drop_last(), now);
            if s.last().deadline <= now || i < r.len() - 1 {
                if i < rp.len() {
                    assert(rp[i] == r[i]);
                    assert(s.drop_last().contains(rp[i]));
                    let j = choose|j: int|
                        0 <= j < s.drop_last().len() && s.drop_last()[j] == rp[i];
                    assert(s[j] == rp[i]);
                }
            } else {
                assert(r[i] == s.last());
                assert(s[s.len() - 1] == s.last());
            }
        }
    }
}

/// A timer surviving a cancellation was an active timer.
proof fn lemma_without_id_ids(s: Seq<Timer>, id: u64)
    ensures
        forall|i: int|
            0 <= i < without_id(s, id).len() ==> s.contains(#[trigger] without_id(s, id)[i]),
    decreases s.len(),
{
    if s.len() > 0 {
        lemma_without_id_ids(s.drop_last(), id);
        assert forall|i: int|
            0 <= i < without_id(s, id).len() implies s.contains(
            #[trigger] without_id(s, id)[i],
        ) by {
            let r = without_id(s, id);
            let rp = without_id(s.drop_last(), id);
            if s.last().id == id || i < r.len() - 1 {
                if i < rp.len() {
                    assert(rp[i] == r[i]);
                    assert(s.drop_last().contains(rp[i]));
                    let j = choose|j: int|
                        0 <= j < s.drop_last().len() && s.drop_last()[j] == rp[i];
                    assert(s[j] == rp[i]);
                }
            } else {
                assert(r[i] == s.last());
                assert(s[s.len() - 1] == s.last());
            }
        }
    }
}

/// Copies a timer.
fn clone_timer(t: &Timer) -> (r: Timer)
    ensures
        r == *t,
{
    Timer { id: t.id, deadline: t.deadline, callback: t.callback.clone() }
}

} // verus!
