//! A gate on a counter that only grows: one side advances the counter, the
//! other side waits until it has reached a value. A state is published with
//! the counter, and an advance may replace it.
//!
//! The LSN gate itself never blocks. A wait that cannot be answered yet is
//! queued under an id; `advance` hands back the ids whose wait is over, and
//! whoever runs the waiting tasks wakes them.

use crate::lsn::Lsn;
use vstd::multiset::Multiset;
use vstd::prelude::*;

verus! {

/// The LSN gate has been closed: nothing will be ingested any more.
#[derive(Clone, Copy, Debug, PartialEq, Eq, Structural)]
pub enum SeqWaitError {
    Shutdown,
}

/// One queued wait: who waits, and for which LSN.
#[derive(Clone, Copy, Debug, PartialEq, Eq, Structural)]
pub struct Waiter {
    pub id: u64,
    pub target: Lsn,
}

/// Whether a wait is over.
#[derive(Clone, Copy, Debug, PartialEq, Eq, Structural)]
pub enum WaitStatus {
    /// The LSN has been reached.
    Ready,
    /// The LSN lies ahead; the wait is queued under this id.
    Queued(u64),
}

/// The answer of the LSN gate to a wait.
pub enum Waited<'a, S> {
    /// The LSN has been reached: this is the state published by now.
    Ready(&'a S),
    /// The LSN lies ahead; the wait is queued under this id.
    Queued(u64),
}

/// The LSN gate: the published LSN, the state published with it, and the
/// waits that it has not reached yet.
pub struct SeqWait<S> {
    current: Lsn,
    data: S,
    /// Queued waits, those with the lowest target at the end.
    waiters: Vec<Waiter>,
    next_id: u64,
    shutdown: bool,
}

impl<S> SeqWait<S> {
    /// The published LSN.
    pub closed spec fn current_lsn(&self) -> Lsn {
        self.current
    }

    /// The published state.
    pub closed spec fn data(&self) -> S {
        self.data
    }

    /// The two gates differ in nothing but the published state.
    pub open spec fn same_queue(&self, other: &SeqWait<S>) -> bool {
        &&& self.current_lsn() == other.current_lsn()
        &&& self.waiting() == other.waiting()
        &&& self.is_shutdown() == other.is_shutdown()
        &&& self.issued() == other.issued()
    }

    /// The queued waits, in the order in which they are kept.
    pub closed spec fn waiting(&self) -> Seq<Waiter> {
        self.waiters@
    }

    /// Whether the LSN gate has been closed.
    pub closed spec fn is_shutdown(&self) -> bool {
        self.shutdown
    }

    /// The number of ids handed out so far.
    pub closed spec fn issued(&self) -> u64 {
        self.next_id
    }

    /// No queued wait has the id `id`.
    pub open spec fn id_free(s: Seq<Waiter>, id: u64) -> bool {
        forall|i: int| 0 <= i < s.len() ==> (#[trigger] s[i]).id != id
    }

    /// What holds of every gate: the queue is ordered by falling target, every
    /// queued wait is for an LSN that has not been reached, and no id is
    /// queued twice.
    pub closed spec fn wf(&self) -> bool {
        &&& forall|i: int, j: int|
            0 <= i < j < self.waiters@.len() ==> (#[trigger] self.waiters@[i]).target.0 >= (
            #[trigger] self.waiters@[j]).target.0
        &&& forall|i: int, j: int|
            0 <= i < j < self.waiters@.len() ==> (#[trigger] self.waiters@[i]).id != (
            #[trigger] self.waiters@[j]).id
        &&& forall|i: int|
            0 <= i < self.waiters@.len() ==> (#[trigger] self.waiters@[i]).id < self.next_id
        &&& forall|i: int|
            0 <= i < self.waiters@.len() ==> (#[trigger] self.waiters@[i]).target.0
                > self.current.0
        &&& self.shutdown ==> self.waiters@.len() == 0
    }

    /// Every queued wait is for an LSN that has not been reached, and no id
    /// is queued twice.
    pub proof fn lemma_waiting(&self)
        requires
            self.wf(),
        ensures
            forall|i: int|
                0 <= i < self.waiting().len() ==> (#[trigger] self.waiting()[i]).target.0
                    > self.current_lsn().0,
            forall|i: int, j: int|
                0 <= i < j < self.waiting().len() ==> (#[trigger] self.waiting()[i]).id != (
                #[trigger] self.waiting()[j]).id,
            forall|i: int|
                0 <= i < self.waiting().len() ==> (#[trigger] self.waiting()[i]).id
                    < self.issued(),
            self.is_shutdown() ==> self.waiting().len() == 0,
    {
    }

    /// An open gate at `lsn` with the state `data`, on which nobody waits.
    pub fn new(lsn: Lsn, data: S) -> (g: SeqWait<S>)
        ensures
            g.wf(),
            g.current_lsn() == lsn,
            g.data() == data,
            g.waiting() == Seq::<Waiter>::empty(),
            !g.is_shutdown(),
            g.issued() == 0,
    {
        SeqWait { current: lsn, data, waiters: Vec::new(), next_id: 0, shutdown: false }
    }

    /// The published LSN.
    pub fn current(&self) -> (r: Lsn)
        ensures
            r == self.current_lsn(),
    {
        self.current
    }

    /// The published LSN with the published state.
    pub fn snapshot(&self) -> (r: (Lsn, &S))
        ensures
            r.0 == self.current_lsn(),
            *r.1 == self.data(),
    {
        (self.current, &self.data)
    }

    /// The published state. After a wait that was answered with `Ready`, this
    /// is the state in effect at the LSN asked for, or a later one.
    pub fn get_current_data(&self) -> (r: &S)
        ensures
            *r == self.data(),
    {
        &self.data
    }

    /// Whether the LSN gate has been closed.
    pub fn is_closed(&self) -> (r: bool)
        ensures
            r == self.is_shutdown(),
    {
        self.shutdown
    }

    /// How many ids have been handed out so far. A wait can be queued only
    /// while this is not the largest number.
    pub fn issued_count(&self) -> (r: u64)
        ensures
            r == self.issued(),
    {
        self.next_id
    }

    /// How many waits are queued.
    pub fn waiting_count(&self) -> (r: usize)
        ensures
            r == self.waiting().len(),
    {
        self.waiters.len()
    }

    /// Asks for `target`. On a closed gate the answer is `Shutdown`. A target
    /// that has been reached is answered at once with the published state,
    /// and nothing changes. Any other is queued under a fresh id.
    pub fn wait_for(&mut self, target: Lsn) -> (r: Result<Waited<'_, S>, SeqWaitError>)
        requires
            old(self).wf(),
            old(self).issued() < u64::MAX,
        ensures
            final(self).wf(),
            final(self).current_lsn() == old(self).current_lsn(),
            final(self).data() == old(self).data(),
            final(self).is_shutdown() == old(self).is_shutdown(),
            match r {
                Err(e) => {
                    &&& old(self).is_shutdown()
                    &&& e == SeqWaitError::Shutdown
                    &&& final(self).waiting() == old(self).waiting()
                    &&& final(self).issued() == old(self).issued()
                },
                Ok(Waited::Ready(data)) => {
                    &&& !old(self).is_shutdown()
                    &&& target.0 <= old(self).current_lsn().0
                    &&& *data == old(self).data()
                    &&& final(self).waiting() == old(self).waiting()
                    &&& final(self).issued() == old(self).issued()
                },
                Ok(Waited::Queued(id)) => {
                    &&& !old(self).is_shutdown()
                    &&& target.0 > old(self).current_lsn().0
                    &&& id == old(self).issued()
                    &&& final(self).issued() == old(self).issued() + 1
                    &&& Self::id_free(old(self).waiting(), id)
                    &&& final(self).waiting().to_multiset()
                        == old(self).waiting().to_multiset().insert(Waiter { id, target })
                },
            },
    {
        if self.shutdown {
            return Err(SeqWaitError::Shutdown);
        }
        if target.0 <= self.current.0 {
            return Ok(Waited::Ready(&self.data));
        }
        let id = self.next_id;
        self.next_id = id + 1;
        let w = Waiter { id, target };
        let mut i: usize = 0;
        while i < self.waiters.len() && self.waiters[i].target.0 >= target.0
            invariant
                0 <= i <= self.waiters@.len(),
                self.waiters@ == old(self).waiters@,
                self.current == old(self).current,
                self.data == old(self).data,
                self.shutdown == old(self).shutdown,
                self.next_id == id + 1,
                forall|k: int| 0 <= k < i ==> (#[trigger] self.waiters@[k]).target.0 >= target.0,
            decreases self.waiters@.len() - i,
        {
            i += 1;
        }
        let ghost before = self.waiters@;
        self.waiters.insert(i, w);
        proof {
            vstd::seq_lib::to_multiset_insert(before, i as int, w);
            let after = self.waiters@;
            assert forall|a: int| 0 <= a < after.len() implies (#[trigger] after[a]).id
                < self.next_id && after[a].target.0 > self.current.0 by {
                if a < i {
                    assert(after[a] == before[a]);
                } else if a > i {
                    assert(after[a] == before[a - 1]);
                }
            }
            assert forall|a: int, b: int| 0 <= a < b < after.len() implies (
            #[trigger] after[a]).target.0 >= (#[trigger] after[b]).target.0 && after[a].id
                != after[b].id by {
                if b < i {
                    assert(after[a] == before[a] && after[b] == before[b]);
                } else if b == i {
                    assert(after[a] == before[a]);
                } else if a < i {
                    assert(after[a] == before[a] && after[b] == before[b - 1]);
                } else if a == i {
                    assert(after[b] == before[b - 1]);
                    assert(before[i as int].target.0 < target.0);
                } else {
                    assert(after[a] == before[a - 1] && after[b] == before[b - 1]);
                }
            }
        }
        Ok(Waited::Queued(id))
    }

    /// Publishes `new_lsn`, which must not lie behind the published LSN, and
    /// with it `new_data` if that is given; and returns the waits that are
    /// over: those for an LSN up to `new_lsn`, the lowest target first. They
    /// leave the queue; all others stay. An advance to the published LSN ends
    /// no wait.
    pub fn advance(&mut self, new_lsn: Lsn, new_data: Option<S>) -> (woken: Vec<Waiter>)
        requires
            old(self).wf(),
            new_lsn.0 >= old(self).current_lsn().0,
        ensures
            final(self).wf(),
            final(self).current_lsn() == new_lsn,
            final(self).data() == (match new_data {
                Some(d) => d,
                None => old(self).data(),
            }),
            new_lsn == old(self).current_lsn() ==> woken@.len() == 0 && final(self).waiting()
                == old(self).waiting(),
            final(self).is_shutdown() == old(self).is_shutdown(),
            final(self).issued() == old(self).issued(),
            old(self).waiting() == final(self).waiting() + woken@.reverse(),
            forall|i: int| 0 <= i < woken@.len() ==> (#[trigger] woken@[i]).target.0 <= new_lsn.0,
            forall|i: int|
                0 <= i < final(self).waiting().len()
                    ==> (#[trigger] final(self).waiting()[i]).target.0 > new_lsn.0,
    {
        self.current = new_lsn;
        match new_data {
            Some(d) => {
                self.data = d;
            },
            None => {},
        }
        let ghost published = self.data;
        let mut woken: Vec<Waiter> = Vec::new();
        assert(self.waiters@ + woken@.reverse() =~= old(self).waiters@);
        while self.waiters.len() > 0 && self.waiters[self.waiters.len() - 1].target.0 <= new_lsn.0
            invariant
                self.current == new_lsn,
                self.data == published,
                self.shutdown == old(self).shutdown,
                self.next_id == old(self).next_id,
                old(self).wf(),
                old(self).waiters@ == self.waiters@ + woken@.reverse(),
                forall|i: int|
                    0 <= i < woken@.len() ==> (#[trigger] woken@[i]).target.0 <= new_lsn.0,
            decreases self.waiters@.len(),
        {
            let ghost kept = self.waiters@;
            let ghost done = woken@;
            let w = self.waiters.pop().unwrap();
            woken.push(w);
            proof {
                assert(woken@.reverse() =~= seq![w] + done.reverse());
                assert(kept =~= self.waiters@ + seq![w]);
                assert(self.waiters@ + woken@.reverse() =~= kept + done.reverse());
            }
        }
        proof {
            let all = old(self).waiters@;
            let kept = self.waiters@;
            assert forall|i: int| 0 <= i < kept.len() implies (#[trigger] kept[i]).target.0
                > new_lsn.0 by {
                assert(kept[i] == all[i]);
                assert(kept[kept.len() - 1] == all[kept.len() - 1]);
                if i < kept.len() - 1 {
                    assert(all[i].target.0 >= all[kept.len() - 1].target.0);
                }
            }
            assert forall|i: int, j: int| 0 <= i < j < kept.len() implies (
            #[trigger] kept[i]).target.0 >= (#[trigger] kept[j]).target.0 && kept[i].id
                != kept[j].id by {
                assert(kept[i] == all[i] && kept[j] == all[j]);
            }
            assert forall|i: int| 0 <= i < kept.len() implies (#[trigger] kept[i]).id
                < self.next_id by {
                assert(kept[i] == all[i]);
            }
            if new_lsn == old(self).current && woken@.len() > 0 {
                let w = woken@[0];
                assert(woken@.reverse()[woken@.len() - 1] == w);
                assert(all[all.len() - 1] == w);
                assert(all[all.len() - 1].target.0 > old(self).current.0);
            }
            if woken@.len() == 0 {
                assert(kept =~= all);
            }
        }
        woken
    }

    /// Withdraws the wait queued under `id`, if there is one. The published
    /// LSN stays, and no other wait is touched.
    pub fn cancel(&mut self, id: u64) -> (r: bool)
        requires
            old(self).wf(),
        ensures
            final(self).wf(),
            final(self).current_lsn() == old(self).current_lsn(),
            final(self).data() == old(self).data(),
            final(self).is_shutdown() == old(self).is_shutdown(),
            final(self).issued() == old(self).issued(),
            r == !Self::id_free(old(self).waiting(), id),
            r ==> exists|i: int|
                0 <= i < old(self).waiting().len() && (#[trigger] old(self).waiting()[i]).id == id
                    && final(self).waiting() == old(self).waiting().remove(i),
            !r ==> final(self).waiting() == old(self).waiting(),
    {
        let mut i: usize = 0;
        while i < self.waiters.len()
            invariant
                0 <= i <= self.waiters@.len(),
                self.waiters@ == old(self).waiters@,
                self.current == old(self).current,
                self.data == old(self).data,
                self.shutdown == old(self).shutdown,
                self.next_id == old(self).next_id,
                old(self).wf(),
                forall|k: int| 0 <= k < i ==> (#[trigger] self.waiters@[k]).id != id,
            decreases self.waiters@.len() - i,
        {
            if self.waiters[i].id == id {
                let ghost before = self.waiters@;
                self.waiters.remove(i);
                proof {
                    let after = self.waiters@;
                    assert forall|a: int| 0 <= a < after.len() implies (#[trigger] after[a]).id
                        < self.next_id && after[a].target.0 > self.current.0 by {
                        if a < i {
                            assert(after[a] == before[a]);
                        } else {
                            assert(after[a] == before[a + 1]);
                        }
                    }
                    assert forall|a: int, b: int| 0 <= a < b < after.len() implies (
                    #[trigger] after[a]).target.0 >= (#[trigger] after[b]).target.0
                        && after[a].id != after[b].id by {
                        let a0 = if a < i {
                            a
                        } else {
                            a + 1
                        };
                        let b0 = if b < i {
                            b
                        } else {
                            b + 1
                        };
                        assert(after[a] == before[a0] && after[b] == before[b0]);
                    }
                    assert(before[i as int].id == id);
                }
                return true;
            }
            i += 1;
        }
        false
    }

    /// Closes the LSN gate for good and returns the waits that were queued, which
    /// will never be answered. From now on every wait fails.
    pub fn shutdown(&mut self) -> (dropped: Vec<Waiter>)
        requires
            old(self).wf(),
        ensures
            final(self).wf(),
            final(self).is_shutdown(),
            final(self).current_lsn() == old(self).current_lsn(),
            final(self).data() == old(self).data(),
            final(self).issued() == old(self).issued(),
            final(self).waiting() == Seq::<Waiter>::empty(),
            dropped@ == old(self).waiting(),
    {
        self.shutdown = true;
        let mut dropped: Vec<Waiter> = Vec::new();
        dropped.append(&mut self.waiters);
        assert(dropped@ =~= old(self).waiters@);
        dropped
    }
}

} // verus!
