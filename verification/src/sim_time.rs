//! A simulated clock with timers: the world's time moves only when the next
//! timer is taken.

use std::cmp::Ordering;
use vstd::multiset::Multiset;
use vstd::prelude::*;
use vstd::std_specs::cmp::PartialEqSpecImpl;
use vstd::std_specs::cmp::PartialOrdSpecImpl;

verus! {

/// What happens when a timer fires.
#[derive(Clone, Copy, Debug, PartialEq, Eq, Structural)]
pub enum Event {
    /// Nothing happens: the timer only moves the clock.
    Noop,
}

impl Event {
    /// Carries the event out.
    pub fn process(&self) {
    }
}

/// A timer that waits for its time.
#[derive(Clone, Copy, Debug)]
pub struct Pending {
    pub time: u64,
    pub nonce: u32,
    pub event: Event,
}

impl Pending {
    /// Carries out the event of this timer.
    pub fn process(&self) {
        self.event.process();
    }

    /// `self` fires before `other`: at an earlier time, or at the same time
    /// and scheduled before it.
    pub open spec fn fires_before(&self, other: &Pending) -> bool {
        self.time < other.time || (self.time == other.time && self.nonce < other.nonce)
    }

    /// Whether `self` fires before `other`.
    pub fn is_before(&self, other: &Pending) -> (r: bool)
        ensures
            r == self.fires_before(other),
    {
        self.time < other.time || (self.time == other.time && self.nonce < other.nonce)
    }
}

/// Two timers count as equal where time and nonce are.
impl PartialEq for Pending {
    fn eq(&self, other: &Pending) -> (r: bool) {
        self.time == other.time && self.nonce == other.nonce
    }
}

impl PartialEqSpecImpl for Pending {
    open spec fn obeys_eq_spec() -> bool {
        true
    }

    open spec fn eq_spec(&self, other: &Pending) -> bool {
        self.time == other.time && self.nonce == other.nonce
    }
}

/// The timer that fires first is the greatest: the order is the reverse of
/// the order of firing.
impl PartialOrd for Pending {
    fn partial_cmp(&self, other: &Pending) -> (r: Option<Ordering>) {
        if other.is_before(self) {
            Some(Ordering::Less)
        } else if self.is_before(other) {
            Some(Ordering::Greater)
        } else {
            Some(Ordering::Equal)
        }
    }
}

impl PartialOrdSpecImpl for Pending {
    open spec fn obeys_partial_cmp_spec() -> bool {
        true
    }

    open spec fn partial_cmp_spec(&self, other: &Pending) -> Option<Ordering> {
        if other.fires_before(self) {
            Some(Ordering::Less)
        } else if self.fires_before(other) {
            Some(Ordering::Greater)
        } else {
            Some(Ordering::Equal)
        }
    }
}

/// The clock and its timers.
pub struct Timing {
    /// Current world's time.
    current_time: u64,
    /// Pending timers, the one that fires first at the end.
    timers: Vec<Pending>,
    /// Number of timers scheduled so far.
    nonce: u32,
}

impl Timing {
    /// The world's time.
    pub closed spec fn now(&self) -> u64 {
        self.current_time
    }

    /// The timers that wait, in the order in which they are kept.
    pub closed spec fn pending(&self) -> Seq<Pending> {
        self.timers@
    }

    /// How many timers were scheduled so far.
    pub closed spec fn scheduled(&self) -> u32 {
        self.nonce
    }

    /// The timers are kept so that none fires before the last one.
    pub closed spec fn wf(&self) -> bool {
        forall|i: int, j: int|
            0 <= i < j < self.timers@.len() ==> !(#[trigger] self.timers@[i]).fires_before(
                #[trigger] &self.timers@[j],
            )
    }

    /// No timer in `s` fires before `p`.
    pub open spec fn is_first_of(p: Pending, s: Seq<Pending>) -> bool {
        s.contains(p) && forall|i: int| 0 <= i < s.len() ==> !(#[trigger] s[i]).fires_before(&p)
    }

    /// A clock at time zero without timers.
    pub fn new() -> (t: Timing)
        ensures
            t.wf(),
            t.now() == 0,
            t.pending() == Seq::<Pending>::empty(),
            t.scheduled() == 0,
    {
        Timing { current_time: 0, timers: Vec::new(), nonce: 0 }
    }

    /// The world's time.
    pub fn current_time(&self) -> (r: u64)
        ensures
            r == self.now(),
    {
        self.current_time
    }

    /// How many timers were scheduled so far. A timer can be scheduled only
    /// while this is not the largest number.
    pub fn scheduled_count(&self) -> (r: u32)
        ensures
            r == self.scheduled(),
    {
        self.nonce
    }

    /// The time of the timer that fires first, if any timer waits.
    pub fn next_time(&self) -> (r: Option<u64>)
        requires
            self.wf(),
        ensures
            match r {
                None => self.pending().len() == 0,
                Some(t) => exists|i: int|
                    0 <= i < self.pending().len() && (#[trigger] self.pending()[i]).time == t
                        && Self::is_first_of(self.pending()[i], self.pending()),
            },
    {
        let n = self.timers.len();
        if n == 0 {
            None
        } else {
            proof {
                let p = self.timers@[n - 1];
                assert(self.timers@.contains(p));
                assert forall|i: int| 0 <= i < self.timers@.len() implies !(
                #[trigger] self.timers@[i]).fires_before(&p) by {
                    if i < n - 1 {
                        assert(!self.timers@[i].fires_before(&self.timers@[n - 1]));
                    }
                }
                assert(Self::is_first_of(self.pending()[n - 1], self.pending()));
            }
            Some(self.timers[n - 1].time)
        }
    }

    /// How many timers wait.
    pub fn pending_count(&self) -> (r: usize)
        ensures
            r == self.pending().len(),
    {
        self.timers.len()
    }

    /// Takes the timer that fires first, moving the clock forward to its time
    /// if that lies in the future. Without timers nothing changes.
    pub fn step(&mut self) -> (r: Option<Pending>)
        requires
            old(self).wf(),
        ensures
            final(self).wf(),
            final(self).scheduled() == old(self).scheduled(),
            match r {
                None => old(self).pending().len() == 0 && final(self).pending()
                    == old(self).pending() && final(self).now() == old(self).now(),
                Some(p) => {
                    &&& Self::is_first_of(p, old(self).pending())
                    &&& final(self).pending().to_multiset()
                        == old(self).pending().to_multiset().remove(p)
                    &&& final(self).now() == (if p.time <= old(self).now() {
                        old(self).now()
                    } else {
                        p.time
                    })
                },
            },
    {
        if self.timers.len() == 0 {
            return None;
        }
        let ghost before = self.timers@;
        if !self.is_event_ready() {
            let next_time = self.timers[self.timers.len() - 1].time;
            self.current_time = next_time;
        }
        let r = self.timers.pop();
        proof {
            let last = before.len() - 1;
            assert(self.timers@ =~= before.remove(last));
            vstd::seq_lib::to_multiset_remove(before, last);
            assert(before.contains(before[last]));
        }
        r
    }

    /// Adds a timer for `time`. It fires after every timer for the same time
    /// that was added before it.
    pub fn schedule(&mut self, time: u64, event: Event)
        requires
            old(self).wf(),
            old(self).scheduled() < u32::MAX,
        ensures
            final(self).wf(),
            final(self).now() == old(self).now(),
            final(self).scheduled() == old(self).scheduled() + 1,
            final(self).pending().to_multiset() == old(self).pending().to_multiset().insert(
                Pending { time, nonce: final(self).scheduled(), event },
            ),
    {
        self.nonce += 1;
        let nonce = self.nonce;
        let p = Pending { time, nonce, event };
        let mut i: usize = 0;
        while i < self.timers.len() && !self.timers[i].is_before(&p)
            invariant
                0 <= i <= self.timers@.len(),
                self.timers@ == old(self).timers@,
                self.current_time == old(self).current_time,
                self.nonce == nonce,
                forall|k: int| 0 <= k < i ==> !(#[trigger] self.timers@[k]).fires_before(&p),
            decreases self.timers@.len() - i,
        {
            i += 1;
        }
        let ghost before = self.timers@;
        self.timers.insert(i, p);
        proof {
            vstd::seq_lib::to_multiset_insert(before, i as int, p);
            let after = self.timers@;
            assert forall|a: int, b: int| 0 <= a < b < after.len() implies !(
            #[trigger] after[a]).fires_before(#[trigger] &after[b]) by {
                if b < i {
                    assert(after[a] == before[a] && after[b] == before[b]);
                } else if b == i {
                    assert(after[a] == before[a]);
                } else if a < i {
                    assert(after[a] == before[a] && after[b] == before[b - 1]);
                } else if a == i {
                    assert(after[b] == before[b - 1]);
                    assert(before[i as int].fires_before(&p));
                    assert(!before[i as int].fires_before(&before[b - 1]) || b - 1 == i);
                } else {
                    assert(after[a] == before[a - 1] && after[b] == before[b - 1]);
                }
            }
        }
    }

    /// Whether a timer is due: one whose time is not after the world's time.
    pub fn is_event_ready(&self) -> (r: bool)
        requires
            self.wf(),
        ensures
            r == exists|i: int|
                0 <= i < self.pending().len() && (#[trigger] self.pending()[i]).time
                    <= self.now(),
    {
        let n = self.timers.len();
        if n == 0 {
            false
        } else {
            let r = self.timers[n - 1].time <= self.current_time;
            proof {
                if !r {
                    assert forall|i: int| 0 <= i < self.timers@.len() implies !((
                    #[trigger] self.timers@[i]).time <= self.current_time) by {
                        if i < n - 1 {
                            assert(!self.timers@[i].fires_before(&self.timers@[n - 1]));
                        }
                    }
                }
            }
            r
        }
    }
}

} // verus!
