//! What a tenant does as a whole: the end of loading or attaching, the
//! choice of timelines to compact, and the flush before shutdown.

use crate::id::TimelineId;
use crate::layer_map::LayerMap;
use crate::seqwait::Waiter;
use crate::tenant::SetStoppingError;
use crate::tenant::ShutdownError;
use crate::tenant::Tenant;
use crate::tenant::TenantState;
use crate::timeline::Timeline;
use crate::timeline::TimelineState;
use vstd::prelude::*;

verus! {

/// The tenant is not active.
#[derive(Clone, Copy, Debug, PartialEq, Eq, Structural)]
pub struct TenantNotActive;

/// What is left to do after the shutdown of a tenant.
#[derive(Debug)]
pub struct ShutdownWork {
    /// The waits that were queued at the LSN gates of the timelines, each with
    /// its timeline: they will never be answered.
    pub dropped_waits: Vec<(TimelineId, Waiter)>,
    /// The timelines that were flushed and have a remote client, whose
    /// uploads are to be waited for.
    pub uploads: Vec<TimelineId>,
}

/// The waits queued at the LSN gates of the first `n` timelines, each with its
/// timeline.
pub open spec fn queued_waits(ts: Seq<Timeline>, n: int) -> Seq<(TimelineId, Waiter)>
    decreases n,
{
    if n <= 0 {
        Seq::empty()
    } else {
        queued_waits(ts, n - 1) + Seq::new(
            ts[n - 1].layers.gate().waiting().len(),
            |k: int| (ts[n - 1].timeline_id, ts[n - 1].layers.gate().waiting()[k]),
        )
    }
}

/// The ids of the active timelines among the first `n`.
pub open spec fn active_ids(ts: Seq<Timeline>, n: int) -> Seq<TimelineId>
    decreases n,
{
    if n <= 0 {
        Seq::empty()
    } else if ts[n - 1].state == TimelineState::Active {
        active_ids(ts, n - 1).push(ts[n - 1].timeline_id)
    } else {
        active_ids(ts, n - 1)
    }
}

/// The ids of the timelines with a remote client among the first `n`.
pub open spec fn remote_ids(ts: Seq<Timeline>, n: int) -> Seq<TimelineId>
    decreases n,
{
    if n <= 0 {
        Seq::empty()
    } else if ts[n - 1].has_remote_client {
        remote_ids(ts, n - 1).push(ts[n - 1].timeline_id)
    } else {
        remote_ids(ts, n - 1)
    }
}

impl Tenant {
    /// Ends the loading or attaching of the tenant. Where it went well, the
    /// tenant and its timelines become active; where it failed, the tenant
    /// is broken for the reason given.
    pub fn load_finished(&mut self, outcome: Result<(), String>) -> (activated_timelines: usize)
        requires
            old(self).wf(),
            old(self).state is Loading || old(self).state is Attaching,
        ensures
            final(self).wf(),
            final(self).same_settings(old(self)),
            match outcome {
                Ok(()) => {
                    &&& final(self).state is Active
                    &&& Self::activated(old(self).timelines@, final(self).timelines@)
                    &&& activated_timelines == crate::tenant::activatable(
                        old(self).timelines@,
                        old(self).timelines@.len() as int,
                    )
                },
                Err(reason) => {
                    &&& final(self).state == (TenantState::Broken { reason })
                    &&& final(self).timelines@ == old(self).timelines@
                    &&& activated_timelines == 0
                },
            },
    {
        match outcome {
            Ok(()) => self.activate(),
            Err(reason) => {
                self.state = TenantState::Broken { reason };
                0
            },
        }
    }

    /// The timelines to compact in one round: the active ones. Only an
    /// active tenant compacts.
    pub fn compaction_iteration(&self) -> (r: Result<Vec<TimelineId>, TenantNotActive>)
        ensures
            r is Ok == self.state.is_active(),
            r is Ok ==> r.unwrap()@ == active_ids(self.timelines@, self.timelines@.len() as int),
    {
        if !self.is_active() {
            return Err(TenantNotActive);
        }
        let mut out: Vec<TimelineId> = Vec::new();
        let mut i: usize = 0;
        while i < self.timelines.len()
            invariant
                0 <= i <= self.timelines@.len(),
                out@ == active_ids(self.timelines@, i as int),
            decreases self.timelines@.len() - i,
        {
            if self.timelines[i].is_active() {
                out.push(self.timelines[i].timeline_id);
            }
            i += 1;
        }
        Ok(out)
    }

    /// Shuts the tenant down. A tenant that is stopping already refuses. An
    /// active tenant is set to stopping, and with it every timeline that is
    /// not broken; a broken tenant is shut down as it is. The LSN gates of
    /// all timelines are closed, and the open layers are flushed if asked for.
    pub fn shutdown(&mut self, freeze_and_flush: bool) -> (r: Result<ShutdownWork, ShutdownError>)
        requires
            old(self).wf(),
            !old(self).state.is_starting(),
        ensures
            final(self).wf(),
            final(self).same_settings(old(self)),
            match r {
                Err(ShutdownError::AlreadyStopping) => {
                    &&& old(self).state is Stopping
                    &&& final(self).state == old(self).state
                    &&& final(self).timelines@ == old(self).timelines@
                },
                Ok(work) => {
                    &&& !(old(self).state is Stopping)
                    &&& final(self).state == (if old(self).state is Active {
                        TenantState::Stopping
                    } else {
                        old(self).state
                    })
                    &&& final(self).timelines@.len() == old(self).timelines@.len()
                    &&& forall|i: int|
                        0 <= i < old(self).timelines@.len() ==> Self::timeline_shut_down(
                            old(self).timelines@[i],
                            #[trigger] final(self).timelines@[i],
                            old(self).state is Active,
                            freeze_and_flush,
                        )
                    &&& work.dropped_waits@ == queued_waits(
                        old(self).timelines@,
                        old(self).timelines@.len() as int,
                    )
                    &&& work.uploads@ == (if freeze_and_flush {
                        remote_ids(old(self).timelines@, old(self).timelines@.len() as int)
                    } else {
                        Seq::empty()
                    })
                },
            },
    {
        match self.set_stopping() {
            Ok(()) => {},
            Err(SetStoppingError::Broken) => {},
            Err(SetStoppingError::AlreadyStopping) => {
                return Err(ShutdownError::AlreadyStopping);
            },
        }
        let ghost stopped = self.timelines@;
        let ghost was_active = old(self).state is Active;
        let mut dropped_waits: Vec<(TimelineId, Waiter)> = Vec::new();
        let mut uploads: Vec<TimelineId> = Vec::new();
        let mut i: usize = 0;
        while i < self.timelines.len()
            invariant
                0 <= i <= self.timelines@.len(),
                self.timelines@.len() == old(self).timelines@.len(),
                stopped.len() == old(self).timelines@.len(),
                self.same_settings(old(self)),
                self.state == (if was_active {
                    TenantState::Stopping
                } else {
                    old(self).state
                }),
                was_active == old(self).state is Active,
                !(old(self).state is Stopping),
                old(self).wf(),
                forall|k: int|
                    0 <= k < stopped.len() ==> {
                        &&& (#[trigger] stopped[k]).wf()
                        &&& stopped[k].same_but_state(&old(self).timelines@[k])
                        &&& stopped[k].state == (if was_active && old(self).timelines@[k].state
                            != TimelineState::Broken {
                            TimelineState::Stopping
                        } else {
                            old(self).timelines@[k].state
                        })
                    },
                forall|k: int|
                    i <= k < self.timelines@.len() ==> (#[trigger] self.timelines@[k])
                        == stopped[k],
                forall|k: int|
                    0 <= k < i ==> Self::timeline_shut_down(
                        old(self).timelines@[k],
                        #[trigger] self.timelines@[k],
                        was_active,
                        freeze_and_flush,
                    ),
                dropped_waits@ == queued_waits(old(self).timelines@, i as int),
                uploads@ == (if freeze_and_flush {
                    remote_ids(old(self).timelines@, i as int)
                } else {
                    Seq::empty()
                }),
            decreases self.timelines@.len() - i,
        {
            let timeline_id = self.timelines[i].timeline_id;
            let ghost before = old(self).timelines@[i as int];
            let ghost sofar = dropped_waits@;
            proof {
                assert(stopped[i as int].same_but_state(&before));
            }
            let dropped = self.timelines[i].shutdown(freeze_and_flush);
            let mut k: usize = 0;
            while k < dropped.len()
                invariant
                    0 <= k <= dropped@.len(),
                    dropped_waits@ == sofar + Seq::new(
                        k as nat,
                        |j: int| (timeline_id, dropped@[j]),
                    ),
                decreases dropped@.len() - k,
            {
                dropped_waits.push((timeline_id, dropped[k]));
                proof {
                    assert(dropped_waits@ =~= sofar + Seq::new(
                        (k + 1) as nat,
                        |j: int| (timeline_id, dropped@[j]),
                    ));
                }
                k += 1;
            }
            proof {
                assert(sofar + Seq::new(0nat, |j: int| (timeline_id, dropped@[j])) =~= sofar) by {
                    assert(Seq::new(0nat, |j: int| (timeline_id, dropped@[j])).len() == 0);
                }
                assert(Seq::new(dropped@.len(), |j: int| (timeline_id, dropped@[j])) =~= Seq::new(
                    before.layers.gate().waiting().len(),
                    |j: int| (before.timeline_id, before.layers.gate().waiting()[j]),
                ));
            }
            if freeze_and_flush && self.timelines[i].has_remote_client {
                uploads.push(timeline_id);
            }
            i += 1;
        }
        proof {
            let before = old(self).timelines@;
            let after = self.timelines@;
            assert forall|k: int| 0 <= k < before.len() implies {
                &&& (#[trigger] after[k]).wf()
                &&& after[k].timeline_id == before[k].timeline_id
                &&& after[k].ancestor == before[k].ancestor
                &&& after[k].creation == before[k].creation
            } by {
                assert(Self::timeline_shut_down(before[k], after[k], was_active, freeze_and_flush));
            }
            Self::lemma_timelines_changed(before, after);
        }
        Ok(ShutdownWork { dropped_waits, uploads })
    }

    /// `after` is `before` after the shutdown of the tenant: stopping unless
    /// it was broken or the tenant was not active, and shut down.
    pub open spec fn timeline_shut_down(
        before: Timeline,
        after: Timeline,
        tenant_was_active: bool,
        freeze_and_flush: bool,
    ) -> bool {
        Timeline::shut_down(
            Timeline {
                state: if tenant_was_active && before.state != TimelineState::Broken {
                    TimelineState::Stopping
                } else {
                    before.state
                },
                ..before
            },
            after,
            freeze_and_flush,
        )
    }

    /// `after` is `before` with the open layer of every timeline flushed.
    pub open spec fn all_flushed(before: Seq<Timeline>, after: Seq<Timeline>) -> bool {
        &&& after.len() == before.len()
        &&& forall|i: int|
            0 <= i < before.len() ==> {
                &&& (#[trigger] after[i]).wf()
                &&& after[i].timeline_id == before[i].timeline_id
                &&& after[i].ancestor == before[i].ancestor
                &&& after[i].creation == before[i].creation
                &&& after[i].state == before[i].state
                &&& after[i].last_record_lsn == before[i].last_record_lsn
                &&& after[i].disk_consistent_lsn == before[i].last_record_lsn
                &&& after[i].layers.gate().same_queue(&before[i].layers.gate())
                &&& LayerMap::flushed_from(before[i].layers, after[i].layers)
            }
    }

    /// Flushes the open layer of every timeline, as before a shutdown, and
    /// returns the timelines that have a remote client, whose uploads are to
    /// be waited for.
    pub fn freeze_and_flush_on_shutdown(&mut self) -> (uploads: Vec<TimelineId>)
        requires
            old(self).wf(),
        ensures
            final(self).wf(),
            final(self).same_settings(old(self)),
            final(self).state == old(self).state,
            Self::all_flushed(old(self).timelines@, final(self).timelines@),
            uploads@ == remote_ids(old(self).timelines@, old(self).timelines@.len() as int),
    {
        let mut uploads: Vec<TimelineId> = Vec::new();
        let mut i: usize = 0;
        while i < self.timelines.len()
            invariant
                0 <= i <= self.timelines@.len(),
                self.timelines@.len() == old(self).timelines@.len(),
                self.same_settings(old(self)),
                self.state == old(self).state,
                old(self).wf(),
                forall|k: int|
                    i <= k < self.timelines@.len() ==> (#[trigger] self.timelines@[k])
                        == old(self).timelines@[k],
                forall|k: int|
                    0 <= k < i ==> {
                        &&& (#[trigger] self.timelines@[k]).wf()
                        &&& self.timelines@[k].timeline_id == old(self).timelines@[k].timeline_id
                        &&& self.timelines@[k].ancestor == old(self).timelines@[k].ancestor
                        &&& self.timelines@[k].creation == old(self).timelines@[k].creation
                        &&& self.timelines@[k].state == old(self).timelines@[k].state
                        &&& self.timelines@[k].last_record_lsn
                            == old(self).timelines@[k].last_record_lsn
                        &&& self.timelines@[k].disk_consistent_lsn
                            == old(self).timelines@[k].last_record_lsn
                        &&& self.timelines@[k].layers.gate().same_queue(
                            &old(self).timelines@[k].layers.gate(),
                        )
                        &&& LayerMap::flushed_from(
                            old(self).timelines@[k].layers,
                            self.timelines@[k].layers,
                        )
                    },
                uploads@ == remote_ids(old(self).timelines@, i as int),
            decreases self.timelines@.len() - i,
        {
            assert(old(self).timelines@[i as int].wf());
            self.timelines[i].freeze_and_flush();
            if self.timelines[i].has_remote_client {
                uploads.push(self.timelines[i].timeline_id);
            }
            i += 1;
        }
        proof {
            Self::lemma_same_states(*old(self), *self);
        }
        uploads
    }
}

} // verus!
