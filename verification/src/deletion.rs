//! Deleting a timeline: what has to hold before the deletion may begin, and
//! what each step of it leaves behind.

use crate::id::TimelineId;
use crate::tenant::id_absent;
use crate::tenant::Tenant;
use crate::timeline::CreationPhase;
use crate::timeline::Timeline;
use crate::timeline::TimelineState;
use vstd::prelude::*;

verus! {

/// What kept a deletion from going through.
#[derive(Clone, Copy, Debug, PartialEq, Eq, Structural)]
pub enum DeleteFailure {
    /// The timeline is still being created.
    TimelineIsCreating,
    /// Another deletion of the timeline is under way.
    AlreadyInProgress,
    /// The upload queue of the timeline was never set up.
    UploadQueueUninitialized,
    /// The timeline could not be marked as deleted in remote storage.
    PersistDeletedFlag,
    /// The local directory of the timeline could not be removed.
    RemoveLocalDir,
    /// No deletion of the timeline is under way.
    NotInProgress,
}

/// Why a timeline was not deleted.
#[derive(Debug)]
pub enum DeleteTimelineError {
    NotFound,
    /// Other timelines branch off this one.
    HasChildren(Vec<TimelineId>),
    Other(DeleteFailure),
}

/// What the beginning of a deletion came to.
#[derive(Clone, Copy, Debug, PartialEq, Eq, Structural)]
pub enum DeleteStep {
    /// Another deletion has finished just before: nothing is left to do.
    AlreadyDeleted,
    /// The timeline is stopping. Its tasks have to be shut down, and its
    /// remote client, if it has one, stopped and told to mark the timeline
    /// as deleted.
    Proceed { has_remote_client: bool },
}

/// How the attempt to stop the remote client went.
#[derive(Clone, Copy, Debug, PartialEq, Eq, Structural)]
pub enum StopResult {
    Stopped,
    QueueUninitialized,
}

/// How the attempt to mark the timeline as deleted in remote storage went.
#[derive(Clone, Copy, Debug, PartialEq, Eq, Structural)]
pub enum PersistResult {
    Done,
    AlreadyDeleted,
    AlreadyInProgress,
    Failed,
}

/// How the attempt to remove the local directory went.
#[derive(Clone, Copy, Debug, PartialEq, Eq, Structural)]
pub enum DirRemoval {
    Removed,
    /// There was no directory, as after an earlier attempt.
    NotFound,
    Failed,
}

/// The ids of the timelines of `ts` that branch off `id`, in their order.
pub open spec fn children_ids(ts: Seq<Timeline>, id: TimelineId) -> Seq<TimelineId>
    decreases ts.len(),
{
    if ts.len() == 0 {
        Seq::empty()
    } else {
        let rest = children_ids(ts.drop_last(), id);
        match ts.last().ancestor {
            Some((a, _)) => if a == id {
                rest.push(ts.last().timeline_id)
            } else {
                rest
            },
            None => rest,
        }
    }
}

/// A timeline has no children exactly if no timeline names it as ancestor.
pub proof fn lemma_children_ids(ts: Seq<Timeline>, id: TimelineId)
    ensures
        children_ids(ts, id).len() == 0 <==> forall|i: int|
            0 <= i < ts.len() ==> match (#[trigger] ts[i]).ancestor {
                Some((a, _)) => a != id,
                None => true,
            },
    decreases ts.len(),
{
    if ts.len() > 0 {
        let init = ts.drop_last();
        lemma_children_ids(init, id);
        assert forall|i: int| 0 <= i < init.len() implies init[i] == ts[i] by {}
        let last_is_child = match ts.last().ancestor {
            Some((a, _)) => a == id,
            None => false,
        };
        if children_ids(ts, id).len() == 0 {
            assert(!last_is_child);
            assert forall|i: int| 0 <= i < ts.len() implies match (#[trigger] ts[i]).ancestor {
                Some((a, _)) => a != id,
                None => true,
            } by {
                if i < init.len() {
                    assert(init[i] == ts[i]);
                }
            }
        } else {
            if !last_is_child {
                let i = choose|i: int|
                    0 <= i < init.len() && !(match (#[trigger] init[i]).ancestor {
                        Some((a, _)) => a != id,
                        None => true,
                    });
                assert(ts[i] == init[i]);
            } else {
                assert(ts[ts.len() - 1] == ts.last());
            }
        }
    }
}

impl Tenant {
    /// The ids of the timelines that branch off `id`.
    pub fn children_of(&self, id: TimelineId) -> (r: Vec<TimelineId>)
        ensures
            r@ == children_ids(self.timelines@, id),
    {
        let mut out: Vec<TimelineId> = Vec::new();
        let mut i: usize = 0;
        proof {
            assert(self.timelines@.subrange(0, 0) =~= Seq::<Timeline>::empty());
        }
        while i < self.timelines.len()
            invariant
                0 <= i <= self.timelines@.len(),
                out@ == children_ids(self.timelines@.subrange(0, i as int), id),
            decreases self.timelines@.len() - i,
        {
            proof {
                let next = self.timelines@.subrange(0, i + 1);
                assert(next.drop_last() =~= self.timelines@.subrange(0, i as int));
                assert(next.last() == self.timelines@[i as int]);
            }
            match self.timelines[i].ancestor {
                Some((a, _)) => {
                    if a.0 == id.0 {
                        out.push(self.timelines[i].timeline_id);
                    }
                },
                None => {},
            }
            i += 1;
        }
        proof {
            assert(self.timelines@.subrange(0, self.timelines@.len() as int) =~= self.timelines@);
        }
        out
    }

    /// `after` is `before` but for the timeline at `at`, which keeps its id,
    /// ancestor, creation phase and layers.
    pub open spec fn one_changed(before: Seq<Timeline>, after: Seq<Timeline>, at: int) -> bool {
        &&& 0 <= at < before.len()
        &&& after.len() == before.len()
        &&& forall|i: int| 0 <= i < before.len() && i != at ==> (#[trigger] after[i]) == before[i]
        &&& after[at].timeline_id == before[at].timeline_id
        &&& after[at].ancestor == before[at].ancestor
        &&& after[at].creation == before[at].creation
        &&& after[at].layers == before[at].layers
        &&& after[at].last_record_lsn == before[at].last_record_lsn
    }

    /// A change to one timeline that keeps its id, ancestor, creation phase
    /// and layers, and does not make a placeholder of it or of a placeholder
    /// something else, leaves the tenant well formed.
    pub proof fn lemma_one_changed(before: Tenant, after: Tenant, at: int)
        requires
            before.wf(),
            Self::one_changed(before.timelines@, after.timelines@, at),
            after.state == before.state,
            (after.timelines@[at].state == TimelineState::Creating) == (
            before.timelines@[at].state == TimelineState::Creating),
        ensures
            after.wf(),
    {
        let b = before.timelines@;
        let a = after.timelines@;
        assert forall|i: int| 0 <= i < b.len() implies {
            &&& (#[trigger] a[i]).wf()
            &&& a[i].timeline_id == b[i].timeline_id
            &&& a[i].ancestor == b[i].ancestor
            &&& a[i].creation == b[i].creation
        } by {
            assert(b[i].wf());
            if i != at {
                assert(a[i] == b[i]);
            }
        }
        Self::lemma_timelines_changed(b, a);
        if !(after.state is Stopping || after.state is Broken) {
            assert forall|i: int| 0 <= i < a.len() implies ((#[trigger] a[i]).state
                == TimelineState::Creating) == (a[i].creation != CreationPhase::NotCreating) by {
                assert((b[i].state == TimelineState::Creating) == (b[i].creation
                    != CreationPhase::NotCreating));
                if i != at {
                    assert(a[i] == b[i]);
                }
            }
        }
        if after.state.is_starting() {
            assert forall|i: int| 0 <= i < a.len() implies (#[trigger] a[i]).creation
                == CreationPhase::NotCreating by {
                assert(b[i].creation == CreationPhase::NotCreating);
            }
        }
    }

    /// Begins the deletion of the timeline `timeline_id`.
    ///
    /// Refused where other timelines branch off it, where the tenant has no
    /// such timeline, where the timeline is still being created, and where
    /// another deletion of it is under way; in this order. A timeline that
    /// has been deleted already needs nothing more. Else the deletion is
    /// marked as under way and the timeline is told to stop.
    pub fn prepare_and_schedule_delete_timeline(&mut self, timeline_id: TimelineId) -> (r: Result<
        DeleteStep,
        DeleteTimelineError,
    >)
        requires
            old(self).wf(),
        ensures
            final(self).wf(),
            final(self).same_settings(old(self)),
            final(self).state == old(self).state,
            Self::delete_begun(*old(self), timeline_id, r),
            match r {
                Ok(DeleteStep::Proceed { has_remote_client }) => exists|at: int|
                    #![trigger old(self).timelines@[at]]
                    {
                        &&& Self::one_changed(old(self).timelines@, final(self).timelines@, at)
                        &&& old(self).timelines@[at].timeline_id == timeline_id
                        &&& has_remote_client == old(self).timelines@[at].has_remote_client
                        &&& final(self).timelines@[at].delete_in_progress
                        &&& final(self).timelines@[at].state == Timeline::next_state(
                            old(self).timelines@[at].state,
                            TimelineState::Stopping,
                        )
                        &&& final(self).timelines@[at].deleted == old(self).timelines@[at].deleted
                        &&& final(self).timelines@[at].gc_info == old(self).timelines@[at].gc_info
                        &&& final(self).timelines@[at].latest_gc_cutoff_lsn
                            == old(self).timelines@[at].latest_gc_cutoff_lsn
                    },
                _ => final(self).timelines@ == old(self).timelines@,
            },
    {
        let children = self.children_of(timeline_id);
        if children.len() > 0 {
            return Err(DeleteTimelineError::HasChildren(children));
        }
        let at = match self.find(timeline_id) {
            None => {
                return Err(DeleteTimelineError::NotFound);
            },
            Some(at) => at,
        };
        proof {
            Self::lemma_found(self.timelines@, timeline_id, at as int);
        }
        if self.timelines[at].is_creating() {
            return Err(DeleteTimelineError::Other(DeleteFailure::TimelineIsCreating));
        }
        if self.timelines[at].delete_in_progress {
            return Err(DeleteTimelineError::Other(DeleteFailure::AlreadyInProgress));
        }
        if self.timelines[at].deleted {
            return Ok(DeleteStep::AlreadyDeleted);
        }
        let has_remote_client = self.timelines[at].has_remote_client;
        self.timelines[at].delete_in_progress = true;
        self.timelines[at].set_state(TimelineState::Stopping);
        proof {
            assert(Self::one_changed(old(self).timelines@, self.timelines@, at as int));
            Self::lemma_one_changed(*old(self), *self, at as int);
        }
        Ok(DeleteStep::Proceed { has_remote_client })
    }

    /// What the beginning of a deletion answers.
    pub open spec fn delete_begun(
        tenant: Tenant,
        timeline_id: TimelineId,
        r: Result<DeleteStep, DeleteTimelineError>,
    ) -> bool {
        let children = children_ids(tenant.timelines@, timeline_id);
        if children.len() > 0 {
            r matches Err(DeleteTimelineError::HasChildren(c)) && c@ == children
        } else if !Self::has_timeline(tenant.timelines@, timeline_id) {
            r matches Err(DeleteTimelineError::NotFound)
        } else {
            let t = Self::timeline(tenant.timelines@, timeline_id);
            if t.state == TimelineState::Creating {
                r matches Err(DeleteTimelineError::Other(DeleteFailure::TimelineIsCreating))
            } else if t.delete_in_progress {
                r matches Err(DeleteTimelineError::Other(DeleteFailure::AlreadyInProgress))
            } else if t.deleted {
                r matches Ok(DeleteStep::AlreadyDeleted)
            } else {
                r matches Ok(DeleteStep::Proceed { has_remote_client }) && has_remote_client
                    == t.has_remote_client
            }
        }
    }

    /// Whether the deletion goes on after the remote client was stopped and
    /// told to mark the timeline as deleted; `None` stands for a step that
    /// was not taken. A timeline that was marked as deleted before counts as
    /// marked.
    pub open spec fn shutdown_failure(stop: Option<StopResult>, persist: Option<PersistResult>)
        -> Option<
        DeleteFailure,
    > {
        if stop == Some(StopResult::QueueUninitialized) {
            Some(DeleteFailure::UploadQueueUninitialized)
        } else if persist == Some(PersistResult::AlreadyInProgress) || persist == Some(
            PersistResult::Failed,
        ) {
            Some(DeleteFailure::PersistDeletedFlag)
        } else {
            None
        }
    }

    /// Goes on with a deletion after the tasks of the timeline were shut
    /// down. Where the deletion cannot go on, it is no longer under way, and
    /// can be tried again. Else the local directory of the timeline has to
    /// be removed next.
    pub fn timeline_tasks_stopped(
        &mut self,
        timeline_id: TimelineId,
        stop: Option<StopResult>,
        persist: Option<PersistResult>,
    ) -> (r: Result<(), DeleteTimelineError>)
        requires
            old(self).wf(),
        ensures
            final(self).wf(),
            final(self).same_settings(old(self)),
            final(self).state == old(self).state,
            !Self::deleting(old(self).timelines@, timeline_id) ==> {
                &&& r matches Err(DeleteTimelineError::Other(DeleteFailure::NotInProgress))
                &&& final(self).timelines@ == old(self).timelines@
            },
            Self::deleting(old(self).timelines@, timeline_id) ==> match Self::shutdown_failure(
                stop,
                persist,
            ) {
                None => r is Ok && final(self).timelines@ == old(self).timelines@,
                Some(f) => {
                    &&& r matches Err(DeleteTimelineError::Other(e)) && e == f
                    &&& Self::deletion_ended(old(self).timelines@, final(self).timelines@,
                        timeline_id)
                },
            },
    {
        let at = match self.deleting_at(timeline_id) {
            None => {
                return Err(DeleteTimelineError::Other(DeleteFailure::NotInProgress));
            },
            Some(at) => at,
        };
        let failure = match (stop, persist) {
            (Some(StopResult::QueueUninitialized), _) => Some(
                DeleteFailure::UploadQueueUninitialized,
            ),
            (_, Some(PersistResult::AlreadyInProgress)) | (_, Some(PersistResult::Failed)) => Some(
                DeleteFailure::PersistDeletedFlag,
            ),
            _ => None,
        };
        match failure {
            None => Ok(()),
            Some(f) => {
                self.timelines[at].delete_in_progress = false;
                proof {
                    assert(Self::one_changed(old(self).timelines@, self.timelines@, at as int));
                    Self::lemma_one_changed(*old(self), *self, at as int);
                }
                Err(DeleteTimelineError::Other(f))
            },
        }
    }

    /// A deletion of the timeline `id` is under way.
    pub open spec fn deleting(ts: Seq<Timeline>, id: TimelineId) -> bool {
        exists|i: int|
            0 <= i < ts.len() && (#[trigger] ts[i]).timeline_id == id && ts[i].delete_in_progress
    }

    /// `after` is `before` but that the deletion of the timeline `id` is no
    /// longer under way.
    pub open spec fn deletion_ended(before: Seq<Timeline>, after: Seq<Timeline>,
        id: TimelineId) -> bool {
        exists|at: int|
            #![trigger before[at]]
            {
                &&& Self::one_changed(before, after, at)
                &&& before[at].timeline_id == id
                &&& !after[at].delete_in_progress
                &&& after[at].deleted == before[at].deleted
                &&& after[at].gc_info == before[at].gc_info
                &&& after[at].latest_gc_cutoff_lsn == before[at].latest_gc_cutoff_lsn
            }
    }

    /// The place of the timeline `id` if a deletion of it is under way.
    pub fn deleting_at(&self, id: TimelineId) -> (r: Option<usize>)
        requires
            self.wf(),
        ensures
            r is Some == Self::deleting(self.timelines@, id),
            r is Some ==> r.unwrap() < self.timelines@.len()
                && self.timelines@[r.unwrap() as int].timeline_id
                == id && self.timelines@[r.unwrap() as int].delete_in_progress,
    {
        match self.find(id) {
            None => None,
            Some(at) => {
                if self.timelines[at].delete_in_progress {
                    Some(at)
                } else {
                    proof {
                        assert forall|i: int|
                            0 <= i < self.timelines@.len() && (
                            #[trigger] self.timelines@[i]).timeline_id == id implies i == at by {
                            if i < at {
                                assert(self.timelines@[i].timeline_id
                                    != self.timelines@[at as int].timeline_id);
                            } else if i > at {
                                assert(self.timelines@[at as int].timeline_id
                                    != self.timelines@[i].timeline_id);
                            }
                        }
                    }
                    None
                }
            },
        }
    }

    /// Ends a deletion after the attempt to remove the local directory of
    /// the timeline. No timeline may branch off the timeline by now.
    ///
    /// Where the directory is gone, or was not there, the timeline leaves
    /// the map; the answer says whether what is left of it in remote storage
    /// has to be deleted. Where the directory could not be removed, the
    /// timeline stays, broken unless it is a placeholder, and its deletion
    /// is no longer under way.
    pub fn delete_timeline(&mut self, timeline_id: TimelineId, dir: DirRemoval) -> (r: Result<
        bool,
        DeleteFailure,
    >)
        requires
            old(self).wf(),
            children_ids(old(self).timelines@, timeline_id).len() == 0,
        ensures
            final(self).wf(),
            final(self).same_settings(old(self)),
            final(self).state == old(self).state,
            !Self::deleting(old(self).timelines@, timeline_id) ==> r == Err::<bool, DeleteFailure>(
                DeleteFailure::NotInProgress,
            ) && final(self).timelines@ == old(self).timelines@,
            Self::deleting(old(self).timelines@, timeline_id) ==> {
                if dir == DirRemoval::Failed {
                    &&& r == Err::<bool, DeleteFailure>(DeleteFailure::RemoveLocalDir)
                    &&& exists|at: int|
                        #![trigger old(self).timelines@[at]]
                        {
                            &&& Self::one_changed(old(self).timelines@, final(self).timelines@, at)
                            &&& old(self).timelines@[at].timeline_id == timeline_id
                            &&& !final(self).timelines@[at].delete_in_progress
                            &&& final(self).timelines@[at].state
                                == (if old(self).timelines@[at].state == TimelineState::Creating {
                                TimelineState::Creating
                            } else {
                                TimelineState::Broken
                            })
                        }
                } else {
                    &&& id_absent(final(self).timelines@, timeline_id)
                    &&& exists|at: int|
                        #![trigger old(self).timelines@[at]]
                        {
                            &&& 0 <= at < old(self).timelines@.len()
                            &&& old(self).timelines@[at].timeline_id == timeline_id
                            &&& final(self).timelines@ == old(self).timelines@.remove(at)
                            &&& r == Ok::<bool, DeleteFailure>(
                                old(self).timelines@[at].has_remote_client,
                            )
                        }
                }
            },
    {
        let at = match self.deleting_at(timeline_id) {
            None => {
                return Err(DeleteFailure::NotInProgress);
            },
            Some(at) => at,
        };
        match dir {
            DirRemoval::Failed => {
                self.timelines[at].delete_in_progress = false;
                if !self.timelines[at].is_creating() {
                    self.timelines[at].set_broken();
                }
                proof {
                    assert(Self::one_changed(old(self).timelines@, self.timelines@, at as int));
                    Self::lemma_one_changed(*old(self), *self, at as int);
                }
                Err(DeleteFailure::RemoveLocalDir)
            },
            _ => {
                proof {
                    lemma_children_ids(self.timelines@, timeline_id);
                    Self::lemma_remove_timeline(self.timelines@, at as int);
                }
                let removed = self.timelines.remove(at);
                proof {
                    let before = old(self).timelines@;
                    let after = self.timelines@;
                    assert forall|i: int| 0 <= i < after.len() implies #[trigger] after[i]
                        == before[if i < at {
                        i
                    } else {
                        i + 1
                    }] by {}
                }
                Ok(removed.has_remote_client)
            },
        }
    }
}

} // verus!
