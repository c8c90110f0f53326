//! Creating a timeline in two phases, so that after a crash the timeline is
//! either all there or not there at all.
//!
//! A placeholder in state `Creating` holds the id in the map of the tenant
//! while an uninit mark on disk says that the directory beside it is not
//! finished. The steps on disk are taken by the caller, who reports how each
//! went.

use crate::id::TimelineId;
use crate::lsn::Lsn;
use crate::metadata::TimelineMetadata;
use crate::tenant::id_absent;
use crate::tenant::stands_before;
use crate::tenant::Tenant;
use crate::tenant::TenantState;
use crate::timeline::CreationPhase;
use crate::timeline::Timeline;
use crate::timeline::TimelineState;
use vstd::prelude::*;

verus! {

/// The PostgreSQL version that a placeholder is given.
pub const DEFAULT_PG_VERSION: u32 = 14;

/// What was found to stand in the way of a new timeline.
#[derive(Clone, Copy, Debug, PartialEq, Eq, Structural)]
pub enum ExistingState {
    UninitMarkFile,
    TimelineDirectory,
    TimelinesMapEntry,
}

/// What else kept a timeline from being created.
#[derive(Clone, Copy, Debug, PartialEq, Eq, Structural)]
pub enum CreationFailure {
    /// The tenant is not active.
    TenantNotActive,
    /// The uninit mark could not be made.
    CreateUninitMark,
    /// The uninit mark could not be removed.
    RemoveUninitMark,
    /// The tenant holds no placeholder for the timeline in the phase that
    /// the step needs.
    NoPlaceholder,
}

/// Why the creation of a timeline could not begin.
#[derive(Clone, Copy, Debug, PartialEq, Eq, Structural)]
pub enum StartCreatingTimelineError {
    /// The timeline exists. Nothing on disk has been changed, and no
    /// placeholder is left in the map.
    AlreadyExists { timeline_id: TimelineId, existing_state: ExistingState },
    Other(CreationFailure),
}

/// What was found on disk for a timeline to be created.
#[derive(Clone, Copy, Debug, PartialEq, Eq, Structural)]
pub struct CreationProbe {
    pub uninit_mark_exists: bool,
    pub timeline_dir_exists: bool,
}

/// What became of the placeholder of a creation that failed.
#[derive(Clone, Copy, Debug, PartialEq, Eq, Structural)]
pub enum PlaceholderRemoval {
    /// The placeholder has been taken out of the map.
    Removed,
    /// Another timeline has taken the place; it stays.
    Replaced,
    /// The map has no timeline of that id.
    Missing,
    /// What is on disk could not be removed: the placeholder stays, and the
    /// id cannot be used until somebody has cleaned up.
    LeftInPlace,
}

/// Why a placeholder could not give way to the real timeline.
#[derive(Clone, Copy, Debug, PartialEq, Eq, Structural)]
pub enum ReplacePlaceholderError {
    /// The map holds no placeholder of that id whose uninit mark has been
    /// removed.
    NoPlaceholder,
    /// The timeline handed in has another id, or is itself a placeholder.
    NotTheTimeline,
    /// The timeline off which this one branches is not in the map.
    AncestorMissing(TimelineId),
}

/// Stands for a creation under way. It ends with either
/// `creation_complete_remove_uninit_marker_and_get_placeholder_timeline` or
/// `creation_failed`.
pub struct CreatingTimelineGuard {
    timeline_id: TimelineId,
}

/// The tenant has a placeholder for `id` in phase `phase`.
pub open spec fn has_placeholder(ts: Seq<Timeline>, id: TimelineId, phase: CreationPhase) -> bool {
    exists|i: int|
        0 <= i < ts.len() && (#[trigger] ts[i]).timeline_id == id && ts[i].creation == phase
            && phase != CreationPhase::NotCreating
}

/// `after` is `before` with the creation phase of the timeline at `at` set
/// to `phase`.
pub open spec fn phase_set(before: Seq<Timeline>, after: Seq<Timeline>, at: int,
    phase: CreationPhase) -> bool {
    &&& 0 <= at < before.len()
    &&& after.len() == before.len()
    &&& forall|i: int| 0 <= i < before.len() && i != at ==> (#[trigger] after[i]) == before[i]
    &&& after[at].creation == phase
    &&& after[at].timeline_id == before[at].timeline_id
    &&& after[at].state == before[at].state
    &&& after[at].ancestor == before[at].ancestor
    &&& after[at].layers == before[at].layers
    &&& after[at].last_record_lsn == before[at].last_record_lsn
}

/// The metadata of a timeline that starts empty at `initdb_lsn`.
pub open spec fn empty_timeline_metadata_spec(initdb_lsn: Lsn, pg_version: u32)
    -> TimelineMetadata {
    TimelineMetadata {
        disk_consistent_lsn: Lsn(0),
        prev_record_lsn: None,
        ancestor_timeline: None,
        ancestor_lsn: Lsn(0),
        latest_gc_cutoff_lsn: initdb_lsn,
        initdb_lsn,
        pg_version,
    }
}

/// The metadata of a timeline that starts empty at `initdb_lsn`: nothing is
/// on disk yet, there is no ancestor, and nothing before `initdb_lsn` can be
/// read.
pub fn empty_timeline_metadata(initdb_lsn: Lsn, pg_version: u32) -> (m: TimelineMetadata)
    ensures
        m == empty_timeline_metadata_spec(initdb_lsn, pg_version),
{
    TimelineMetadata::new(Lsn(0), None, None, Lsn(0), initdb_lsn, initdb_lsn, pg_version)
}

/// In a tenant that is neither stopping nor broken, a timeline is in
/// `Creating` exactly while its creation is under way; and an uninit mark
/// exists only for a timeline in `Creating`.
pub proof fn lemma_placeholder_state(tenant: Tenant, i: int)
    requires
        tenant.wf(),
        !(tenant.state is Stopping || tenant.state is Broken),
        0 <= i < tenant.timelines@.len(),
    ensures
        (tenant.timelines@[i].state == TimelineState::Creating) == (tenant.timelines@[i].creation
            != CreationPhase::NotCreating),
        tenant.timelines@[i].creation == CreationPhase::Marked ==> tenant.timelines@[i].state
            == TimelineState::Creating,
{
}

impl CreatingTimelineGuard {
    /// The id of the timeline being created.
    pub closed spec fn id(&self) -> TimelineId {
        self.timeline_id
    }

    /// The id of the timeline being created.
    pub fn timeline_id(&self) -> (r: TimelineId)
        ensures
            r == self.id(),
    {
        self.timeline_id
    }

    /// Ends a creation that succeeded, after the attempt to remove the
    /// uninit mark. Where the mark is gone, the placeholder waits to be
    /// replaced and its id is returned. Where it is not, the placeholder
    /// stays as it is; the timeline cannot be used or deleted until somebody
    /// has cleaned up.
    pub fn creation_complete_remove_uninit_marker_and_get_placeholder_timeline(
        self,
        tenant: &mut Tenant,
        mark_removed: bool,
    ) -> (r: Result<TimelineId, CreationFailure>)
        requires
            old(tenant).wf(),
        ensures
            final(tenant).wf(),
            final(tenant).same_settings(old(tenant)),
            final(tenant).state == old(tenant).state,
            r == (if !has_placeholder(old(tenant).timelines@, self.id(), CreationPhase::Marked) {
                Err::<TimelineId, CreationFailure>(CreationFailure::NoPlaceholder)
            } else if !mark_removed {
                Err::<TimelineId, CreationFailure>(CreationFailure::RemoveUninitMark)
            } else {
                Ok::<TimelineId, CreationFailure>(self.id())
            }),
            r is Err ==> final(tenant).timelines@ == old(tenant).timelines@,
            r is Ok ==> exists|at: int|
                #![trigger old(tenant).timelines@[at]]
                old(tenant).timelines@[at].timeline_id == self.id() && phase_set(
                    old(tenant).timelines@,
                    final(tenant).timelines@,
                    at,
                    CreationPhase::Unmarked,
                ),
    {
        match tenant.placeholder_at(self.timeline_id, CreationPhase::Marked) {
            None => Err(CreationFailure::NoPlaceholder),
            Some(at) => {
                if !mark_removed {
                    return Err(CreationFailure::RemoveUninitMark);
                }
                tenant.set_phase(at, CreationPhase::Unmarked);
                Ok(self.timeline_id)
            },
        }
    }

    /// Ends a creation that failed, after the attempt to remove the timeline
    /// directory and the uninit mark. Where both are gone, the placeholder
    /// is taken out of the map and the id is free again. Where they are not,
    /// the placeholder stays.
    pub fn creation_failed(self, tenant: &mut Tenant, cleaned_up: bool) -> (r: PlaceholderRemoval)
        requires
            old(tenant).wf(),
        ensures
            final(tenant).wf(),
            final(tenant).same_settings(old(tenant)),
            final(tenant).state == old(tenant).state,
            !cleaned_up ==> r == PlaceholderRemoval::LeftInPlace && final(tenant).timelines@ == old(
                tenant,
            ).timelines@,
            cleaned_up ==> Tenant::placeholder_removed(
                old(tenant).timelines@,
                final(tenant).timelines@,
                self.id(),
                r,
            ),
    {
        if cleaned_up {
            self.remove_placeholder_timeline_object_from_inmemory_map(tenant)
        } else {
            PlaceholderRemoval::LeftInPlace
        }
    }

    /// Takes the placeholder out of the map. A timeline of that id that is
    /// no placeholder stays.
    pub fn remove_placeholder_timeline_object_from_inmemory_map(&self, tenant: &mut Tenant) -> (r:
        PlaceholderRemoval)
        requires
            old(tenant).wf(),
        ensures
            final(tenant).wf(),
            final(tenant).same_settings(old(tenant)),
            final(tenant).state == old(tenant).state,
            Tenant::placeholder_removed(
                old(tenant).timelines@,
                final(tenant).timelines@,
                self.id(),
                r,
            ),
    {
        match tenant.find(self.timeline_id) {
            None => PlaceholderRemoval::Missing,
            Some(at) => {
                match tenant.timelines[at].creation {
                    CreationPhase::NotCreating => PlaceholderRemoval::Replaced,
                    _ => {
                        tenant.remove_placeholder(at);
                        PlaceholderRemoval::Removed
                    },
                }
            },
        }
    }
}

impl Tenant {
    /// What `remove_placeholder_timeline_object_from_inmemory_map` does for
    /// the id `id`.
    pub open spec fn placeholder_removed(
        before: Seq<Timeline>,
        after: Seq<Timeline>,
        id: TimelineId,
        r: PlaceholderRemoval,
    ) -> bool {
        match r {
            PlaceholderRemoval::Missing => id_absent(before, id) && after == before,
            PlaceholderRemoval::Replaced => after == before && exists|i: int|
                0 <= i < before.len() && (#[trigger] before[i]).timeline_id == id
                    && before[i].creation == CreationPhase::NotCreating,
            PlaceholderRemoval::Removed => id_absent(after, id) && exists|i: int|
                0 <= i < before.len() && (#[trigger] before[i]).timeline_id == id
                    && before[i].creation != CreationPhase::NotCreating && after == before.remove(
                    i,
                ),
            PlaceholderRemoval::LeftInPlace => false,
        }
    }

    /// The place of the placeholder for `id`, if it is in phase `phase`.
    pub fn placeholder_at(&self, id: TimelineId, phase: CreationPhase) -> (r: Option<usize>)
        requires
            self.wf(),
        ensures
            r is Some == has_placeholder(self.timelines@, id, phase),
            r is Some ==> r.unwrap() < self.timelines@.len()
                && self.timelines@[r.unwrap() as int].timeline_id
                == id && self.timelines@[r.unwrap() as int].creation == phase,
    {
        match self.find(id) {
            None => None,
            Some(at) => {
                let is_placeholder = match self.timelines[at].creation {
                    CreationPhase::NotCreating => false,
                    _ => true,
                };
                if is_placeholder && self.timelines[at].creation == phase {
                    Some(at)
                } else {
                    proof {
                        assert forall|i: int|
                            0 <= i < self.timelines@.len() && (
                            #[trigger] self.timelines@[i]).timeline_id == id implies i == at by {
                            if i < at {
                                assert(self.timelines@[i].timeline_id
                                    != self.timelines@[at as int].timeline_id);
                            } else if i > at {
                                assert(self.timelines@[at as int].timeline_id
                                    != self.timelines@[i].timeline_id);
                            }
                        }
                    }
                    None
                }
            },
        }
    }

    /// Sets the creation phase of the placeholder at `at`.
    fn set_phase(&mut self, at: usize, phase: CreationPhase)
        requires
            old(self).wf(),
            at < old(self).timelines@.len(),
            old(self).timelines@[at as int].creation != CreationPhase::NotCreating,
            phase != CreationPhase::NotCreating,
        ensures
            final(self).wf(),
            final(self).same_settings(old(self)),
            final(self).state == old(self).state,
            phase_set(old(self).timelines@, final(self).timelines@, at as int, phase),
    {
        self.timelines[at].creation = phase;
        proof {
            let before = old(self).timelines@;
            let after = self.timelines@;
            assert(phase_set(before, after, at as int, phase));
            assert forall|i: int| 0 <= i < after.len() implies (#[trigger] after[i]).wf() by {
                if i != at {
                    assert(after[i] == before[i]);
                } else {
                    assert(before[i].wf());
                }
            }
            assert forall|i: int, j: int| 0 <= i < j < after.len() implies (
            #[trigger] after[i]).timeline_id != (#[trigger] after[j]).timeline_id by {
                assert(after[i].timeline_id == before[i].timeline_id);
                assert(after[j].timeline_id == before[j].timeline_id);
            }
            assert forall|i: int| 0 <= i < after.len() implies match (#[trigger] after[i]).ancestor {
                Some((a, _)) => stands_before(after, a, i),
                None => true,
            } by {
                assert(after[i].ancestor == before[i].ancestor);
                if before[i].ancestor is Some {
                    let a = before[i].ancestor.unwrap().0;
                    assert(stands_before(before, a, i));
                    let k = choose|k: int|
                        0 <= k < i && k < before.len() && (#[trigger] before[k]).timeline_id == a
                            && before[k].creation == CreationPhase::NotCreating;
                    assert(k != at);
                    assert(after[k] == before[k]);
                }
            }
            if !(self.state is Stopping || self.state is Broken) {
                assert forall|i: int| 0 <= i < after.len() implies ((#[trigger] after[i]).state
                    == TimelineState::Creating) == (after[i].creation
                    != CreationPhase::NotCreating) by {
                    if i != at {
                        assert(after[i] == before[i]);
                    } else {
                        assert((before[i].state == TimelineState::Creating) == (before[i].creation
                            != CreationPhase::NotCreating));
                    }
                }
            }
            if self.state.is_starting() {
                assert(before[at as int].creation == CreationPhase::NotCreating);
            }
        }
    }

    /// Takes the placeholder at `at` out of the map.
    fn remove_placeholder(&mut self, at: usize)
        requires
            old(self).wf(),
            at < old(self).timelines@.len(),
            old(self).timelines@[at as int].creation != CreationPhase::NotCreating,
        ensures
            final(self).wf(),
            final(self).same_settings(old(self)),
            final(self).state == old(self).state,
            final(self).timelines@ == old(self).timelines@.remove(at as int),
            id_absent(final(self).timelines@, old(self).timelines@[at as int].timeline_id),
    {
        proof {
            let ts = self.timelines@;
            assert forall|i: int| 0 <= i < ts.len() implies match (#[trigger] ts[i]).ancestor {
                Some((a, _)) => a != ts[at as int].timeline_id,
                None => true,
            } by {
                if ts[i].ancestor is Some {
                    let a = ts[i].ancestor.unwrap().0;
                    assert(stands_before(ts, a, i));
                    let k = choose|k: int|
                        0 <= k < i && k < ts.len() && (#[trigger] ts[k]).timeline_id == a
                            && ts[k].creation == CreationPhase::NotCreating;
                    if a == ts[at as int].timeline_id {
                        if k < at {
                            assert(ts[k].timeline_id != ts[at as int].timeline_id);
                        } else if k > at {
                            assert(ts[at as int].timeline_id != ts[k].timeline_id);
                        }
                    }
                }
            }
            Self::lemma_remove_timeline(ts, at as int);
        }
        self.timelines.remove(at);
        proof {
            let before = old(self).timelines@;
            let after = self.timelines@;
            assert forall|i: int| 0 <= i < after.len() implies #[trigger] after[i] == before[if i
                < at {
                i
            } else {
                i + 1
            }] by {}
        }
    }

    /// Begins the creation of the timeline `timeline_id`, given what was
    /// found on disk for it.
    ///
    /// Refused where the tenant is not active, and where the timeline exists
    /// already: as an uninit mark, as a directory, or in the map, looked for
    /// in this order. Else a placeholder in `Creating` is added to the map.
    /// The caller then looks at the disk once more, makes the uninit mark,
    /// and reports with `uninit_mark_created`.
    pub fn start_creating_timeline(&mut self, timeline_id: TimelineId, probe: CreationProbe) -> (r:
        Result<CreatingTimelineGuard, StartCreatingTimelineError>)
        requires
            old(self).wf(),
        ensures
            final(self).wf(),
            final(self).same_settings(old(self)),
            final(self).state == old(self).state,
            match r {
                Ok(guard) => {
                    &&& guard.id() == timeline_id
                    &&& Self::start_creating_result(*old(self), timeline_id, probe) is None
                    &&& final(self).timelines@.len() == old(self).timelines@.len() + 1
                    &&& final(self).timelines@.drop_last() == old(self).timelines@
                    &&& final(self).timelines@.last().timeline_id == timeline_id
                    &&& final(self).timelines@.last().state == TimelineState::Creating
                    &&& final(self).timelines@.last().creation == CreationPhase::AwaitingMark
                    &&& final(self).timelines@.last().ancestor is None
                },
                Err(e) => {
                    &&& Self::start_creating_result(*old(self), timeline_id, probe) == Some(e)
                    &&& final(self).timelines@ == old(self).timelines@
                },
            },
    {
        if !self.is_active() {
            return Err(StartCreatingTimelineError::Other(CreationFailure::TenantNotActive));
        }
        if probe.uninit_mark_exists {
            return Err(
                StartCreatingTimelineError::AlreadyExists {
                    timeline_id,
                    existing_state: ExistingState::UninitMarkFile,
                },
            );
        }
        if probe.timeline_dir_exists {
            return Err(
                StartCreatingTimelineError::AlreadyExists {
                    timeline_id,
                    existing_state: ExistingState::TimelineDirectory,
                },
            );
        }
        if self.find(timeline_id).is_some() {
            return Err(
                StartCreatingTimelineError::AlreadyExists {
                    timeline_id,
                    existing_state: ExistingState::TimelinesMapEntry,
                },
            );
        }
        let dummy_metadata = TimelineMetadata::new(
            Lsn(0),
            None,
            None,
            Lsn(0),
            Lsn(0),
            Lsn(0),
            DEFAULT_PG_VERSION,
        );
        let placeholder = Timeline::new(
            self.tenant_id,
            timeline_id,
            &dummy_metadata,
            true,
            false,
            self.layer_capacity,
        );
        proof {
            Self::lemma_push_timeline(self.timelines@, placeholder);
        }
        self.timelines.push(placeholder);
        proof {
            let before = old(self).timelines@;
            let after = self.timelines@;
            assert(after.drop_last() =~= before);
            assert forall|i: int| 0 <= i < after.len() implies ((#[trigger] after[i]).state
                == TimelineState::Creating) == (after[i].creation
                != CreationPhase::NotCreating) by {
                if i < before.len() {
                    assert(after[i] == before[i]);
                }
            }
        }
        Ok(CreatingTimelineGuard { timeline_id })
    }

    /// What stands in the way of beginning the creation, if anything.
    pub open spec fn start_creating_result(
        tenant: Tenant,
        timeline_id: TimelineId,
        probe: CreationProbe,
    ) -> Option<StartCreatingTimelineError> {
        if !tenant.state.is_active() {
            Some(StartCreatingTimelineError::Other(CreationFailure::TenantNotActive))
        } else if probe.uninit_mark_exists {
            Some(
                StartCreatingTimelineError::AlreadyExists {
                    timeline_id,
                    existing_state: ExistingState::UninitMarkFile,
                },
            )
        } else if probe.timeline_dir_exists {
            Some(
                StartCreatingTimelineError::AlreadyExists {
                    timeline_id,
                    existing_state: ExistingState::TimelineDirectory,
                },
            )
        } else if !id_absent(tenant.timelines@, timeline_id) {
            Some(
                StartCreatingTimelineError::AlreadyExists {
                    timeline_id,
                    existing_state: ExistingState::TimelinesMapEntry,
                },
            )
        } else {
            None
        }
    }

    /// Goes on with a creation after the second look at the disk and the
    /// attempt to make the uninit mark.
    ///
    /// Where a directory or a mark has turned up meanwhile, or the mark
    /// could not be made, the placeholder is taken out of the map again.
    /// Else the mark is noted as made.
    pub fn uninit_mark_created(
        &mut self,
        guard: &CreatingTimelineGuard,
        recheck: CreationProbe,
        created: bool,
    ) -> (r: Result<(), StartCreatingTimelineError>)
        requires
            old(self).wf(),
        ensures
            final(self).wf(),
            final(self).same_settings(old(self)),
            final(self).state == old(self).state,
            r == Self::uninit_mark_result(*old(self), guard.id(), recheck, created),
            !has_placeholder(old(self).timelines@, guard.id(), CreationPhase::AwaitingMark)
                ==> final(self).timelines@ == old(self).timelines@,
            has_placeholder(old(self).timelines@, guard.id(), CreationPhase::AwaitingMark) ==> {
                &&& r is Err ==> id_absent(final(self).timelines@, guard.id()) && exists|at: int|
                    0 <= at < old(self).timelines@.len()
                        && (#[trigger] old(self).timelines@[at]).timeline_id == guard.id()
                        && final(self).timelines@ == old(self).timelines@.remove(at)
                &&& r is Ok ==> exists|at: int|
                    #![trigger old(self).timelines@[at]]
                    old(self).timelines@[at].timeline_id == guard.id() && phase_set(
                        old(self).timelines@,
                        final(self).timelines@,
                        at,
                        CreationPhase::Marked,
                    )
            },
    {
        let at = match self.placeholder_at(guard.timeline_id, CreationPhase::AwaitingMark) {
            None => {
                return Err(StartCreatingTimelineError::Other(CreationFailure::NoPlaceholder));
            },
            Some(at) => at,
        };
        if recheck.timeline_dir_exists {
            self.remove_placeholder(at);
            return Err(
                StartCreatingTimelineError::AlreadyExists {
                    timeline_id: guard.timeline_id,
                    existing_state: ExistingState::TimelineDirectory,
                },
            );
        }
        if recheck.uninit_mark_exists {
            self.remove_placeholder(at);
            return Err(
                StartCreatingTimelineError::AlreadyExists {
                    timeline_id: guard.timeline_id,
                    existing_state: ExistingState::UninitMarkFile,
                },
            );
        }
        if !created {
            self.remove_placeholder(at);
            return Err(StartCreatingTimelineError::Other(CreationFailure::CreateUninitMark));
        }
        self.set_phase(at, CreationPhase::Marked);
        Ok(())
    }

    /// What `uninit_mark_created` answers.
    pub open spec fn uninit_mark_result(
        tenant: Tenant,
        timeline_id: TimelineId,
        recheck: CreationProbe,
        created: bool,
    ) -> Result<(), StartCreatingTimelineError> {
        if !has_placeholder(tenant.timelines@, timeline_id, CreationPhase::AwaitingMark) {
            Err(StartCreatingTimelineError::Other(CreationFailure::NoPlaceholder))
        } else if recheck.timeline_dir_exists {
            Err(
                StartCreatingTimelineError::AlreadyExists {
                    timeline_id,
                    existing_state: ExistingState::TimelineDirectory,
                },
            )
        } else if recheck.uninit_mark_exists {
            Err(
                StartCreatingTimelineError::AlreadyExists {
                    timeline_id,
                    existing_state: ExistingState::UninitMarkFile,
                },
            )
        } else if !created {
            Err(StartCreatingTimelineError::Other(CreationFailure::CreateUninitMark))
        } else {
            Ok(())
        }
    }

    /// Puts the real timeline in the place that its placeholder held, once
    /// the uninit mark is gone. The timeline takes the last place in the map.
    /// A timeline that is refused is handed back, and nothing changes.
    pub fn replace_placeholder(&mut self, timeline_id: TimelineId, loaded: Timeline) -> (r: Result<
        (),
        (Timeline, ReplacePlaceholderError),
    >)
        requires
            old(self).wf(),
            loaded.wf(),
        ensures
            final(self).wf(),
            final(self).same_settings(old(self)),
            final(self).state == old(self).state,
            match r {
                Ok(()) => {
                    &&& Self::replace_refusal(*old(self), timeline_id, loaded) is None
                    &&& exists|at: int|
                        0 <= at < old(self).timelines@.len()
                            && (#[trigger] old(self).timelines@[at]).timeline_id == timeline_id
                            && final(self).timelines@
                            == old(self).timelines@.remove(at).push(loaded)
                },
                Err((t, e)) => {
                    &&& t == loaded
                    &&& Self::replace_refusal(*old(self), timeline_id, loaded) == Some(e)
                    &&& final(self).timelines@ == old(self).timelines@
                },
            },
    {
        let at = match self.placeholder_at(timeline_id, CreationPhase::Unmarked) {
            None => {
                return Err((loaded, ReplacePlaceholderError::NoPlaceholder));
            },
            Some(at) => at,
        };
        let is_real = match (loaded.creation, loaded.state) {
            (CreationPhase::NotCreating, TimelineState::Creating) => false,
            (CreationPhase::NotCreating, _) => true,
            _ => false,
        };
        if loaded.timeline_id.0 != timeline_id.0 || !is_real {
            return Err((loaded, ReplacePlaceholderError::NotTheTimeline));
        }
        match loaded.ancestor {
            Some((a, _)) => {
                let found = match self.find(a) {
                    Some(k) => match self.timelines[k].creation {
                        CreationPhase::NotCreating => true,
                        _ => false,
                    },
                    None => false,
                };
                if !found {
                    proof {
                        Self::lemma_no_real_timeline(self.timelines@, a);
                    }
                    return Err((loaded, ReplacePlaceholderError::AncestorMissing(a)));
                }
            },
            None => {},
        }
        let ghost before = self.timelines@;
        self.remove_placeholder(at);
        let ghost mid = self.timelines@;
        proof {
            if loaded.ancestor is Some {
                let a = loaded.ancestor.unwrap().0;
                let k = choose|k: int|
                    0 <= k < before.len() && (#[trigger] before[k]).timeline_id == a
                        && before[k].creation == CreationPhase::NotCreating;
                assert(k != at);
                let k1 = if k < at {
                    k
                } else {
                    k - 1
                };
                assert(mid[k1] == before[k]);
                assert(stands_before(mid, a, mid.len() as int));
            }
            Self::lemma_push_timeline(mid, loaded);
        }
        self.timelines.push(loaded);
        proof {
            let after = self.timelines@;
            if !(self.state is Stopping || self.state is Broken) {
                assert forall|i: int| 0 <= i < after.len() implies ((#[trigger] after[i]).state
                    == TimelineState::Creating) == (after[i].creation
                    != CreationPhase::NotCreating) by {
                    if i < mid.len() {
                        assert(after[i] == mid[i]);
                    }
                }
            }
            if self.state.is_starting() {
                assert(before[at as int].creation == CreationPhase::NotCreating);
            }
        }
        Ok(())
    }

    /// Why the placeholder cannot give way to `loaded`, if it cannot.
    pub open spec fn replace_refusal(tenant: Tenant, timeline_id: TimelineId, loaded: Timeline)
        -> Option<
        ReplacePlaceholderError,
    > {
        if !has_placeholder(tenant.timelines@, timeline_id, CreationPhase::Unmarked) {
            Some(ReplacePlaceholderError::NoPlaceholder)
        } else if loaded.timeline_id != timeline_id || loaded.creation != CreationPhase::NotCreating
            || loaded.state == TimelineState::Creating {
            Some(ReplacePlaceholderError::NotTheTimeline)
        } else {
            match loaded.ancestor {
                Some((a, _)) => if Self::has_real_timeline(tenant.timelines@, a) {
                    None
                } else {
                    Some(ReplacePlaceholderError::AncestorMissing(a))
                },
                None => None,
            }
        }
    }

    /// The timeline with id `a` is in the map, and is no placeholder.
    pub open spec fn has_real_timeline(ts: Seq<Timeline>, a: TimelineId) -> bool {
        exists|k: int|
            0 <= k < ts.len() && (#[trigger] ts[k]).timeline_id == a && ts[k].creation
                == CreationPhase::NotCreating
    }

    proof fn lemma_no_real_timeline(ts: Seq<Timeline>, a: TimelineId)
        requires
            crate::tenant::ids_unique(ts),
            id_absent(ts, a) || exists|k: int|
                0 <= k < ts.len() && (#[trigger] ts[k]).timeline_id == a && ts[k].creation
                    != CreationPhase::NotCreating,
        ensures
            !Self::has_real_timeline(ts, a),
    {
        if !id_absent(ts, a) {
            let k = choose|k: int|
                0 <= k < ts.len() && (#[trigger] ts[k]).timeline_id == a && ts[k].creation
                    != CreationPhase::NotCreating;
            assert forall|j: int|
                0 <= j < ts.len() && (#[trigger] ts[j]).timeline_id == a implies j == k by {
                if j < k {
                    assert(ts[j].timeline_id != ts[k].timeline_id);
                } else if j > k {
                    assert(ts[k].timeline_id != ts[j].timeline_id);
                }
            }
        }
    }
}

} // verus!
