//! Branching a timeline off another: where a branch may begin, and what the
//! new timeline starts with.

use crate::creation::empty_timeline_metadata;
use crate::creation::empty_timeline_metadata_spec;
use crate::id::TimelineId;
use crate::lsn::Lsn;
use crate::metadata::TimelineMetadata;
use crate::tenant::Tenant;
use crate::timeline::LsnOutOfScope;
use crate::timeline::Timeline;
use vstd::prelude::*;

verus! {

/// Why a timeline cannot be branched off another.
#[derive(Clone, Copy, Debug, PartialEq, Eq, Structural)]
pub enum BranchError {
    /// The tenant does not have the timeline to branch off.
    SourceNotFound(TimelineId),
    /// The branch would begin before the cutoff of the last garbage
    /// collection: the data needed may be gone.
    BelowLatestGcCutoff(LsnOutOfScope),
    /// The branch would begin before the cutoff that the next garbage
    /// collection is planned with.
    BelowPlannedGcCutoff { start_lsn: Lsn, cutoff: Lsn },
}

/// Why a timeline cannot be created.
#[derive(Clone, Copy, Debug, PartialEq, Eq, Structural)]
pub enum CreateTimelineError {
    /// The tenant is not active.
    TenantNotActive,
    /// The tenant does not have the timeline to branch off.
    AncestorNotFound(TimelineId),
    /// The start LSN is too close to the end of all LSNs to be aligned.
    StartLsnOutOfRange(Lsn),
    /// The start LSN lies before the point where the ancestor itself begins.
    StartLsnBeforeAncestorLsn { start_lsn: Lsn, ancestor_timeline_id: TimelineId,
        ancestor_lsn: Lsn },
}

/// How a new timeline comes to its first data.
#[derive(Clone, Copy, Debug, PartialEq, Eq, Structural)]
pub enum CreatePlan {
    /// From a fresh database cluster.
    Bootstrap,
    /// By branching. With a start LSN, the ancestor has to have ingested it
    /// before the branch is made.
    Branch { ancestor_timeline_id: TimelineId, start_lsn: Option<Lsn> },
}

/// `x` rounded up to a multiple of eight.
pub open spec fn align_spec(x: u64) -> int {
    ((x + 7) / 8) * 8
}

impl Lsn {
    /// The LSN rounded up to a multiple of eight.
    pub fn align(&self) -> (r: Lsn)
        requires
            self.0 <= u64::MAX - 7,
        ensures
            r.0 == align_spec(self.0),
            self.0 <= r.0 < self.0 + 8,
            r.0 % 8 == 0,
    {
        Lsn((self.0 + 7) / 8 * 8)
    }
}

/// The smaller of the two cutoffs that the next garbage collection is
/// planned with.
pub open spec fn planned_cutoff(src: Timeline) -> Lsn {
    if src.gc_info.pitr_cutoff.0 < src.gc_info.horizon_cutoff.0 {
        src.gc_info.pitr_cutoff
    } else {
        src.gc_info.horizon_cutoff
    }
}

/// What a branch off `src` at `start_lsn` starts with; at the last record of
/// `src` where no start is given. The branch may not begin before the cutoff
/// of the last garbage collection nor before the planned one. The new
/// timeline knows the LSN before its first only if it begins at the last
/// record of `src`.
pub open spec fn branch_spec(src: Timeline, start_lsn: Option<Lsn>) -> Result<
    TimelineMetadata,
    BranchError,
> {
    let start = match start_lsn {
        Some(l) => l,
        None => src.last_record_lsn,
    };
    if start.0 < src.latest_gc_cutoff_lsn.0 {
        Err(
            BranchError::BelowLatestGcCutoff(
                LsnOutOfScope { lsn: start, latest_gc_cutoff_lsn: src.latest_gc_cutoff_lsn },
            ),
        )
    } else if start.0 < planned_cutoff(src).0 {
        Err(BranchError::BelowPlannedGcCutoff { start_lsn: start, cutoff: planned_cutoff(src) })
    } else {
        Ok(
            TimelineMetadata {
                disk_consistent_lsn: start,
                prev_record_lsn: if src.last_record_lsn == start {
                    Some(src.prev_record_lsn)
                } else {
                    None
                },
                ancestor_timeline: Some(src.timeline_id),
                ancestor_lsn: start,
                latest_gc_cutoff_lsn: src.latest_gc_cutoff_lsn,
                initdb_lsn: src.initdb_lsn,
                pg_version: src.pg_version,
            },
        )
    }
}

/// A branch at the cutoff of the last garbage collection is in order, unless
/// the planned cutoff lies beyond it; one just before that cutoff is not.
pub proof fn lemma_branch_at_gc_cutoff(src: Timeline)
    ensures
        planned_cutoff(src).0 <= src.latest_gc_cutoff_lsn.0 ==> branch_spec(
            src,
            Some(src.latest_gc_cutoff_lsn),
        ) is Ok,
        src.latest_gc_cutoff_lsn.0 > 0 ==> branch_spec(
            src,
            Some(Lsn((src.latest_gc_cutoff_lsn.0 - 1) as u64)),
        ) is Err,
{
}

impl Tenant {
    /// Decides how the timeline asked for is to be created.
    ///
    /// Only an active tenant creates timelines. A timeline with an ancestor
    /// is branched off it; the ancestor has to be in the map, and a start
    /// LSN, which is rounded up to a multiple of eight, may not lie before
    /// the point where the ancestor itself begins.
    pub fn prepare_create_timeline(
        &self,
        ancestor_timeline_id: Option<TimelineId>,
        ancestor_start_lsn: Option<Lsn>,
    ) -> (r: Result<CreatePlan, CreateTimelineError>)
        requires
            self.wf(),
        ensures
            r == Self::create_plan(*self, ancestor_timeline_id, ancestor_start_lsn),
    {
        if !self.is_active() {
            return Err(CreateTimelineError::TenantNotActive);
        }
        let ancestor_id = match ancestor_timeline_id {
            None => {
                return Ok(CreatePlan::Bootstrap);
            },
            Some(a) => a,
        };
        let at = match self.find(ancestor_id) {
            None => {
                return Err(CreateTimelineError::AncestorNotFound(ancestor_id));
            },
            Some(at) => at,
        };
        proof {
            Self::lemma_found(self.timelines@, ancestor_id, at as int);
        }
        let ancestor = &self.timelines[at];
        match ancestor_start_lsn {
            None => Ok(CreatePlan::Branch { ancestor_timeline_id: ancestor_id, start_lsn: None }),
            Some(lsn) => {
                if lsn.0 > u64::MAX - 7 {
                    return Err(CreateTimelineError::StartLsnOutOfRange(lsn));
                }
                let lsn = lsn.align();
                let ancestor_lsn = ancestor.get_ancestor_lsn();
                if ancestor_lsn.0 > lsn.0 {
                    return Err(
                        CreateTimelineError::StartLsnBeforeAncestorLsn {
                            start_lsn: lsn,
                            ancestor_timeline_id: ancestor_id,
                            ancestor_lsn,
                        },
                    );
                }
                Ok(CreatePlan::Branch { ancestor_timeline_id: ancestor_id, start_lsn: Some(lsn) })
            },
        }
    }

    /// The timeline with id `id`; arbitrary where the tenant has none.
    pub open spec fn timeline(ts: Seq<Timeline>, id: TimelineId) -> Timeline {
        ts[choose|i: int| 0 <= i < ts.len() && (#[trigger] ts[i]).timeline_id == id]
    }

    /// The tenant has a timeline with id `id`.
    pub open spec fn has_timeline(ts: Seq<Timeline>, id: TimelineId) -> bool {
        exists|i: int| 0 <= i < ts.len() && (#[trigger] ts[i]).timeline_id == id
    }

    /// The timeline found at `at` is the timeline with that id.
    pub proof fn lemma_found(ts: Seq<Timeline>, id: TimelineId, at: int)
        requires
            0 <= at < ts.len(),
            ts[at].timeline_id == id,
        ensures
            Self::has_timeline(ts, id),
            Self::timeline(ts, id).timeline_id == id,
            crate::tenant::ids_unique(ts) ==> Self::timeline(ts, id) == ts[at],
    {
        let k = choose|i: int| 0 <= i < ts.len() && (#[trigger] ts[i]).timeline_id == id;
        if crate::tenant::ids_unique(ts) {
            if k < at {
                assert(ts[k].timeline_id != ts[at].timeline_id);
            } else if at < k {
                assert(ts[at].timeline_id != ts[k].timeline_id);
            }
        }
    }

    /// What `prepare_create_timeline` answers.
    pub open spec fn create_plan(
        tenant: Tenant,
        ancestor_timeline_id: Option<TimelineId>,
        ancestor_start_lsn: Option<Lsn>,
    ) -> Result<CreatePlan, CreateTimelineError> {
        if !tenant.state.is_active() {
            Err(CreateTimelineError::TenantNotActive)
        } else {
            match ancestor_timeline_id {
                None => Ok(CreatePlan::Bootstrap),
                Some(a) => if !Self::has_timeline(tenant.timelines@, a) {
                    Err(CreateTimelineError::AncestorNotFound(a))
                } else {
                    match ancestor_start_lsn {
                        None => Ok(CreatePlan::Branch { ancestor_timeline_id: a, start_lsn: None }),
                        Some(lsn) => {
                            let ancestor_lsn = match Self::timeline(tenant.timelines@, a).ancestor {
                                Some((_, l)) => l,
                                None => Lsn(0),
                            };
                            if lsn.0 > u64::MAX - 7 {
                                Err(CreateTimelineError::StartLsnOutOfRange(lsn))
                            } else if ancestor_lsn.0 > align_spec(lsn.0) {
                                Err(
                                    CreateTimelineError::StartLsnBeforeAncestorLsn {
                                        start_lsn: Lsn(align_spec(lsn.0) as u64),
                                        ancestor_timeline_id: a,
                                        ancestor_lsn,
                                    },
                                )
                            } else {
                                Ok(
                                    CreatePlan::Branch {
                                        ancestor_timeline_id: a,
                                        start_lsn: Some(Lsn(align_spec(lsn.0) as u64)),
                                    },
                                )
                            }
                        },
                    }
                },
            }
        }
    }

    /// The metadata that a branch off the timeline `src_id` at `start_lsn`
    /// starts with, or why there can be no such branch.
    pub fn branch_timeline(&self, src_id: TimelineId, start_lsn: Option<Lsn>) -> (r: Result<
        TimelineMetadata,
        BranchError,
    >)
        requires
            self.wf(),
        ensures
            r == (if Self::has_timeline(self.timelines@, src_id) {
                branch_spec(Self::timeline(self.timelines@, src_id), start_lsn)
            } else {
                Err::<TimelineMetadata, BranchError>(BranchError::SourceNotFound(src_id))
            }),
    {
        match self.find(src_id) {
            None => Err(BranchError::SourceNotFound(src_id)),
            Some(at) => {
                proof {
                    Self::lemma_found(self.timelines@, src_id, at as int);
                }
                branch_timeline_impl(&self.timelines[at], start_lsn)
            },
        }
    }
}

/// The metadata that a branch off `src_timeline` at `start_lsn` starts
/// with, or why there can be no such branch.
pub fn branch_timeline_impl(src_timeline: &Timeline, start_lsn: Option<Lsn>) -> (r: Result<
    TimelineMetadata,
    BranchError,
>)
    ensures
        r == branch_spec(*src_timeline, start_lsn),
{
    let start_lsn = match start_lsn {
        Some(l) => l,
        None => src_timeline.get_last_record_lsn(),
    };
    let latest_gc_cutoff_lsn = src_timeline.get_latest_gc_cutoff_lsn();
    match src_timeline.check_lsn_is_in_scope(start_lsn, latest_gc_cutoff_lsn) {
        Ok(()) => {},
        Err(e) => {
            return Err(BranchError::BelowLatestGcCutoff(e));
        },
    }
    let cutoff = if src_timeline.gc_info.pitr_cutoff.0 < src_timeline.gc_info.horizon_cutoff.0 {
        src_timeline.gc_info.pitr_cutoff
    } else {
        src_timeline.gc_info.horizon_cutoff
    };
    if start_lsn.0 < cutoff.0 {
        return Err(BranchError::BelowPlannedGcCutoff { start_lsn, cutoff });
    }
    let dst_prev = if src_timeline.last_record_lsn.0 == start_lsn.0 {
        Some(src_timeline.prev_record_lsn)
    } else {
        None
    };
    Ok(
        TimelineMetadata::new(
            start_lsn,
            dst_prev,
            Some(src_timeline.timeline_id),
            start_lsn,
            latest_gc_cutoff_lsn,
            src_timeline.initdb_lsn,
            src_timeline.pg_version,
        ),
    )
}

/// The metadata of a timeline that is made from a fresh database cluster
/// whose first checkpoint is at `pgdata_lsn`: it starts empty at that LSN,
/// rounded up to a multiple of eight.
pub fn bootstrap_metadata(pgdata_lsn: Lsn, pg_version: u32) -> (m: TimelineMetadata)
    requires
        pgdata_lsn.0 <= u64::MAX - 7,
    ensures
        m == empty_timeline_metadata_spec(Lsn(align_spec(pgdata_lsn.0) as u64), pg_version),
{
    empty_timeline_metadata(pgdata_lsn.align(), pg_version)
}

} // verus!
