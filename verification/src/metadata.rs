//! The durable description of a timeline, and the rule that reconciles the
//! local copy with the remote one.

use crate::id::TimelineId;
use crate::lsn::Lsn;
use vstd::prelude::*;

verus! {

/// What is stored about a timeline besides its layers.
#[derive(Clone, Copy, Debug, PartialEq, Eq, Structural)]
pub struct TimelineMetadata {
    pub disk_consistent_lsn: Lsn,
    pub prev_record_lsn: Option<Lsn>,
    pub ancestor_timeline: Option<TimelineId>,
    pub ancestor_lsn: Lsn,
    pub latest_gc_cutoff_lsn: Lsn,
    pub initdb_lsn: Lsn,
    pub pg_version: u32,
}

impl TimelineMetadata {
    pub fn new(
        disk_consistent_lsn: Lsn,
        prev_record_lsn: Option<Lsn>,
        ancestor_timeline: Option<TimelineId>,
        ancestor_lsn: Lsn,
        latest_gc_cutoff_lsn: Lsn,
        initdb_lsn: Lsn,
        pg_version: u32,
    ) -> (m: TimelineMetadata)
        ensures
            m == (TimelineMetadata {
                disk_consistent_lsn,
                prev_record_lsn,
                ancestor_timeline,
                ancestor_lsn,
                latest_gc_cutoff_lsn,
                initdb_lsn,
                pg_version,
            }),
    {
        TimelineMetadata {
            disk_consistent_lsn,
            prev_record_lsn,
            ancestor_timeline,
            ancestor_lsn,
            latest_gc_cutoff_lsn,
            initdb_lsn,
            pg_version,
        }
    }

    pub fn disk_consistent_lsn(&self) -> (r: Lsn)
        ensures
            r == self.disk_consistent_lsn,
    {
        self.disk_consistent_lsn
    }

    pub fn prev_record_lsn(&self) -> (r: Option<Lsn>)
        ensures
            r == self.prev_record_lsn,
    {
        self.prev_record_lsn
    }

    pub fn ancestor_timeline(&self) -> (r: Option<TimelineId>)
        ensures
            r == self.ancestor_timeline,
    {
        self.ancestor_timeline
    }

    pub fn ancestor_lsn(&self) -> (r: Lsn)
        ensures
            r == self.ancestor_lsn,
    {
        self.ancestor_lsn
    }

    pub fn latest_gc_cutoff_lsn(&self) -> (r: Lsn)
        ensures
            r == self.latest_gc_cutoff_lsn,
    {
        self.latest_gc_cutoff_lsn
    }

    pub fn initdb_lsn(&self) -> (r: Lsn)
        ensures
            r == self.initdb_lsn,
    {
        self.initdb_lsn
    }

    pub fn pg_version(&self) -> (r: u32)
        ensures
            r == self.pg_version,
    {
        self.pg_version
    }

    /// `self` is at least as far as `other` in what is on disk and in what
    /// has been collected.
    pub open spec fn dominates(&self, other: &TimelineMetadata) -> bool {
        self.disk_consistent_lsn.0 >= other.disk_consistent_lsn.0
            && self.latest_gc_cutoff_lsn.0 >= other.latest_gc_cutoff_lsn.0
    }
}

/// Why no authoritative metadata could be chosen.
#[derive(Clone, Copy, Debug, PartialEq, Eq, Structural)]
pub enum MergeMetadataError {
    /// Neither a local nor a remote copy was given.
    NeitherPresent,
    /// The remote copy is ahead of the local one in the disk-consistent LSN
    /// or in the GC cutoff: something else has written to the remote.
    RemoteAheadOfLocal,
}

/// The authoritative metadata and whether it is the local copy.
pub open spec fn merge_spec(
    local: Option<TimelineMetadata>,
    remote: Option<TimelineMetadata>,
) -> Result<(TimelineMetadata, bool), MergeMetadataError> {
    match (local, remote) {
        (None, None) => Err(MergeMetadataError::NeitherPresent),
        (Some(l), None) => Ok((l, true)),
        (None, Some(r)) => Ok((r, false)),
        (Some(l), Some(r)) => if l.dominates(&r) {
            Ok((l, true))
        } else {
            Err(MergeMetadataError::RemoteAheadOfLocal)
        },
    }
}

/// The view of an optional borrowed metadata as an optional value.
pub open spec fn deref_opt(m: Option<&TimelineMetadata>) -> Option<TimelineMetadata> {
    match m {
        Some(r) => Some(*r),
        None => None,
    }
}

/// The view of a chosen pair as values.
pub open spec fn deref_choice(
    c: Result<(&TimelineMetadata, bool), MergeMetadataError>,
) -> Result<(TimelineMetadata, bool), MergeMetadataError> {
    match c {
        Ok((m, is_local)) => Ok((*m, is_local)),
        Err(e) => Err(e),
    }
}

/// Chooses between the local and the remote metadata of a timeline.
///
/// The local copy is always written first, so it must be level with or ahead
/// of the remote one in both the disk-consistent LSN and the GC cutoff; it is
/// then the one chosen. A remote copy that is ahead in either is a conflict.
/// With only one copy present, that copy is chosen.
pub fn merge_local_remote_metadata<'a>(
    local: Option<&'a TimelineMetadata>,
    remote: Option<&'a TimelineMetadata>,
) -> (r: Result<(&'a TimelineMetadata, bool), MergeMetadataError>)
    ensures
        deref_choice(r) == merge_spec(deref_opt(local), deref_opt(remote)),
{
    match (local, remote) {
        (None, None) => Err(MergeMetadataError::NeitherPresent),
        (Some(l), None) => Ok((l, true)),
        (None, Some(r)) => Ok((r, false)),
        (Some(l), Some(r)) => {
            let consistent_behind = l.disk_consistent_lsn.0 < r.disk_consistent_lsn.0;
            let cutoff_behind = l.latest_gc_cutoff_lsn.0 < r.latest_gc_cutoff_lsn.0;
            if consistent_behind || cutoff_behind {
                Err(MergeMetadataError::RemoteAheadOfLocal)
            } else {
                Ok((l, true))
            }
        },
    }
}

/// The chosen metadata is never behind the discarded one, neither in the
/// disk-consistent LSN nor in the GC cutoff.
pub proof fn lemma_merge_never_picks_the_one_behind(
    local: TimelineMetadata,
    remote: TimelineMetadata,
)
    ensures
        match merge_spec(Some(local), Some(remote)) {
            Ok((chosen, is_local)) => {
                let discarded = if is_local {
                    remote
                } else {
                    local
                };
                &&& chosen == (if is_local {
                    local
                } else {
                    remote
                })
                &&& chosen.disk_consistent_lsn.0 >= discarded.disk_consistent_lsn.0
                &&& chosen.latest_gc_cutoff_lsn.0 >= discarded.latest_gc_cutoff_lsn.0
            },
            Err(_) => true,
        },
{
}

/// The merge never changes who the ancestor is: the chosen metadata is one of
/// the two that were given.
pub proof fn lemma_merge_returns_an_input(
    local: Option<TimelineMetadata>,
    remote: Option<TimelineMetadata>,
)
    ensures
        match merge_spec(local, remote) {
            Ok((chosen, is_local)) => if is_local {
                local == Some(chosen)
            } else {
                remote == Some(chosen)
            },
            Err(_) => true,
        },
{
}

} // verus!
