//! Reading a page: collecting what its reconstruction needs from a timeline
//! and, where that is not enough, from the timelines it branches off.

use crate::id::TimelineId;
use crate::lsn::Key;
use crate::lsn::Lsn;
use crate::storage_layer::ValueReconstructResult;
use crate::storage_layer::ValueReconstructState;
use crate::tenant::Tenant;
use crate::timeline::collect;
use crate::timeline::state_view;
use crate::timeline::Collected;
use crate::timeline::CreationPhase;
use crate::timeline::Timeline;
use crate::timeline::TimelineState;
use vstd::prelude::*;

verus! {

/// Why the data for a page could not be collected.
#[derive(Clone, Copy, Debug, PartialEq, Eq, Structural)]
pub enum PageReconstructError {
    /// The tenant does not have the timeline.
    TimelineNotFound(TimelineId),
    /// The timeline, or one it branches off that had to be read, is not
    /// active.
    NotActive { timeline_id: TimelineId, state: TimelineState },
}

/// A page as far as it can be had without replaying WAL.
#[derive(Debug)]
pub enum PageVersion {
    /// The page itself: the newest version is an image.
    Image(Vec<u8>),
    /// The WAL records that have to be replayed, newest first, on the image
    /// if there is one.
    NeedsRedo(ValueReconstructState),
    /// The history of the key ends before an image or an initialising record
    /// was reached.
    Missing(ValueReconstructState),
}

/// What a walk through the timelines came to.
pub struct Walked {
    pub data: Collected,
    pub outcome: Result<ValueReconstructResult, PageReconstructError>,
}

/// The place of the timeline off which the timeline at `i` branches.
pub open spec fn ancestor_place(ts: Seq<Timeline>, i: int) -> int {
    choose|k: int|
        0 <= k < i && k < ts.len() && (#[trigger] ts[k]).timeline_id == ts[i].ancestor.unwrap().0
            && ts[k].creation == CreationPhase::NotCreating
}

/// The smaller of two LSNs.
pub open spec fn min_lsn(a: Lsn, b: Lsn) -> Lsn {
    if a.0 < b.0 {
        a
    } else {
        b
    }
}

/// Collects what the page of `key` at `lsn` needs, beginning in the timeline
/// at `i` with `acc` in hand. Each timeline is read up to its last record at
/// most, and has to be active. Where a timeline does not complete the
/// collection, the walk goes on in the timeline it branches off, at the
/// branch point or at `lsn` if that lies before it; without such a timeline
/// the data is missing.
pub open spec fn walk(ts: Seq<Timeline>, i: int, key: Key, lsn: Lsn, acc: Collected) -> Walked
    decreases i,
{
    if i < 0 || i >= ts.len() {
        Walked { data: acc, outcome: Ok(ValueReconstructResult::Missing) }
    } else if ts[i].state != TimelineState::Active {
        Walked {
            data: acc,
            outcome: Err(
                PageReconstructError::NotActive {
                    timeline_id: ts[i].timeline_id,
                    state: ts[i].state,
                },
            ),
        }
    } else {
        let got = collect(
            ts[i].layers.read_records(key, min_lsn(lsn, ts[i].last_record_lsn)),
            acc,
        );
        if got.complete {
            Walked { data: got, outcome: Ok(ValueReconstructResult::Complete) }
        } else {
            match ts[i].ancestor {
                None => Walked { data: got, outcome: Ok(ValueReconstructResult::Missing) },
                Some((_, branch_lsn)) => {
                    let k = ancestor_place(ts, i);
                    if 0 <= k < i {
                        walk(ts, k, key, min_lsn(lsn, branch_lsn), got)
                    } else {
                        Walked { data: got, outcome: Ok(ValueReconstructResult::Missing) }
                    }
                },
            }
        }
    }
}

impl Tenant {
    /// Adds to `state` what the page of `key` at `lsn` on the timeline
    /// `timeline_id` needs, walking back through the timelines that the
    /// timeline branches off as far as necessary. The answer is `Complete`
    /// or `Missing`, never `Continue`.
    pub fn get_value_reconstruct_data(
        &self,
        timeline_id: TimelineId,
        key: Key,
        lsn: Lsn,
        state: &mut ValueReconstructState,
    ) -> (r: Result<ValueReconstructResult, PageReconstructError>)
        requires
            self.wf(),
        ensures
            !Self::has_timeline(self.timelines@, timeline_id) ==> r == Err::<
                ValueReconstructResult,
                PageReconstructError,
            >(PageReconstructError::TimelineNotFound(timeline_id)) && *final(state) == *old(state),
            Self::has_timeline(self.timelines@, timeline_id) ==> exists|i: int|
                #![trigger self.timelines@[i]]
                {
                    &&& 0 <= i < self.timelines@.len()
                    &&& self.timelines@[i].timeline_id == timeline_id
                    &&& r == walk(
                        self.timelines@,
                        i,
                        key,
                        lsn,
                        state_view(*old(state), false),
                    ).outcome
                    &&& state_view(
                        *final(state),
                        r == Ok::<ValueReconstructResult, PageReconstructError>(
                            ValueReconstructResult::Complete,
                        ),
                    ) == walk(self.timelines@, i, key, lsn, state_view(*old(state), false)).data
                },
    {
        let start = match self.find(timeline_id) {
            None => {
                return Err(PageReconstructError::TimelineNotFound(timeline_id));
            },
            Some(at) => at,
        };
        proof {
            Self::lemma_found(self.timelines@, timeline_id, start as int);
        }
        let ghost ts = self.timelines@;
        let ghost acc0 = state_view(*state, false);
        let mut i: usize = start;
        let mut at_lsn: Lsn = lsn;
        loop
            invariant
                ts == self.timelines@,
                self.wf(),
                0 <= i < ts.len(),
                0 <= start < ts.len(),
                ts[start as int].timeline_id == timeline_id,
                Self::has_timeline(ts, timeline_id),
                acc0 == state_view(*old(state), false),
                walk(ts, start as int, key, lsn, acc0) == walk(
                    ts,
                    i as int,
                    key,
                    at_lsn,
                    state_view(*state, false),
                ),
            decreases i,
        {
            let t = &self.timelines[i];
            let ghost before = state_view(*state, false);
            if !t.is_active() {
                proof {
                    let w = walk(ts, i as int, key, at_lsn, before);
                    assert(w.data == before);
                    assert(self.timelines@[start as int].timeline_id == timeline_id);
                }
                return Err(
                    PageReconstructError::NotActive { timeline_id: t.timeline_id, state: t.state },
                );
            }
            let effective = if at_lsn.0 < t.last_record_lsn.0 {
                at_lsn
            } else {
                t.last_record_lsn
            };
            assert(ts[i as int].wf());
            match t.get_value_reconstruct_data(key, effective, state) {
                ValueReconstructResult::Complete => {
                    proof {
                        let w = walk(ts, i as int, key, at_lsn, before);
                        assert(w.data == state_view(*state, true));
                        assert(self.timelines@[start as int].timeline_id == timeline_id);
                    }
                    return Ok(ValueReconstructResult::Complete);
                },
                _ => {},
            }
            match t.ancestor {
                None => {
                    proof {
                        let w = walk(ts, i as int, key, at_lsn, before);
                        assert(w.data == state_view(*state, false));
                        assert(self.timelines@[start as int].timeline_id == timeline_id);
                    }
                    return Ok(ValueReconstructResult::Missing);
                },
                Some((a, branch_lsn)) => {
                    proof {
                        assert(crate::tenant::stands_before(ts, a, i as int));
                    }
                    let k = match self.find(a) {
                        Some(k) => k,
                        None => {
                            proof {
                                let w = ancestor_place(ts, i as int);
                                assert(ts[w].timeline_id == a);
                                assert(false);
                            }
                            return Ok(ValueReconstructResult::Missing);
                        },
                    };
                    proof {
                        let w = ancestor_place(ts, i as int);
                        assert(ts[w].timeline_id == a);
                        if w < k {
                            assert(ts[w].timeline_id != ts[k as int].timeline_id);
                        } else if k < w {
                            assert(ts[k as int].timeline_id != ts[w].timeline_id);
                        }
                        assert(w == k);
                    }
                    i = k;
                    at_lsn = if at_lsn.0 < branch_lsn.0 {
                        at_lsn
                    } else {
                        branch_lsn
                    };
                },
            }
        }
    }

    /// The page of `key` at `lsn` on the timeline `timeline_id`, as far as
    /// it can be had without replaying WAL: the image itself where the
    /// newest version of the page is an image.
    pub fn get(&self, timeline_id: TimelineId, key: Key, lsn: Lsn) -> (r: Result<
        PageVersion,
        PageReconstructError,
    >)
        requires
            self.wf(),
        ensures
            !Self::has_timeline(self.timelines@, timeline_id) ==> r == Err::<
                PageVersion,
                PageReconstructError,
            >(PageReconstructError::TimelineNotFound(timeline_id)),
            Self::has_timeline(self.timelines@, timeline_id) ==> exists|i: int|
                #![trigger self.timelines@[i]]
                {
                    &&& 0 <= i < self.timelines@.len()
                    &&& self.timelines@[i].timeline_id == timeline_id
                    &&& Self::is_page_version(
                        walk(self.timelines@, i, key, lsn, Self::nothing_collected()),
                        r,
                    )
                },
    {
        let mut state = ValueReconstructState { records: Vec::new(), img: None };
        proof {
            assert(state_view(state, false).wal =~= Seq::<(Lsn, Seq<u8>)>::empty());
        }
        match self.get_value_reconstruct_data(timeline_id, key, lsn, &mut state) {
            Err(e) => Err(e),
            Ok(ValueReconstructResult::Complete) => {
                if state.records.len() == 0 {
                    match state.img {
                        Some((_, img)) => Ok(PageVersion::Image(img)),
                        None => Ok(
                            PageVersion::NeedsRedo(
                                ValueReconstructState { records: state.records, img: None },
                            ),
                        ),
                    }
                } else {
                    Ok(PageVersion::NeedsRedo(state))
                }
            },
            Ok(_) => Ok(PageVersion::Missing(state)),
        }
    }

    /// Nothing has been collected yet.
    pub open spec fn nothing_collected() -> Collected {
        Collected { wal: Seq::empty(), img: None, complete: false }
    }

    /// `r` is what `get` makes of the walk `w`.
    pub open spec fn is_page_version(w: Walked, r: Result<PageVersion, PageReconstructError>)
        -> bool {
        match w.outcome {
            Err(e) => r == Err::<PageVersion, PageReconstructError>(e),
            Ok(ValueReconstructResult::Complete) => if w.data.wal.len() == 0 && w.data.img is Some {
                r matches Ok(PageVersion::Image(img)) && img@ == w.data.img.unwrap().1
            } else {
                r matches Ok(PageVersion::NeedsRedo(state)) && state_view(state, true) == w.data
            },
            Ok(_) => r matches Ok(PageVersion::Missing(state)) && state_view(state, false)
                == w.data,
        }
    }
}

} // verus!
