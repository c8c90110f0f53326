//! Garbage collection over the timelines of a tenant: what each timeline has
//! to keep for the timelines that branch off it, and the collection itself.

use crate::id::TimelineId;
use crate::lsn::Lsn;
use crate::tenant::Tenant;
use crate::timeline::GcResult;
use crate::timeline::Timeline;
use vstd::prelude::*;

verus! {

/// Why garbage was not collected.
#[derive(Clone, Copy, Debug, PartialEq, Eq, Structural)]
pub enum GcError {
    /// The tenant is not active.
    TenantNotActive,
    /// The tenant does not have the timeline to collect.
    TargetNotFound,
}

/// `lsns` are the LSNs at which timelines of `ts` branch off `id`: each
/// once, by rising LSN.
pub open spec fn is_branchpoints(ts: Seq<Timeline>, id: TimelineId, lsns: Seq<Lsn>) -> bool {
    &&& forall|i: int, j: int|
        0 <= i < j < lsns.len() ==> (#[trigger] lsns[i]).0 < (#[trigger] lsns[j]).0
    &&& forall|i: int|
        0 <= i < lsns.len() ==> exists|k: int|
            0 <= k < ts.len() && (#[trigger] ts[k]).ancestor == Some((id, #[trigger] lsns[i]))
    &&& forall|k: int|
        0 <= k < ts.len() ==> match (#[trigger] ts[k]).ancestor {
            Some((a, l)) => a == id ==> lsns.contains(l),
            None => true,
        }
}

/// The timeline is one whose garbage is to be collected: it is the target,
/// or there is no target, and it has more history than `horizon`.
pub open spec fn gc_selected(t: Timeline, target: Option<TimelineId>, horizon: u64) -> bool {
    (target is None || target == Some(t.timeline_id)) && t.last_record_lsn.0 >= horizon
}

/// `after` is `before` with what garbage collection has to keep brought up
/// to date, if the timeline is selected: the branch points, the cutoff that
/// `horizon` gives, and the cutoff in time, which is the same where none is
/// given.
pub open spec fn gc_refreshed(
    ts: Seq<Timeline>,
    before: Timeline,
    after: Timeline,
    target: Option<TimelineId>,
    horizon: u64,
    pitr_cutoff: Option<Lsn>,
) -> bool {
    if gc_selected(before, target, horizon) {
        &&& after.same_but_gc_info(&before)
        &&& is_branchpoints(ts, before.timeline_id, after.gc_info.retain_lsns@)
        &&& after.gc_info.horizon_cutoff.0 == before.last_record_lsn.0 - horizon
        &&& after.gc_info.pitr_cutoff == (match pitr_cutoff {
            Some(l) => l,
            None => after.gc_info.horizon_cutoff,
        })
    } else {
        after == before
    }
}

/// The ids of the selected timelines among `ts`, in their order.
pub open spec fn selected_ids(ts: Seq<Timeline>, target: Option<TimelineId>, horizon: u64) -> Seq<
    TimelineId,
>
    decreases ts.len(),
{
    if ts.len() == 0 {
        Seq::empty()
    } else {
        let rest = selected_ids(ts.drop_last(), target, horizon);
        if gc_selected(ts.last(), target, horizon) {
            rest.push(ts.last().timeline_id)
        } else {
            rest
        }
    }
}

/// `a + b`, or the largest number if that is less.
pub open spec fn sat_add(a: u64, b: u64) -> u64 {
    if a + b > u64::MAX {
        u64::MAX
    } else {
        (a + b) as u64
    }
}

/// The layers that the selected timelines among the first `n` had, and how
/// many of them a collection removed, each count capped at the largest
/// number.
pub open spec fn gc_totals(
    before: Seq<Timeline>,
    after: Seq<Timeline>,
    target: Option<TimelineId>,
    horizon: u64,
    n: int,
) -> GcResult
    decreases n,
{
    if n <= 0 {
        GcResult { layers_total: 0, layers_removed: 0 }
    } else {
        let rest = gc_totals(before, after, target, horizon, n - 1);
        if gc_selected(before[n - 1], target, horizon) {
            GcResult {
                layers_total: sat_add(
                    rest.layers_total,
                    before[n - 1].layers.historic().layers().len() as u64,
                ),
                layers_removed: sat_add(
                    rest.layers_removed,
                    (before[n - 1].layers.historic().layers().len() - after[n
                        - 1].layers.historic().layers().len()) as u64,
                ),
            }
        } else {
            rest
        }
    }
}

/// Adds `l` to the LSNs in `v`, which are kept by rising LSN, unless it is
/// among them.
fn insert_sorted(v: &mut Vec<Lsn>, l: Lsn)
    requires
        forall|i: int, j: int|
            0 <= i < j < old(v)@.len() ==> (#[trigger] old(v)@[i]).0 < (#[trigger] old(v)@[j]).0,
    ensures
        forall|i: int, j: int|
            0 <= i < j < final(v)@.len() ==> (#[trigger] final(v)@[i]).0 < (
            #[trigger] final(v)@[j]).0,
        final(v)@.contains(l),
        forall|x: Lsn| old(v)@.contains(x) ==> final(v)@.contains(x),
        forall|x: Lsn| final(v)@.contains(x) ==> x == l || old(v)@.contains(x),
{
    let mut at: usize = 0;
    while at < v.len() && v[at].0 < l.0
        invariant
            0 <= at <= v@.len(),
            v@ == old(v)@,
            forall|k: int| 0 <= k < at ==> (#[trigger] v@[k]).0 < l.0,
        decreases v@.len() - at,
    {
        at += 1;
    }
    if at < v.len() && v[at].0 == l.0 {
        assert(v@[at as int] == l);
        return ;
    }
    let ghost before = v@;
    v.insert(at, l);
    proof {
        let after = v@;
        assert(after[at as int] == l);
        assert forall|i: int, j: int| 0 <= i < j < after.len() implies (#[trigger] after[i]).0 < (
        #[trigger] after[j]).0 by {
            let i0 = if i < at {
                i
            } else {
                i - 1
            };
            let j0 = if j < at {
                j
            } else {
                j - 1
            };
            if i != at {
                assert(after[i] == before[i0]);
            }
            if j != at {
                assert(after[j] == before[j0]);
            }
            if i == at {
                assert(before[at as int].0 <= before[j0].0);
            }
        }
        assert forall|x: Lsn| before.contains(x) implies after.contains(x) by {
            let k = choose|k: int| 0 <= k < before.len() && before[k] == x;
            if k < at {
                assert(after[k] == x);
            } else {
                assert(after[k + 1] == x);
            }
        }
        assert forall|x: Lsn| after.contains(x) implies x == l || before.contains(x) by {
            let k = choose|k: int| 0 <= k < after.len() && after[k] == x;
            if k < at {
                assert(before[k] == x);
            } else if k > at {
                assert(before[k - 1] == x);
            }
        }
    }
}

impl Tenant {
    /// The LSNs at which timelines branch off `id`: each once, by rising
    /// LSN.
    pub fn branchpoints_of(&self, id: TimelineId) -> (r: Vec<Lsn>)
        ensures
            is_branchpoints(self.timelines@, id, r@),
    {
        let mut out: Vec<Lsn> = Vec::new();
        let mut i: usize = 0;
        while i < self.timelines.len()
            invariant
                0 <= i <= self.timelines@.len(),
                forall|a: int, b: int|
                    0 <= a < b < out@.len() ==> (#[trigger] out@[a]).0 < (#[trigger] out@[b]).0,
                forall|x: Lsn|
                    out@.contains(x) ==> exists|k: int|
                        0 <= k < i && (#[trigger] self.timelines@[k]).ancestor == Some((id, x)),
                forall|k: int|
                    0 <= k < i ==> match (#[trigger] self.timelines@[k]).ancestor {
                        Some((a, l)) => a == id ==> out@.contains(l),
                        None => true,
                    },
            decreases self.timelines@.len() - i,
        {
            match self.timelines[i].ancestor {
                Some((a, l)) => {
                    if a.0 == id.0 {
                        insert_sorted(&mut out, l);
                    }
                },
                None => {},
            }
            i += 1;
        }
        proof {
            assert forall|j: int| 0 <= j < out@.len() implies exists|k: int|
                0 <= k < self.timelines@.len() && (#[trigger] self.timelines@[k]).ancestor == Some(
                    (id, #[trigger] out@[j]),
                ) by {
                assert(out@.contains(out@[j]));
            }
        }
        out
    }

    /// Brings up to date what garbage collection has to keep of the target
    /// timeline, or of all timelines, that have more history than `horizon`,
    /// and returns their ids.
    pub fn refresh_gc_info_internal(
        &mut self,
        target_timeline_id: Option<TimelineId>,
        horizon: u64,
        pitr_cutoff: Option<Lsn>,
    ) -> (r: Result<Vec<TimelineId>, GcError>)
        requires
            old(self).wf(),
        ensures
            final(self).wf(),
            final(self).same_settings(old(self)),
            final(self).state == old(self).state,
            final(self).timelines@.len() == old(self).timelines@.len(),
            match r {
                Err(e) => {
                    &&& e == GcError::TargetNotFound
                    &&& target_timeline_id is Some
                    &&& !Self::has_timeline(old(self).timelines@, target_timeline_id.unwrap())
                    &&& final(self).timelines@ == old(self).timelines@
                },
                Ok(ids) => {
                    &&& target_timeline_id is Some ==> Self::has_timeline(
                        old(self).timelines@,
                        target_timeline_id.unwrap(),
                    )
                    &&& ids@ == selected_ids(old(self).timelines@, target_timeline_id, horizon)
                    &&& forall|i: int|
                        0 <= i < old(self).timelines@.len() ==> gc_refreshed(
                            old(self).timelines@,
                            old(self).timelines@[i],
                            #[trigger] final(self).timelines@[i],
                            target_timeline_id,
                            horizon,
                            pitr_cutoff,
                        )
                },
            },
    {
        match target_timeline_id {
            Some(t) => {
                match self.find(t) {
                    None => {
                        return Err(GcError::TargetNotFound);
                    },
                    Some(at) => {
                        proof {
                            Self::lemma_found(self.timelines@, t, at as int);
                        }
                    },
                }
            },
            None => {},
        }
        let mut gc_timelines: Vec<TimelineId> = Vec::new();
        let mut i: usize = 0;
        proof {
            assert(old(self).timelines@.subrange(0, 0) =~= Seq::<Timeline>::empty());
        }
        while i < self.timelines.len()
            invariant
                0 <= i <= self.timelines@.len(),
                self.timelines@.len() == old(self).timelines@.len(),
                self.same_settings(old(self)),
                self.state == old(self).state,
                old(self).wf(),
                gc_timelines@ == selected_ids(
                    old(self).timelines@.subrange(0, i as int),
                    target_timeline_id,
                    horizon,
                ),
                forall|k: int|
                    i <= k < self.timelines@.len() ==> (#[trigger] self.timelines@[k])
                        == old(self).timelines@[k],
                forall|k: int|
                    0 <= k < i ==> gc_refreshed(
                        old(self).timelines@,
                        old(self).timelines@[k],
                        #[trigger] self.timelines@[k],
                        target_timeline_id,
                        horizon,
                        pitr_cutoff,
                    ),
                forall|k: int|
                    0 <= k < self.timelines@.len() ==> (#[trigger] self.timelines@[k]).ancestor
                        == old(self).timelines@[k].ancestor,
            decreases self.timelines@.len() - i,
        {
            let timeline_id = self.timelines[i].timeline_id;
            let last = self.timelines[i].get_last_record_lsn();
            let wanted = match target_timeline_id {
                Some(t) => t.0 == timeline_id.0,
                None => true,
            };
            proof {
                let next = old(self).timelines@.subrange(0, i + 1);
                assert(next.drop_last() =~= old(self).timelines@.subrange(0, i as int));
                assert(next.last() == old(self).timelines@[i as int]);
            }
            if wanted {
                match last.checked_sub(horizon) {
                    Some(cutoff) => {
                        let branchpoints = self.branchpoints_of(timeline_id);
                        let ghost now = self.timelines@;
                        let pitr = match pitr_cutoff {
                            Some(l) => l,
                            None => cutoff,
                        };
                        proof {
                            assert(is_branchpoints(old(self).timelines@, timeline_id,
                                branchpoints@))
                                by {
                                let lsns = branchpoints@;
                                let ts = old(self).timelines@;
                                assert forall|j: int| 0 <= j < lsns.len() implies exists|k: int|
                                    0 <= k < ts.len() && (#[trigger] ts[k]).ancestor == Some(
                                        (timeline_id, #[trigger] lsns[j]),
                                    ) by {
                                    let k = choose|k: int|
                                        0 <= k < now.len() && (#[trigger] now[k]).ancestor == Some(
                                            (timeline_id, #[trigger] lsns[j]),
                                        );
                                    assert(ts[k].ancestor == now[k].ancestor);
                                }
                                assert forall|k: int| 0 <= k < ts.len() implies match (
                                #[trigger] ts[k]).ancestor {
                                    Some((a, l)) => a == timeline_id ==> lsns.contains(l),
                                    None => true,
                                } by {
                                    assert(ts[k].ancestor == now[k].ancestor);
                                }
                            }
                        }
                        self.timelines[i].update_gc_info(branchpoints, cutoff, pitr);
                        gc_timelines.push(timeline_id);
                    },
                    None => {},
                }
            }
            i += 1;
        }
        proof {
            assert(old(self).timelines@.subrange(0,
                old(self).timelines@.len() as int) =~= old(self).timelines@);
            let before = old(self).timelines@;
            let after = self.timelines@;
            assert forall|k: int| 0 <= k < before.len() implies {
                &&& (#[trigger] after[k]).wf()
                &&& after[k].timeline_id == before[k].timeline_id
                &&& after[k].ancestor == before[k].ancestor
                &&& after[k].creation == before[k].creation
                &&& after[k].state == before[k].state
            } by {
                assert(gc_refreshed(
                    before,
                    before[k],
                    after[k],
                    target_timeline_id,
                    horizon,
                    pitr_cutoff,
                ));
                assert(before[k].wf());
            }
            Self::lemma_timelines_changed(before, after);
            Self::lemma_same_states(*old(self), *self);
        }
        Ok(gc_timelines)
    }

    /// A tenant whose timelines have changed in neither id, ancestor,
    /// creation phase nor state, and are well formed each, is well formed.
    pub proof fn lemma_same_states(before: Tenant, after: Tenant)
        requires
            before.wf(),
            after.state == before.state,
            after.timelines@.len() == before.timelines@.len(),
            forall|k: int|
                0 <= k < before.timelines@.len() ==> {
                    &&& (#[trigger] after.timelines@[k]).wf()
                    &&& after.timelines@[k].timeline_id == before.timelines@[k].timeline_id
                    &&& after.timelines@[k].ancestor == before.timelines@[k].ancestor
                    &&& after.timelines@[k].creation == before.timelines@[k].creation
                    &&& after.timelines@[k].state == before.timelines@[k].state
                },
        ensures
            after.wf(),
    {
        let b = before.timelines@;
        let a = after.timelines@;
        Self::lemma_timelines_changed(b, a);
        if !(after.state is Stopping || after.state is Broken) {
            assert forall|i: int| 0 <= i < a.len() implies ((#[trigger] a[i]).state
                == crate::timeline::TimelineState::Creating) == (a[i].creation
                != crate::timeline::CreationPhase::NotCreating) by {
                assert((b[i].state == crate::timeline::TimelineState::Creating) == (b[i].creation
                    != crate::timeline::CreationPhase::NotCreating));
            }
        }
        if after.state.is_starting() {
            assert forall|i: int| 0 <= i < a.len() implies (#[trigger] a[i]).creation
                == crate::timeline::CreationPhase::NotCreating by {
                assert(b[i].creation == crate::timeline::CreationPhase::NotCreating);
            }
        }
    }

    /// Brings up to date what garbage collection has to keep of all
    /// timelines, with the horizon that the settings of the tenant give.
    pub fn refresh_gc_info(&mut self) -> (r: Result<Vec<TimelineId>, GcError>)
        requires
            old(self).wf(),
        ensures
            final(self).wf(),
            final(self).same_settings(old(self)),
            final(self).state == old(self).state,
            final(self).timelines@.len() == old(self).timelines@.len(),
            r is Ok,
            r.unwrap()@ == selected_ids(
                old(self).timelines@,
                None,
                crate::tenant_conf::or_default(
                    old(self).tenant_conf.gc_horizon,
                    old(self).default_tenant_conf.gc_horizon,
                ),
            ),
            forall|i: int|
                0 <= i < old(self).timelines@.len() ==> gc_refreshed(
                    old(self).timelines@,
                    old(self).timelines@[i],
                    #[trigger] final(self).timelines@[i],
                    None,
                    crate::tenant_conf::or_default(
                        old(self).tenant_conf.gc_horizon,
                        old(self).default_tenant_conf.gc_horizon,
                    ),
                    None,
                ),
    {
        let horizon = self.get_gc_horizon();
        self.refresh_gc_info_internal(None, horizon, None)
    }

    /// Collects the garbage of the target timeline, or of all timelines,
    /// that have more history than `horizon`: what each has to keep is
    /// brought up to date, and then its garbage is collected. Only an active
    /// tenant collects garbage.
    pub fn gc_iteration(
        &mut self,
        target_timeline_id: Option<TimelineId>,
        horizon: u64,
        pitr_cutoff: Option<Lsn>,
    ) -> (r: Result<GcResult, GcError>)
        requires
            old(self).wf(),
        ensures
            final(self).wf(),
            final(self).same_settings(old(self)),
            final(self).state == old(self).state,
            final(self).timelines@.len() == old(self).timelines@.len(),
            match r {
                Err(e) => {
                    &&& final(self).timelines@ == old(self).timelines@
                    &&& e == (if !old(self).state.is_active() {
                        GcError::TenantNotActive
                    } else {
                        GcError::TargetNotFound
                    })
                    &&& old(self).state.is_active() ==> target_timeline_id is Some
                        && !Self::has_timeline(old(self).timelines@, target_timeline_id.unwrap())
                },
                Ok(totals) => {
                    &&& old(self).state.is_active()
                    &&& forall|i: int|
                        0 <= i < old(self).timelines@.len() ==> Self::collected(
                            old(self).timelines@,
                            old(self).timelines@[i],
                            #[trigger] final(self).timelines@[i],
                            target_timeline_id,
                            horizon,
                            pitr_cutoff,
                        )
                    &&& totals == gc_totals(
                        old(self).timelines@,
                        final(self).timelines@,
                        target_timeline_id,
                        horizon,
                        old(self).timelines@.len() as int,
                    )
                },
            },
    {
        if !self.is_active() {
            return Err(GcError::TenantNotActive);
        }
        match self.refresh_gc_info_internal(target_timeline_id, horizon, pitr_cutoff) {
            Err(e) => {
                return Err(e);
            },
            Ok(_) => {},
        }
        let ghost mid = self.timelines@;
        let mut totals = GcResult { layers_total: 0, layers_removed: 0 };
        let mut i: usize = 0;
        while i < self.timelines.len()
            invariant
                0 <= i <= self.timelines@.len(),
                self.timelines@.len() == old(self).timelines@.len(),
                mid.len() == old(self).timelines@.len(),
                self.same_settings(old(self)),
                self.state == old(self).state,
                old(self).wf(),
                forall|k: int|
                    0 <= k < mid.len() ==> (#[trigger] mid[k]).wf() && gc_refreshed(
                        old(self).timelines@,
                        old(self).timelines@[k],
                        mid[k],
                        target_timeline_id,
                        horizon,
                        pitr_cutoff,
                    ),
                forall|k: int|
                    i <= k < self.timelines@.len() ==> (#[trigger] self.timelines@[k]) == mid[k],
                forall|k: int|
                    0 <= k < i ==> Self::collected(
                        old(self).timelines@,
                        old(self).timelines@[k],
                        #[trigger] self.timelines@[k],
                        target_timeline_id,
                        horizon,
                        pitr_cutoff,
                    ) && self.timelines@[k].wf(),
                totals == gc_totals(
                    old(self).timelines@,
                    self.timelines@,
                    target_timeline_id,
                    horizon,
                    i as int,
                ),
            decreases self.timelines@.len() - i,
        {
            let ghost now = self.timelines@;
            let timeline_id = self.timelines[i].timeline_id;
            let wanted = match target_timeline_id {
                Some(t) => t.0 == timeline_id.0,
                None => true,
            };
            proof {
                assert(gc_refreshed(
                    old(self).timelines@,
                    old(self).timelines@[i as int],
                    mid[i as int],
                    target_timeline_id,
                    horizon,
                    pitr_cutoff,
                ));
            }
            if wanted && self.timelines[i].last_record_lsn.0 >= horizon {
                let result = self.timelines[i].gc();
                let total = if totals.layers_total > u64::MAX - result.layers_total {
                    u64::MAX
                } else {
                    totals.layers_total + result.layers_total
                };
                let removed = if totals.layers_removed > u64::MAX - result.layers_removed {
                    u64::MAX
                } else {
                    totals.layers_removed + result.layers_removed
                };
                totals = GcResult { layers_total: total, layers_removed: removed };
            }
            proof {
                Self::lemma_gc_totals_frame(
                    old(self).timelines@,
                    now,
                    self.timelines@,
                    target_timeline_id,
                    horizon,
                    i as int,
                );
            }
            i += 1;
        }
        proof {
            let before = old(self).timelines@;
            let after = self.timelines@;
            assert forall|k: int| 0 <= k < before.len() implies {
                &&& (#[trigger] after[k]).wf()
                &&& after[k].timeline_id == before[k].timeline_id
                &&& after[k].ancestor == before[k].ancestor
                &&& after[k].creation == before[k].creation
                &&& after[k].state == before[k].state
            } by {
                assert(Self::collected(
                    before,
                    before[k],
                    after[k],
                    target_timeline_id,
                    horizon,
                    pitr_cutoff,
                ));
            }
            Self::lemma_same_states(*old(self), *self);
        }
        Ok(totals)
    }

    /// `after` is `before` after a collection: unless the timeline is not
    /// selected, what it has to keep was brought up to date and its garbage
    /// was then collected.
    pub open spec fn collected(
        ts: Seq<Timeline>,
        before: Timeline,
        after: Timeline,
        target: Option<TimelineId>,
        horizon: u64,
        pitr_cutoff: Option<Lsn>,
    ) -> bool {
        if gc_selected(before, target, horizon) {
            exists|mid: Timeline, r: GcResult|
                #![trigger Timeline::gc_done(mid, after, r)]
                gc_refreshed(ts, before, mid, target, horizon, pitr_cutoff) && Timeline::gc_done(
                    mid,
                    after,
                    r,
                )
        } else {
            after == before
        }
    }

    /// The totals of the first `n` timelines do not depend on the timelines
    /// behind them.
    proof fn lemma_gc_totals_frame(
        before: Seq<Timeline>,
        a: Seq<Timeline>,
        b: Seq<Timeline>,
        target: Option<TimelineId>,
        horizon: u64,
        n: int,
    )
        requires
            0 <= n <= a.len(),
            a.len() == b.len(),
            before.len() == a.len(),
            forall|k: int| 0 <= k < n ==> a[k] == b[k],
        ensures
            gc_totals(before, a, target, horizon, n) == gc_totals(before, b, target, horizon, n),
        decreases n,
    {
        if n > 0 {
            Self::lemma_gc_totals_frame(before, a, b, target, horizon, n - 1);
        }
    }
}

} // verus!
