//! A tenant: the owner of a set of timelines, with one state for all of
//! them.

use crate::id::TenantId;
use crate::id::TimelineId;
use crate::tenant_conf::or_default;
use crate::tenant_conf::or_else;
use crate::tenant_conf::TenantConf;
use crate::tenant_conf::TenantConfOpt;
use crate::timeline::CreationPhase;
use crate::timeline::Timeline;
use crate::timeline::TimelineState;
use vstd::prelude::*;

verus! {

/// From which state a tenant is being activated.
#[derive(Clone, Copy, Debug, PartialEq, Eq, Structural)]
pub enum ActivatingFrom {
    Loading,
    Attaching,
}

/// The state of a tenant.
#[derive(Debug)]
pub enum TenantState {
    /// Being loaded from local disk.
    Loading,
    /// Being fetched from remote storage.
    Attaching,
    /// Loaded or attached; being made active.
    Activating(ActivatingFrom),
    Active,
    /// Being shut down.
    Stopping,
    /// Unusable, and why.
    Broken { reason: String },
}

/// Why a tenant could not be set to `Stopping`.
#[derive(Clone, Copy, Debug, PartialEq, Eq, Structural)]
pub enum SetStoppingError {
    AlreadyStopping,
    Broken,
}

/// Why a tenant could not be shut down.
#[derive(Clone, Copy, Debug, PartialEq, Eq, Structural)]
pub enum ShutdownError {
    AlreadyStopping,
}

/// What is to be expected of a tenant that is waited on to become active.
#[derive(Clone, Copy, Debug, PartialEq, Eq, Structural)]
pub enum ActiveOutlook {
    /// The tenant is active.
    Active,
    /// The tenant may still become active: wait for the next change.
    Pending,
    /// The tenant is broken or stopping and will not become active.
    WillNotBecomeActive,
}

/// Why a timeline could not be handed out.
#[derive(Clone, Copy, Debug, PartialEq, Eq, Structural)]
pub enum GetTimelineError {
    /// The tenant has no such timeline.
    NotFound { tenant_id: TenantId, timeline_id: TimelineId },
    /// The timeline is there, but only an active one was asked for.
    NotActive { tenant_id: TenantId, timeline_id: TimelineId, state: TimelineState },
}

/// Why a timeline is being loaded.
#[derive(Clone, Copy, Debug, PartialEq, Eq, Structural)]
pub enum TimelineLoadCause {
    Startup,
    Attach,
    TenantCreate,
    /// The timeline has just been created, in place of `placeholder_timeline`.
    TimelineCreate { placeholder_timeline: TimelineId, expxect_layer_files: bool },
    TenantLoad,
    Test,
}

/// The ancestor that the caller found for a timeline to be loaded.
#[derive(Clone, Copy, Debug, PartialEq, Eq, Structural)]
pub struct AncestorArg(pub Option<TimelineId>);

impl AncestorArg {
    pub fn ancestor(ancestor: TimelineId) -> (a: AncestorArg)
        ensures
            a == AncestorArg(Some(ancestor)),
    {
        AncestorArg(Some(ancestor))
    }

    pub fn no_ancestor() -> (a: AncestorArg)
        ensures
            a == AncestorArg(None),
    {
        AncestorArg(None)
    }
}

/// The owner of a set of timelines.
pub struct Tenant {
    pub tenant_id: TenantId,
    pub state: TenantState,
    /// The timelines, each behind the timeline it branches off.
    pub timelines: Vec<Timeline>,
    pub has_remote_storage: bool,
    /// What the tenant overrides of the settings.
    pub tenant_conf: TenantConfOpt,
    /// The settings where nothing is overridden.
    pub default_tenant_conf: TenantConf,
    pub cached_synthetic_tenant_size: u64,
    /// How many records an in-memory layer of a timeline takes.
    pub layer_capacity: usize,
}

/// No two timelines have the same id.
pub open spec fn ids_unique(ts: Seq<Timeline>) -> bool {
    forall|i: int, j: int|
        0 <= i < j < ts.len() ==> (#[trigger] ts[i]).timeline_id != (#[trigger] ts[j]).timeline_id
}

/// The timeline with id `a` stands before place `i`, and is no placeholder.
pub open spec fn stands_before(ts: Seq<Timeline>, a: TimelineId, i: int) -> bool {
    exists|k: int|
        0 <= k < i && k < ts.len() && (#[trigger] ts[k]).timeline_id == a && ts[k].creation
            == CreationPhase::NotCreating
}

/// Every timeline stands behind the timeline it branches off.
pub open spec fn ancestors_first(ts: Seq<Timeline>) -> bool {
    forall|i: int|
        0 <= i < ts.len() ==> match (#[trigger] ts[i]).ancestor {
            Some((a, _)) => stands_before(ts, a, i),
            None => true,
        }
}

/// Every timeline is well formed.
pub open spec fn all_timelines_wf(ts: Seq<Timeline>) -> bool {
    forall|i: int| 0 <= i < ts.len() ==> (#[trigger] ts[i]).wf()
}

/// A timeline is in `Creating` exactly while its creation is under way.
pub open spec fn placeholders_marked(ts: Seq<Timeline>) -> bool {
    forall|i: int|
        0 <= i < ts.len() ==> ((#[trigger] ts[i]).state == TimelineState::Creating)
            == (ts[i].creation
            != CreationPhase::NotCreating)
}

/// No timeline has the id `id`.
pub open spec fn id_absent(ts: Seq<Timeline>, id: TimelineId) -> bool {
    forall|i: int| 0 <= i < ts.len() ==> (#[trigger] ts[i]).timeline_id != id
}

/// How many of the first `n` timelines are neither broken nor stopping.
pub open spec fn activatable(ts: Seq<Timeline>, n: int) -> int
    decreases n,
{
    if n <= 0 {
        0
    } else if ts[n - 1].state == TimelineState::Broken || ts[n - 1].state
        == TimelineState::Stopping {
        activatable(ts, n - 1)
    } else {
        activatable(ts, n - 1) + 1
    }
}

impl TenantState {
    pub open spec fn is_active(&self) -> bool {
        *self is Active
    }

    /// Loading, attaching or activating: the tenant may still become active.
    pub open spec fn is_starting(&self) -> bool {
        *self is Loading || *self is Attaching || *self is Activating
    }
}

impl Tenant {
    /// What holds of every tenant: the timelines are well formed, no two have
    /// the same id, and each stands behind the timeline it branches off; and,
    /// unless the tenant is stopping or broken, a timeline is in `Creating`
    /// exactly while its creation is under way.
    pub open spec fn wf(&self) -> bool {
        &&& all_timelines_wf(self.timelines@)
        &&& ids_unique(self.timelines@)
        &&& ancestors_first(self.timelines@)
        &&& !(self.state is Stopping || self.state is Broken) ==> placeholders_marked(
            self.timelines@,
        )
        &&& self.state.is_starting() ==> forall|i: int|
            0 <= i < self.timelines@.len() ==> (#[trigger] self.timelines@[i]).creation
                == CreationPhase::NotCreating
    }

    /// Everything but the state and the timelines is the same.
    pub open spec fn same_settings(&self, other: &Tenant) -> bool {
        &&& self.tenant_id == other.tenant_id
        &&& self.has_remote_storage == other.has_remote_storage
        &&& self.tenant_conf == other.tenant_conf
        &&& self.default_tenant_conf == other.default_tenant_conf
        &&& self.cached_synthetic_tenant_size == other.cached_synthetic_tenant_size
        &&& self.layer_capacity == other.layer_capacity
    }

    /// A tenant without timelines.
    pub fn new(
        state: TenantState,
        default_tenant_conf: TenantConf,
        tenant_conf: TenantConfOpt,
        tenant_id: TenantId,
        has_remote_storage: bool,
        layer_capacity: usize,
    ) -> (t: Tenant)
        ensures
            t.wf(),
            t.state == state,
            t.tenant_id == tenant_id,
            t.timelines@ == Seq::<Timeline>::empty(),
            t.has_remote_storage == has_remote_storage,
            t.tenant_conf == tenant_conf,
            t.default_tenant_conf == default_tenant_conf,
            t.cached_synthetic_tenant_size == 0,
            t.layer_capacity == layer_capacity,
    {
        Tenant {
            tenant_id,
            state,
            timelines: Vec::new(),
            has_remote_storage,
            tenant_conf,
            default_tenant_conf,
            cached_synthetic_tenant_size: 0,
            layer_capacity,
        }
    }

    /// A tenant that stands for one that could not be loaded: broken for
    /// `reason`, without timelines, remote storage or overrides.
    pub fn create_broken_tenant(
        default_tenant_conf: TenantConf,
        tenant_id: TenantId,
        reason: String,
        layer_capacity: usize,
    ) -> (t: Tenant)
        ensures
            t.wf(),
            t.state == (TenantState::Broken { reason }),
            t.tenant_id == tenant_id,
            t.timelines@ == Seq::<Timeline>::empty(),
            !t.has_remote_storage,
            t.tenant_conf == TenantConfOpt::no_overrides(),
            t.default_tenant_conf == default_tenant_conf,
            t.cached_synthetic_tenant_size == 0,
            t.layer_capacity == layer_capacity,
    {
        Tenant::new(
            TenantState::Broken { reason },
            default_tenant_conf,
            TenantConfOpt::none(),
            tenant_id,
            false,
            layer_capacity,
        )
    }

    pub fn tenant_id(&self) -> (r: TenantId)
        ensures
            r == self.tenant_id,
    {
        self.tenant_id
    }

    pub fn current_state(&self) -> (r: &TenantState)
        ensures
            *r == self.state,
    {
        &self.state
    }

    pub fn is_active(&self) -> (r: bool)
        ensures
            r == self.state.is_active(),
    {
        match self.state {
            TenantState::Active => true,
            _ => false,
        }
    }

    /// The place of the timeline with id `id`.
    pub fn find(&self, id: TimelineId) -> (r: Option<usize>)
        ensures
            match r {
                Some(i) => i < self.timelines@.len() && self.timelines@[i as int].timeline_id == id,
                None => id_absent(self.timelines@, id),
            },
    {
        let mut i: usize = 0;
        while i < self.timelines.len()
            invariant
                0 <= i <= self.timelines@.len(),
                forall|k: int| 0 <= k < i ==> (#[trigger] self.timelines@[k]).timeline_id != id,
            decreases self.timelines@.len() - i,
        {
            if self.timelines[i].timeline_id.0 == id.0 {
                return Some(i);
            }
            i += 1;
        }
        None
    }

    /// The timeline with id `timeline_id`; with `active_only`, only if it is
    /// active.
    pub fn get_timeline(&self, timeline_id: TimelineId, active_only: bool) -> (r: Result<
        &Timeline,
        GetTimelineError,
    >)
        ensures
            match r {
                Ok(t) => {
                    &&& t.timeline_id == timeline_id
                    &&& self.timelines@.contains(*t)
                    &&& active_only ==> t.state == TimelineState::Active
                },
                Err(GetTimelineError::NotFound { tenant_id, timeline_id: id }) => {
                    &&& tenant_id == self.tenant_id
                    &&& id == timeline_id
                    &&& id_absent(self.timelines@, timeline_id)
                },
                Err(GetTimelineError::NotActive { tenant_id, timeline_id: id, state }) => {
                    &&& tenant_id == self.tenant_id
                    &&& id == timeline_id
                    &&& active_only
                    &&& state != TimelineState::Active
                    &&& exists|i: int|
                        0 <= i < self.timelines@.len()
                            && (#[trigger] self.timelines@[i]).timeline_id
                            == timeline_id && self.timelines@[i].state == state
                },
            },
    {
        match self.find(timeline_id) {
            None => Err(GetTimelineError::NotFound { tenant_id: self.tenant_id, timeline_id }),
            Some(i) => {
                let t = &self.timelines[i];
                if active_only && !t.is_active() {
                    Err(
                        GetTimelineError::NotActive {
                            tenant_id: self.tenant_id,
                            timeline_id,
                            state: t.state,
                        },
                    )
                } else {
                    Ok(t)
                }
            },
        }
    }

    /// The ids of the timelines of the tenant, in the order in which they
    /// are kept.
    pub fn list_timelines(&self) -> (r: Vec<TimelineId>)
        ensures
            r@.len() == self.timelines@.len(),
            forall|i: int| 0 <= i < r@.len() ==> r@[i]
                == (#[trigger] self.timelines@[i]).timeline_id,
    {
        let mut out: Vec<TimelineId> = Vec::new();
        let mut i: usize = 0;
        while i < self.timelines.len()
            invariant
                0 <= i <= self.timelines@.len(),
                out@.len() == i,
                forall|k: int| 0 <= k < i ==> out@[k]
                    == (#[trigger] self.timelines@[k]).timeline_id,
            decreases self.timelines@.len() - i,
        {
            out.push(self.timelines[i].timeline_id);
            i += 1;
        }
        out
    }

    /// What is to be expected of the tenant by one who waits for it to become
    /// active.
    pub fn wait_to_become_active(&self) -> (r: ActiveOutlook)
        ensures
            r == (if self.state.is_active() {
                ActiveOutlook::Active
            } else if self.state.is_starting() {
                ActiveOutlook::Pending
            } else {
                ActiveOutlook::WillNotBecomeActive
            }),
    {
        match self.state {
            TenantState::Loading | TenantState::Attaching | TenantState::Activating(_) => {
                ActiveOutlook::Pending
            },
            TenantState::Active => ActiveOutlook::Active,
            TenantState::Broken { .. } | TenantState::Stopping => ActiveOutlook::WillNotBecomeActive,
        }
    }

    /// The state of each timeline after the tenant has been activated: those
    /// that are neither broken nor stopping are active.
    pub open spec fn activated(before: Seq<Timeline>, after: Seq<Timeline>) -> bool {
        &&& after.len() == before.len()
        &&& forall|i: int|
            0 <= i < before.len() ==> {
                &&& (#[trigger] after[i]).same_but_state(&before[i])
                &&& after[i].state == (if before[i].state == TimelineState::Broken
                    || before[i].state == TimelineState::Stopping {
                    before[i].state
                } else {
                    TimelineState::Active
                })
            }
    }

    /// Makes a tenant that has been loaded or attached active, and with it
    /// every timeline that is neither broken nor stopping. Returns how many
    /// timelines were activated.
    pub fn activate(&mut self) -> (activated_timelines: usize)
        requires
            old(self).wf(),
            old(self).state is Loading || old(self).state is Attaching,
        ensures
            final(self).wf(),
            final(self).state is Active,
            final(self).same_settings(old(self)),
            Self::activated(old(self).timelines@, final(self).timelines@),
            activated_timelines == activatable(
                old(self).timelines@,
                old(self).timelines@.len() as int,
            ),
    {
        self.state = match self.state {
            TenantState::Attaching => TenantState::Activating(ActivatingFrom::Attaching),
            _ => TenantState::Activating(ActivatingFrom::Loading),
        };
        let mut activated_timelines: usize = 0;
        let mut i: usize = 0;
        while i < self.timelines.len()
            invariant
                0 <= i <= self.timelines@.len(),
                activated_timelines == activatable(old(self).timelines@, i as int),
                activated_timelines <= i,
                self.timelines@.len() == old(self).timelines@.len(),
                self.same_settings(old(self)),
                self.state is Activating,
                old(self).wf(),
                old(self).state.is_starting(),
                forall|k: int|
                    i <= k < self.timelines@.len() ==> (#[trigger] self.timelines@[k])
                        == old(self).timelines@[k],
                forall|k: int|
                    0 <= k < i ==> {
                        &&& (#[trigger] self.timelines@[k]).same_but_state(&old(self).timelines@[k])
                        &&& self.timelines@[k].state == (if old(self).timelines@[k].state
                            == TimelineState::Broken || old(self).timelines@[k].state
                            == TimelineState::Stopping {
                            old(self).timelines@[k].state
                        } else {
                            TimelineState::Active
                        })
                    },
            decreases self.timelines@.len() - i,
        {
            let skip = self.timelines[i].is_broken() || self.timelines[i].is_stopping();
            if !skip {
                self.timelines[i].activate();
                activated_timelines += 1;
            }
            i += 1;
        }
        self.state = TenantState::Active;
        proof {
            Self::lemma_states_changed(old(self).timelines@, self.timelines@);
            assert forall|k: int| 0 <= k < self.timelines@.len() implies ((
            #[trigger] self.timelines@[k]).state == TimelineState::Creating) == (
            self.timelines@[k].creation != CreationPhase::NotCreating) by {
                assert(self.timelines@[k].same_but_state(&old(self).timelines@[k]));
                assert(old(self).timelines@[k].creation == CreationPhase::NotCreating);
                assert(old(self).timelines@[k].state != TimelineState::Creating);
            }
        }
        activated_timelines
    }

    /// Timelines that differ from well-formed ones in their states only are
    /// well formed too, with the same ids and ancestors.
    pub proof fn lemma_states_changed(before: Seq<Timeline>, after: Seq<Timeline>)
        requires
            after.len() == before.len(),
            forall|i: int| 0 <= i < before.len()
                ==> (#[trigger] after[i]).same_but_state(&before[i]),
            all_timelines_wf(before),
            ids_unique(before),
            ancestors_first(before),
        ensures
            all_timelines_wf(after),
            ids_unique(after),
            ancestors_first(after),
    {
        assert forall|i: int| 0 <= i < after.len() implies (#[trigger] after[i]).wf() by {
            assert(after[i].same_but_state(&before[i]));
            assert(before[i].wf());
        }
        assert forall|i: int, j: int| 0 <= i < j < after.len() implies (
        #[trigger] after[i]).timeline_id != (#[trigger] after[j]).timeline_id by {
            assert(after[i].same_but_state(&before[i]));
            assert(after[j].same_but_state(&before[j]));
        }
        assert forall|i: int| 0 <= i < after.len() implies match (#[trigger] after[i]).ancestor {
            Some((a, _)) => stands_before(after, a, i),
            None => true,
        } by {
            assert(after[i].same_but_state(&before[i]));
            if before[i].ancestor is Some {
                let a = before[i].ancestor.unwrap().0;
                assert(stands_before(before, a, i));
                let k = choose|k: int|
                    0 <= k < i && k < before.len() && (#[trigger] before[k]).timeline_id == a
                        && before[k].creation == CreationPhase::NotCreating;
                assert(after[k].same_but_state(&before[k]));
            }
        }
    }

    /// The state of each timeline after the tenant has been set to stopping:
    /// those that are not broken are stopping.
    pub open spec fn stopped(before: Seq<Timeline>, after: Seq<Timeline>) -> bool {
        &&& after.len() == before.len()
        &&& forall|i: int|
            0 <= i < before.len() ==> {
                &&& (#[trigger] after[i]).same_but_state(&before[i])
                &&& after[i].state == (if before[i].state == TimelineState::Broken {
                    TimelineState::Broken
                } else {
                    TimelineState::Stopping
                })
            }
    }

    /// Sets an active tenant to stopping, and with it every timeline that is
    /// not broken. A tenant that is stopping or broken already stays as it
    /// is. The tenant must have left the states from which it may still
    /// become active.
    pub fn set_stopping(&mut self) -> (r: Result<(), SetStoppingError>)
        requires
            old(self).wf(),
            !old(self).state.is_starting(),
        ensures
            final(self).wf(),
            final(self).same_settings(old(self)),
            match r {
                Ok(()) => {
                    &&& old(self).state is Active
                    &&& final(self).state is Stopping
                    &&& Self::stopped(old(self).timelines@, final(self).timelines@)
                },
                Err(e) => {
                    &&& final(self).state == old(self).state
                    &&& final(self).timelines@ == old(self).timelines@
                    &&& e == (if old(self).state is Stopping {
                        SetStoppingError::AlreadyStopping
                    } else {
                        SetStoppingError::Broken
                    })
                    &&& old(self).state is Stopping || old(self).state is Broken
                },
            },
    {
        match self.state {
            TenantState::Active => {},
            TenantState::Stopping => {
                return Err(SetStoppingError::AlreadyStopping);
            },
            _ => {
                return Err(SetStoppingError::Broken);
            },
        }
        self.state = TenantState::Stopping;
        let mut i: usize = 0;
        while i < self.timelines.len()
            invariant
                0 <= i <= self.timelines@.len(),
                self.timelines@.len() == old(self).timelines@.len(),
                self.same_settings(old(self)),
                self.state is Stopping,
                forall|k: int|
                    i <= k < self.timelines@.len() ==> (#[trigger] self.timelines@[k])
                        == old(self).timelines@[k],
                forall|k: int|
                    0 <= k < i ==> {
                        &&& (#[trigger] self.timelines@[k]).same_but_state(&old(self).timelines@[k])
                        &&& self.timelines@[k].state == (if old(self).timelines@[k].state
                            == TimelineState::Broken {
                            TimelineState::Broken
                        } else {
                            TimelineState::Stopping
                        })
                    },
            decreases self.timelines@.len() - i,
        {
            if !self.timelines[i].is_broken() {
                self.timelines[i].set_state(TimelineState::Stopping);
            }
            i += 1;
        }
        proof {
            Self::lemma_states_changed(old(self).timelines@, self.timelines@);
        }
        Ok(())
    }

    /// Marks the tenant as broken for `reason`. A tenant that is broken
    /// already keeps its reason. An active tenant may be broken only in a
    /// build for testing; and the tenant must have left the states from which
    /// it may still become active.
    pub fn set_broken(&mut self, reason: String, testing: bool)
        requires
            old(self).wf(),
            !old(self).state.is_starting(),
            old(self).state is Active ==> testing,
        ensures
            final(self).wf(),
            final(self).same_settings(old(self)),
            final(self).timelines@ == old(self).timelines@,
            final(self).state == (if old(self).state is Broken {
                old(self).state
            } else {
                TenantState::Broken { reason }
            }),
    {
        match self.state {
            TenantState::Broken { .. } => {},
            _ => {
                self.state = TenantState::Broken { reason };
            },
        }
    }

    /// Timelines that differ from well-formed ones in neither id, ancestor
    /// nor creation phase, and are well formed each, are well formed as a
    /// whole.
    pub proof fn lemma_timelines_changed(before: Seq<Timeline>, after: Seq<Timeline>)
        requires
            after.len() == before.len(),
            forall|i: int|
                0 <= i < before.len() ==> {
                    &&& (#[trigger] after[i]).wf()
                    &&& after[i].timeline_id == before[i].timeline_id
                    &&& after[i].ancestor == before[i].ancestor
                    &&& after[i].creation == before[i].creation
                },
            ids_unique(before),
            ancestors_first(before),
        ensures
            all_timelines_wf(after),
            ids_unique(after),
            ancestors_first(after),
    {
        assert forall|i: int, j: int| 0 <= i < j < after.len() implies (
        #[trigger] after[i]).timeline_id != (#[trigger] after[j]).timeline_id by {
            assert(after[i].timeline_id == before[i].timeline_id);
            assert(after[j].timeline_id == before[j].timeline_id);
        }
        assert forall|i: int| 0 <= i < after.len() implies match (#[trigger] after[i]).ancestor {
            Some((a, _)) => stands_before(after, a, i),
            None => true,
        } by {
            assert(after[i].ancestor == before[i].ancestor);
            if before[i].ancestor is Some {
                let a = before[i].ancestor.unwrap().0;
                assert(stands_before(before, a, i));
                let k = choose|k: int|
                    0 <= k < i && k < before.len() && (#[trigger] before[k]).timeline_id == a
                        && before[k].creation == CreationPhase::NotCreating;
                assert(after[k].timeline_id == before[k].timeline_id);
            }
        }
    }

    /// A timeline that stands behind its ancestor, if it has one, can be
    /// added at the end.
    pub proof fn lemma_push_timeline(ts: Seq<Timeline>, t: Timeline)
        requires
            all_timelines_wf(ts),
            ids_unique(ts),
            ancestors_first(ts),
            t.wf(),
            id_absent(ts, t.timeline_id),
            match t.ancestor {
                Some((a, _)) => stands_before(ts, a, ts.len() as int),
                None => true,
            },
        ensures
            all_timelines_wf(ts.push(t)),
            ids_unique(ts.push(t)),
            ancestors_first(ts.push(t)),
    {
        let after = ts.push(t);
        assert forall|i: int| 0 <= i < after.len() implies match (#[trigger] after[i]).ancestor {
            Some((a, _)) => stands_before(after, a, i),
            None => true,
        } by {
            if after[i].ancestor is Some {
                let a = after[i].ancestor.unwrap().0;
                if i < ts.len() {
                    assert(after[i] == ts[i]);
                    assert(stands_before(ts, a, i));
                }
                let k = choose|k: int|
                    0 <= k < i && k < ts.len() && (#[trigger] ts[k]).timeline_id == a
                        && ts[k].creation == CreationPhase::NotCreating;
                assert(after[k] == ts[k]);
            }
        }
    }

    /// A timeline off which no other branches can be taken out.
    pub proof fn lemma_remove_timeline(ts: Seq<Timeline>, at: int)
        requires
            all_timelines_wf(ts),
            ids_unique(ts),
            ancestors_first(ts),
            0 <= at < ts.len(),
            forall|i: int|
                0 <= i < ts.len() ==> match (#[trigger] ts[i]).ancestor {
                    Some((a, _)) => a != ts[at].timeline_id,
                    None => true,
                },
        ensures
            all_timelines_wf(ts.remove(at)),
            ids_unique(ts.remove(at)),
            ancestors_first(ts.remove(at)),
            id_absent(ts.remove(at), ts[at].timeline_id),
    {
        let after = ts.remove(at);
        assert forall|i: int| 0 <= i < after.len() implies (#[trigger] after[i]).wf() && after[i]
            == ts[if i < at {
            i
        } else {
            i + 1
        }] by {}
        assert forall|i: int| 0 <= i < after.len() implies match (#[trigger] after[i]).ancestor {
            Some((a, _)) => stands_before(after, a, i),
            None => true,
        } by {
            let i0 = if i < at {
                i
            } else {
                i + 1
            };
            assert(after[i] == ts[i0]);
            if ts[i0].ancestor is Some {
                let a = ts[i0].ancestor.unwrap().0;
                assert(stands_before(ts, a, i0));
                let k = choose|k: int|
                    0 <= k < i0 && k < ts.len() && (#[trigger] ts[k]).timeline_id == a
                        && ts[k].creation == CreationPhase::NotCreating;
                assert(k != at);
                let k1 = if k < at {
                    k
                } else {
                    k - 1
                };
                assert(after[k1] == ts[k]);
            }
        }
    }

    pub fn tenant_specific_overrides(&self) -> (r: TenantConfOpt)
        ensures
            r == self.tenant_conf,
    {
        self.tenant_conf
    }

    pub fn effective_config(&self) -> (r: TenantConf)
        ensures
            r == self.tenant_conf.merge_spec(self.default_tenant_conf),
    {
        self.tenant_conf.merge(self.default_tenant_conf)
    }

    pub fn get_checkpoint_distance(&self) -> (r: u64)
        ensures
            r == or_default(
                self.tenant_conf.checkpoint_distance,
                self.default_tenant_conf.checkpoint_distance,
            ),
    {
        match self.tenant_conf.checkpoint_distance {
            Some(v) => v,
            None => self.default_tenant_conf.checkpoint_distance,
        }
    }

    pub fn get_checkpoint_timeout(&self) -> (r: u64)
        ensures
            r == or_default(
                self.tenant_conf.checkpoint_timeout,
                self.default_tenant_conf.checkpoint_timeout,
            ),
    {
        match self.tenant_conf.checkpoint_timeout {
            Some(v) => v,
            None => self.default_tenant_conf.checkpoint_timeout,
        }
    }

    pub fn get_compaction_target_size(&self) -> (r: u64)
        ensures
            r == or_default(
                self.tenant_conf.compaction_target_size,
                self.default_tenant_conf.compaction_target_size,
            ),
    {
        match self.tenant_conf.compaction_target_size {
            Some(v) => v,
            None => self.default_tenant_conf.compaction_target_size,
        }
    }

    pub fn get_compaction_period(&self) -> (r: u64)
        ensures
            r == or_default(
                self.tenant_conf.compaction_period,
                self.default_tenant_conf.compaction_period,
            ),
    {
        match self.tenant_conf.compaction_period {
            Some(v) => v,
            None => self.default_tenant_conf.compaction_period,
        }
    }

    pub fn get_compaction_threshold(&self) -> (r: usize)
        ensures
            r == or_default(
                self.tenant_conf.compaction_threshold,
                self.default_tenant_conf.compaction_threshold,
            ),
    {
        match self.tenant_conf.compaction_threshold {
            Some(v) => v,
            None => self.default_tenant_conf.compaction_threshold,
        }
    }

    pub fn get_gc_horizon(&self) -> (r: u64)
        ensures
            r == or_default(self.tenant_conf.gc_horizon, self.default_tenant_conf.gc_horizon),
    {
        match self.tenant_conf.gc_horizon {
            Some(v) => v,
            None => self.default_tenant_conf.gc_horizon,
        }
    }

    pub fn get_gc_period(&self) -> (r: u64)
        ensures
            r == or_default(self.tenant_conf.gc_period, self.default_tenant_conf.gc_period),
    {
        match self.tenant_conf.gc_period {
            Some(v) => v,
            None => self.default_tenant_conf.gc_period,
        }
    }

    pub fn get_image_creation_threshold(&self) -> (r: usize)
        ensures
            r == or_default(
                self.tenant_conf.image_creation_threshold,
                self.default_tenant_conf.image_creation_threshold,
            ),
    {
        match self.tenant_conf.image_creation_threshold {
            Some(v) => v,
            None => self.default_tenant_conf.image_creation_threshold,
        }
    }

    pub fn get_pitr_interval(&self) -> (r: u64)
        ensures
            r == or_default(self.tenant_conf.pitr_interval, self.default_tenant_conf.pitr_interval),
    {
        match self.tenant_conf.pitr_interval {
            Some(v) => v,
            None => self.default_tenant_conf.pitr_interval,
        }
    }

    pub fn get_trace_read_requests(&self) -> (r: bool)
        ensures
            r == or_default(
                self.tenant_conf.trace_read_requests,
                self.default_tenant_conf.trace_read_requests,
            ),
    {
        match self.tenant_conf.trace_read_requests {
            Some(v) => v,
            None => self.default_tenant_conf.trace_read_requests,
        }
    }

    pub fn get_min_resident_size_override(&self) -> (r: Option<u64>)
        ensures
            r == or_else(
                self.tenant_conf.min_resident_size_override,
                self.default_tenant_conf.min_resident_size_override,
            ),
    {
        match self.tenant_conf.min_resident_size_override {
            Some(v) => Some(v),
            None => self.default_tenant_conf.min_resident_size_override,
        }
    }

    /// Replaces what the tenant overrides of the settings. The timelines see
    /// the new settings through the tenant.
    pub fn set_new_tenant_config(&mut self, new_tenant_conf: TenantConfOpt)
        ensures
            final(self).tenant_conf == new_tenant_conf,
            final(self).tenant_id == old(self).tenant_id,
            final(self).state == old(self).state,
            final(self).timelines == old(self).timelines,
            final(self).has_remote_storage == old(self).has_remote_storage,
            final(self).default_tenant_conf == old(self).default_tenant_conf,
            final(self).cached_synthetic_tenant_size == old(self).cached_synthetic_tenant_size,
            final(self).layer_capacity == old(self).layer_capacity,
    {
        self.tenant_conf = new_tenant_conf;
    }

    /// Notes the synthetic size that was computed for the tenant.
    pub fn set_cached_synthetic_size(&mut self, size: u64)
        ensures
            final(self).cached_synthetic_tenant_size == size,
            final(self).tenant_id == old(self).tenant_id,
            final(self).state == old(self).state,
            final(self).timelines == old(self).timelines,
            final(self).has_remote_storage == old(self).has_remote_storage,
            final(self).tenant_conf == old(self).tenant_conf,
            final(self).default_tenant_conf == old(self).default_tenant_conf,
            final(self).layer_capacity == old(self).layer_capacity,
    {
        self.cached_synthetic_tenant_size = size;
    }

    pub fn get_cached_synthetic_size(&self) -> (r: u64)
        ensures
            r == self.cached_synthetic_tenant_size,
    {
        self.cached_synthetic_tenant_size
    }
}

} // verus!
