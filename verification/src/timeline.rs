//! One timeline: a branch of the history of a tenant, with its layer map,
//! its state, and what garbage collection knows about it.

use crate::historic::HistoricLayer;
use crate::historic::HistoricStuff;
use crate::id::TenantId;
use crate::id::TimelineId;
use crate::inmem::Record;
use crate::layer_map::empty;
use crate::layer_map::path_records;
use crate::layer_map::Ingested;
use crate::layer_map::LayerMap;
use crate::layer_map::PutError;
use crate::lsn::Key;
use crate::lsn::Lsn;
use crate::metadata::TimelineMetadata;
use crate::seqwait::SeqWaitError;
use crate::seqwait::WaitStatus;
use crate::storage_layer::ValueReconstructResult;
use crate::storage_layer::ValueReconstructState;
use std::sync::Arc;
use vstd::prelude::*;

verus! {

/// Where a timeline is in its life.
#[derive(Clone, Copy, Debug, PartialEq, Eq, Structural)]
pub enum TimelineState {
    /// A placeholder that holds the id while the timeline is being created.
    Creating,
    /// In memory, not yet usable.
    Loading,
    Active,
    /// Being shut down or deleted.
    Stopping,
    /// Unusable; stays so.
    Broken,
}

/// How far the creation of a timeline has come, for the placeholder that
/// holds its id.
#[derive(Clone, Copy, Debug, PartialEq, Eq, Structural)]
pub enum CreationPhase {
    /// The timeline is not a placeholder.
    NotCreating,
    /// The placeholder is in the map; the uninit mark has not been made yet.
    AwaitingMark,
    /// The uninit mark exists on disk.
    Marked,
    /// The uninit mark has been removed; the real timeline is about to take
    /// the place.
    Unmarked,
}

/// What is stored for a key at an LSN.
#[derive(Debug)]
pub enum Value {
    /// The whole page.
    Image(Vec<u8>),
    /// A change to the page. One that `will_init` needs no older version of
    /// the page.
    WalRecord { will_init: bool, rec: Vec<u8> },
}

/// What garbage collection has to keep of a timeline.
#[derive(Debug)]
pub struct GcInfo {
    /// The LSNs at which other timelines branch off this one.
    pub retain_lsns: Vec<Lsn>,
    /// The cutoff that the amount of history to keep gives.
    pub horizon_cutoff: Lsn,
    /// The cutoff that the time to keep history for gives.
    pub pitr_cutoff: Lsn,
}

/// What a garbage collection did.
#[derive(Clone, Copy, Debug, PartialEq, Eq, Structural)]
pub struct GcResult {
    pub layers_total: u64,
    pub layers_removed: u64,
}

/// Why a timeline did not take a record.
#[derive(Clone, Copy, Debug, PartialEq, Eq, Structural)]
pub enum TimelinePutError {
    /// The timeline is not active.
    NotActive(TimelineState),
    /// The LSN lies behind the last record, within what has been flushed, or
    /// at the end of all LSNs; or the key is the end of all keys.
    OutOfRange,
    /// There is a record for this key at this LSN already.
    AlreadyHaveRecordForKeyAndLsn,
    /// The open layer is full and cannot give way to a new one.
    LayerFull,
}

/// Why a timeline could not be waited on or read.
#[derive(Clone, Copy, Debug, PartialEq, Eq, Structural)]
pub enum TimelineReadError {
    /// The timeline is not active.
    NotActive(TimelineState),
    /// The timeline is being shut down.
    Shutdown,
}

/// An LSN lies before the GC cutoff: the data for it may be gone.
#[derive(Clone, Copy, Debug, PartialEq, Eq, Structural)]
pub struct LsnOutOfScope {
    pub lsn: Lsn,
    pub latest_gc_cutoff_lsn: Lsn,
}

/// What has been collected for a page, as plain values.
pub struct Collected {
    /// The WAL records to apply, the newest first.
    pub wal: Seq<(Lsn, Seq<u8>)>,
    /// The image to apply them to.
    pub img: Option<(Lsn, Seq<u8>)>,
    /// Nothing older is needed.
    pub complete: bool,
}

/// What `state` holds, as plain values.
pub open spec fn state_view(state: ValueReconstructState, complete: bool) -> Collected {
    Collected {
        wal: state.records@.map_values(|p: (Lsn, Vec<u8>)| (p.0, p.1@)),
        img: match state.img {
            Some((lsn, b)) => Some((lsn, b@)),
            None => None,
        },
        complete,
    }
}

/// Goes through `rs`, newest first, and adds to `acc` what the page needs:
/// every WAL record down to the first image or the first record that
/// initialises the page, where the collection is complete.
pub open spec fn collect(rs: Seq<Record<Value>>, acc: Collected) -> Collected
    decreases rs.len(),
{
    if acc.complete || rs.len() == 0 {
        acc
    } else {
        match rs.first().delta {
            Value::Image(b) => Collected {
                wal: acc.wal,
                img: Some((rs.first().lsn, b@)),
                complete: true,
            },
            Value::WalRecord { will_init, rec } => collect(
                rs.drop_first(),
                Collected {
                    wal: acc.wal.push((rs.first().lsn, rec@)),
                    img: acc.img,
                    complete: will_init,
                },
            ),
        }
    }
}

/// Going through two runs of records one after the other is going through
/// their concatenation.
pub proof fn lemma_collect_concat(a: Seq<Record<Value>>, b: Seq<Record<Value>>, acc: Collected)
    ensures
        collect(a + b, acc) == collect(b, collect(a, acc)),
    decreases a.len(),
{
    if acc.complete {
    } else if a.len() == 0 {
        assert(a + b =~= b);
    } else {
        assert((a + b).first() == a.first());
        assert((a + b).drop_first() =~= a.drop_first() + b);
        match a.first().delta {
            Value::Image(img) => {},
            Value::WalRecord { will_init, rec } => {
                lemma_collect_concat(
                    a.drop_first(),
                    b,
                    Collected {
                        wal: acc.wal.push((a.first().lsn, rec@)),
                        img: acc.img,
                        complete: will_init,
                    },
                );
            },
        }
    }
}

/// The records that `refs` point to.
pub open spec fn records_of(refs: Seq<&Record<Value>>) -> Seq<Record<Value>> {
    refs.map_values(|r: &Record<Value>| *r)
}

/// A copy of `bytes`.
pub fn copy_bytes(bytes: &Vec<u8>) -> (r: Vec<u8>)
    ensures
        r@ == bytes@,
{
    let mut out: Vec<u8> = Vec::new();
    let mut i: usize = 0;
    while i < bytes.len()
        invariant
            0 <= i <= bytes@.len(),
            out@ == bytes@.subrange(0, i as int),
        decreases bytes@.len() - i,
    {
        out.push(bytes[i]);
        proof {
            assert(out@ =~= bytes@.subrange(0, i + 1));
        }
        i += 1;
    }
    proof {
        assert(out@ =~= bytes@);
    }
    out
}

/// Adds to `state` what the page needs of `records`, the newest first, and
/// says whether the collection is complete with them.
pub fn collect_records(
    records: &Vec<&Record<Value>>,
    state: &mut ValueReconstructState,
) -> (complete: bool)
    ensures
        state_view(*final(state), complete) == collect(
            records_of(records@),
            state_view(*old(state), false),
        ),
{
    let ghost rs = records_of(records@);
    let ghost start = state_view(*state, false);
    let mut i: usize = 0;
    proof {
        assert(rs.subrange(0, rs.len() as int) =~= rs);
    }
    while i < records.len()
        invariant
            0 <= i <= records@.len(),
            rs == records_of(records@),
            start == state_view(*old(state), false),
            collect(rs, start) == collect(
                rs.subrange(i as int, rs.len() as int),
                state_view(*state, false),
            ),
        decreases records@.len() - i,
    {
        let ghost rest = rs.subrange(i as int, rs.len() as int);
        let ghost before = state_view(*state, false);
        let r: &Record<Value> = records[i];
        proof {
            assert(rest.first() == *r);
            assert(rest.drop_first() =~= rs.subrange(i + 1, rs.len() as int));
        }
        match &r.delta {
            Value::Image(b) => {
                state.img = Some((r.lsn, copy_bytes(b)));
                proof {
                    let after = state_view(*state, true);
                    assert(after.wal =~= before.wal);
                    assert(after.img == Some((r.lsn, b@)));
                    assert(collect(rest, before) == after);
                }
                return true;
            },
            Value::WalRecord { will_init, rec } => {
                state.records.push((r.lsn, copy_bytes(rec)));
                proof {
                    assert(state_view(*state, false).wal =~= before.wal.push((r.lsn, rec@)));
                }
                proof {
                    let next = Collected {
                        wal: before.wal.push((r.lsn, rec@)),
                        img: before.img,
                        complete: *will_init,
                    };
                    assert(state_view(*state, *will_init) == next);
                    assert(collect(rest, before) == collect(rest.drop_first(), next));
                    if *will_init {
                        assert(collect(rest.drop_first(), next) == next);
                    }
                }
                if *will_init {
                    return true;
                }
            },
        }
        i += 1;
    }
    proof {
        assert(rs.subrange(rs.len() as int, rs.len() as int) =~= Seq::<Record<Value>>::empty());
    }
    false
}

/// One branch of the history of a tenant.
pub struct Timeline {
    pub tenant_id: TenantId,
    pub timeline_id: TimelineId,
    /// The timeline that this one branches off, and where.
    pub ancestor: Option<(TimelineId, Lsn)>,
    pub state: TimelineState,
    pub layers: LayerMap<Value>,
    pub last_record_lsn: Lsn,
    pub prev_record_lsn: Lsn,
    pub disk_consistent_lsn: Lsn,
    pub latest_gc_cutoff_lsn: Lsn,
    pub gc_info: GcInfo,
    pub initdb_lsn: Lsn,
    pub pg_version: u32,
    pub has_remote_client: bool,
    /// A deletion of the timeline is under way.
    pub delete_in_progress: bool,
    /// The timeline has been deleted.
    pub deleted: bool,
    /// How far the creation has come, if this is a placeholder.
    pub creation: CreationPhase,
}

/// The largest of `lsns`, or `floor` if that is larger.
pub open spec fn max_lsn(lsns: Seq<Lsn>, floor: u64) -> u64
    decreases lsns.len(),
{
    if lsns.len() == 0 {
        floor
    } else {
        let rest = max_lsn(lsns.drop_last(), floor);
        if lsns.last().0 > rest {
            lsns.last().0
        } else {
            rest
        }
    }
}

impl Timeline {
    /// The layer map is well formed, and its last ingested LSN is the last
    /// record LSN.
    pub open spec fn wf(&self) -> bool {
        &&& self.layers.wf()
        &&& self.layers.last_ingested() == self.last_record_lsn
    }

    /// A timeline as its metadata describes it, without layers: a
    /// placeholder in `Creating` if `creating`, else in `Loading`.
    pub fn new(
        tenant_id: TenantId,
        timeline_id: TimelineId,
        metadata: &TimelineMetadata,
        creating: bool,
        has_remote_client: bool,
        layer_capacity: usize,
    ) -> (t: Timeline)
        ensures
            t.wf(),
            t.tenant_id == tenant_id,
            t.timeline_id == timeline_id,
            t.ancestor == (match metadata.ancestor_timeline {
                Some(a) => Some((a, metadata.ancestor_lsn)),
                None => None,
            }),
            t.state == (if creating {
                TimelineState::Creating
            } else {
                TimelineState::Loading
            }),
            t.last_record_lsn == metadata.disk_consistent_lsn,
            t.prev_record_lsn == (match metadata.prev_record_lsn {
                Some(l) => l,
                None => Lsn(0),
            }),
            t.disk_consistent_lsn == metadata.disk_consistent_lsn,
            t.latest_gc_cutoff_lsn == metadata.latest_gc_cutoff_lsn,
            t.gc_info.retain_lsns@ == Seq::<Lsn>::empty(),
            t.gc_info.horizon_cutoff == Lsn(0),
            t.gc_info.pitr_cutoff == Lsn(0),
            t.initdb_lsn == metadata.initdb_lsn,
            t.pg_version == metadata.pg_version,
            t.has_remote_client == has_remote_client,
            !t.delete_in_progress,
            !t.deleted,
            t.creation == (if creating {
                CreationPhase::AwaitingMark
            } else {
                CreationPhase::NotCreating
            }),
            t.layers.open_layer() is None,
            t.layers.historic().layers() == Seq::<Arc<HistoricLayer<Value>>>::empty(),
            t.layers.capacity() == layer_capacity,
            !t.layers.gate().is_shutdown(),
    {
        Timeline {
            tenant_id,
            timeline_id,
            ancestor: match metadata.ancestor_timeline {
                Some(a) => Some((a, metadata.ancestor_lsn)),
                None => None,
            },
            state: if creating {
                TimelineState::Creating
            } else {
                TimelineState::Loading
            },
            layers: empty(metadata.disk_consistent_lsn, HistoricStuff::new(), layer_capacity),
            last_record_lsn: metadata.disk_consistent_lsn,
            prev_record_lsn: match metadata.prev_record_lsn {
                Some(l) => l,
                None => Lsn(0),
            },
            disk_consistent_lsn: metadata.disk_consistent_lsn,
            latest_gc_cutoff_lsn: metadata.latest_gc_cutoff_lsn,
            gc_info: GcInfo { retain_lsns: Vec::new(), horizon_cutoff: Lsn(0),
                pitr_cutoff: Lsn(0) },
            initdb_lsn: metadata.initdb_lsn,
            pg_version: metadata.pg_version,
            has_remote_client,
            delete_in_progress: false,
            deleted: false,
            creation: if creating {
                CreationPhase::AwaitingMark
            } else {
                CreationPhase::NotCreating
            },
        }
    }

    /// Gives the timeline the historic layers that were found for it. The
    /// last record LSN stays.
    pub fn load_layer_map(&mut self, historic: HistoricStuff<Value>)
        requires
            old(self).wf(),
            historic.wf(),
        ensures
            final(self).wf(),
            final(self).layers.historic() == historic,
            final(self).layers.open_layer() is None,
            final(self).layers.capacity() == old(self).layers.capacity(),
            final(self).layers.gate().waiting() == Seq::<crate::seqwait::Waiter>::empty(),
            !final(self).layers.gate().is_shutdown(),
            final(self).same_but_layers(old(self)),
    {
        let cap = self.layers.layer_capacity();
        self.layers = empty(self.last_record_lsn, historic, cap);
    }

    /// Everything but the layer map is the same.
    pub open spec fn same_but_layers(&self, other: &Timeline) -> bool {
        &&& self.tenant_id == other.tenant_id
        &&& self.timeline_id == other.timeline_id
        &&& self.ancestor == other.ancestor
        &&& self.state == other.state
        &&& self.last_record_lsn == other.last_record_lsn
        &&& self.prev_record_lsn == other.prev_record_lsn
        &&& self.disk_consistent_lsn == other.disk_consistent_lsn
        &&& self.latest_gc_cutoff_lsn == other.latest_gc_cutoff_lsn
        &&& self.gc_info == other.gc_info
        &&& self.initdb_lsn == other.initdb_lsn
        &&& self.pg_version == other.pg_version
        &&& self.has_remote_client == other.has_remote_client
        &&& self.delete_in_progress == other.delete_in_progress
        &&& self.deleted == other.deleted
        &&& self.creation == other.creation
    }

    /// Everything but the state is the same.
    pub open spec fn same_but_state(&self, other: &Timeline) -> bool {
        &&& self.tenant_id == other.tenant_id
        &&& self.timeline_id == other.timeline_id
        &&& self.ancestor == other.ancestor
        &&& self.layers == other.layers
        &&& self.last_record_lsn == other.last_record_lsn
        &&& self.prev_record_lsn == other.prev_record_lsn
        &&& self.disk_consistent_lsn == other.disk_consistent_lsn
        &&& self.latest_gc_cutoff_lsn == other.latest_gc_cutoff_lsn
        &&& self.gc_info == other.gc_info
        &&& self.initdb_lsn == other.initdb_lsn
        &&& self.pg_version == other.pg_version
        &&& self.has_remote_client == other.has_remote_client
        &&& self.delete_in_progress == other.delete_in_progress
        &&& self.deleted == other.deleted
        &&& self.creation == other.creation
    }

    pub fn current_state(&self) -> (r: TimelineState)
        ensures
            r == self.state,
    {
        self.state
    }

    pub fn is_active(&self) -> (r: bool)
        ensures
            r == (self.state == TimelineState::Active),
    {
        match self.state {
            TimelineState::Active => true,
            _ => false,
        }
    }

    pub fn is_broken(&self) -> (r: bool)
        ensures
            r == (self.state == TimelineState::Broken),
    {
        match self.state {
            TimelineState::Broken => true,
            _ => false,
        }
    }

    pub fn is_stopping(&self) -> (r: bool)
        ensures
            r == (self.state == TimelineState::Stopping),
    {
        match self.state {
            TimelineState::Stopping => true,
            _ => false,
        }
    }

    pub fn is_creating(&self) -> (r: bool)
        ensures
            r == (self.state == TimelineState::Creating),
    {
        match self.state {
            TimelineState::Creating => true,
            _ => false,
        }
    }

    pub fn get_ancestor_timeline_id(&self) -> (r: Option<TimelineId>)
        ensures
            r == (match self.ancestor {
                Some((a, _)) => Some(a),
                None => None,
            }),
    {
        match self.ancestor {
            Some((a, _)) => Some(a),
            None => None,
        }
    }

    /// Where the timeline branches off its ancestor; zero without ancestor.
    pub fn get_ancestor_lsn(&self) -> (r: Lsn)
        ensures
            r == (match self.ancestor {
                Some((_, l)) => l,
                None => Lsn(0),
            }),
    {
        match self.ancestor {
            Some((_, l)) => l,
            None => Lsn(0),
        }
    }

    pub fn get_last_record_lsn(&self) -> (r: Lsn)
        ensures
            r == self.last_record_lsn,
    {
        self.last_record_lsn
    }

    pub fn get_disk_consistent_lsn(&self) -> (r: Lsn)
        ensures
            r == self.disk_consistent_lsn,
    {
        self.disk_consistent_lsn
    }

    pub fn get_latest_gc_cutoff_lsn(&self) -> (r: Lsn)
        ensures
            r == self.latest_gc_cutoff_lsn,
    {
        self.latest_gc_cutoff_lsn
    }

    /// The state that a timeline in `current` has after being told to go to
    /// `new_state`: a broken timeline stays broken, and a stopping one does
    /// not become active again.
    pub open spec fn next_state(current: TimelineState, new_state: TimelineState) -> TimelineState {
        if current == TimelineState::Broken {
            TimelineState::Broken
        } else if current == TimelineState::Stopping && new_state == TimelineState::Active {
            TimelineState::Stopping
        } else {
            new_state
        }
    }

    /// Tells the timeline to go to `new_state`.
    pub fn set_state(&mut self, new_state: TimelineState)
        ensures
            final(self).state == Self::next_state(old(self).state, new_state),
            final(self).same_but_state(old(self)),
    {
        match (self.state, new_state) {
            (TimelineState::Broken, _) => {},
            (TimelineState::Stopping, TimelineState::Active) => {},
            (_, s) => {
                self.state = s;
            },
        }
    }

    /// Makes the timeline active, unless it is broken or stopping.
    pub fn activate(&mut self)
        ensures
            final(self).state == Self::next_state(old(self).state, TimelineState::Active),
            final(self).same_but_state(old(self)),
    {
        self.set_state(TimelineState::Active);
    }

    /// Marks the timeline as broken, for good.
    pub fn set_broken(&mut self)
        ensures
            final(self).state == TimelineState::Broken,
            final(self).same_but_state(old(self)),
    {
        self.set_state(TimelineState::Broken);
    }

    /// Whether `lsn` can still be read or branched from: it does not lie
    /// before the GC cutoff.
    pub fn check_lsn_is_in_scope(&self, lsn: Lsn, latest_gc_cutoff_lsn: Lsn) -> (r: Result<
        (),
        LsnOutOfScope,
    >)
        ensures
            r == (if lsn.0 >= latest_gc_cutoff_lsn.0 {
                Ok::<(), LsnOutOfScope>(())
            } else {
                Err::<(), LsnOutOfScope>(LsnOutOfScope { lsn, latest_gc_cutoff_lsn })
            }),
    {
        if lsn.0 >= latest_gc_cutoff_lsn.0 {
            Ok(())
        } else {
            Err(LsnOutOfScope { lsn, latest_gc_cutoff_lsn })
        }
    }

    /// Whether a record at `lsn` for `key` can be taken.
    pub open spec fn takes(&self, key: Key, lsn: Lsn) -> bool {
        &&& lsn.0 >= self.last_record_lsn.0
        &&& lsn.0 >= self.layers.next_open().0
        &&& lsn.0 < u64::MAX
        &&& key.0 < u64::MAX
    }

    /// Ingests a record into the layer map; the last record LSN becomes
    /// `lsn`. A timeline that is not active takes nothing. A record that
    /// the open layer has already is a duplicate; any other has to lie in
    /// range. A refused record is handed back.
    pub fn put(&mut self, key: Key, lsn: Lsn, value: Value) -> (r: Result<
        Ingested,
        (Value, TimelinePutError),
    >)
        requires
            old(self).wf(),
        ensures
            final(self).wf(),
            final(self).last_record_lsn.0 >= old(self).last_record_lsn.0,
            final(self).tenant_id == old(self).tenant_id,
            final(self).timeline_id == old(self).timeline_id,
            final(self).ancestor == old(self).ancestor,
            final(self).state == old(self).state,
            final(self).disk_consistent_lsn == old(self).disk_consistent_lsn,
            final(self).latest_gc_cutoff_lsn == old(self).latest_gc_cutoff_lsn,
            final(self).gc_info == old(self).gc_info,
            final(self).initdb_lsn == old(self).initdb_lsn,
            final(self).pg_version == old(self).pg_version,
            final(self).has_remote_client == old(self).has_remote_client,
            final(self).delete_in_progress == old(self).delete_in_progress,
            final(self).deleted == old(self).deleted,
            final(self).creation == old(self).creation,
            match r {
                Ok(ing) => {
                    &&& old(self).state == TimelineState::Active
                    &&& old(self).takes(key, lsn)
                    &&& !crate::inmem::has_record(old(self).layers.open_records(), key, lsn)
                    &&& final(self).last_record_lsn == lsn
                    &&& final(self).prev_record_lsn == old(self).last_record_lsn
                    &&& match ing.outcome {
                        crate::layer_map::PutOutcome::Stored => {
                            &&& old(self).layers.open_records().len() < old(self).layers.capacity()
                            &&& final(self).layers.historic() == old(self).layers.historic()
                            &&& LayerMap::reads_kept_below(old(self).layers, final(self).layers,
                                lsn)
                            &&& exists|at: int|
                                0 <= at <= old(self).layers.open_records().len()
                                    && final(self).layers.open_records()
                                    == #[trigger] old(self).layers.open_records().insert(
                                    at,
                                    Record { key, lsn, delta: value },
                                )
                        },
                        crate::layer_map::PutOutcome::Rotated => {
                            &&& old(self).layers.open_records().len() >= old(self).layers.capacity()
                            &&& old(self).layers.can_rotate(lsn)
                            &&& LayerMap::rotated_from(
                                old(self).layers,
                                final(self).layers,
                                Record { key, lsn, delta: value },
                            )
                        },
                    }
                    &&& LayerMap::<Value>::woken_by(
                        old(self).layers.gate(),
                        final(self).layers.gate(),
                        ing.woken@,
                        lsn,
                    )
                },
                Err((v, e)) => {
                    &&& v == value
                    &&& final(self).layers.gate() == old(self).layers.gate()
                    &&& final(self).layers.historic() == old(self).layers.historic()
                    &&& final(self).layers.next_open() == old(self).layers.next_open()
                    &&& final(self).layers.open_records() == old(self).layers.open_records()
                    &&& final(self).last_record_lsn == old(self).last_record_lsn
                    &&& final(self).prev_record_lsn == old(self).prev_record_lsn
                    &&& e == (if old(self).state != TimelineState::Active {
                        TimelinePutError::NotActive(old(self).state)
                    } else if crate::inmem::has_record(
                        old(self).layers.open_records(),
                        key,
                        lsn,
                    ) {
                        TimelinePutError::AlreadyHaveRecordForKeyAndLsn
                    } else if !old(self).takes(key, lsn) {
                        TimelinePutError::OutOfRange
                    } else {
                        TimelinePutError::LayerFull
                    })
                    &&& e == TimelinePutError::LayerFull ==> old(self).layers.open_records().len()
                        >= old(self).layers.capacity() && !old(self).layers.can_rotate(lsn)
                },
            },
    {
        if !self.is_active() {
            return Err((value, TimelinePutError::NotActive(self.state)));
        }
        if self.layers.has_open_record(key, lsn) {
            return Err((value, TimelinePutError::AlreadyHaveRecordForKeyAndLsn));
        }
        if !self.layers.accepts(lsn) || key.0 == u64::MAX {
            return Err((value, TimelinePutError::OutOfRange));
        }
        let ghost layers0 = self.layers;
        match self.layers.put(key, lsn, value) {
            Ok(ing) => {
                self.prev_record_lsn = self.last_record_lsn;
                self.last_record_lsn = lsn;
                Ok(ing)
            },
            Err((value, e)) => {
                proof {
                    assert(self.layers.gate() == layers0.gate());
                    assert(self.layers.open_records() == layers0.open_records());
                    assert(self.layers.wf());
                }
                match e {
                    PutError::LayerFull => Err((value, TimelinePutError::LayerFull)),
                    PutError::AlreadyHaveRecordForKeyAndLsn => Err(
                        (value, TimelinePutError::AlreadyHaveRecordForKeyAndLsn),
                    ),
                }
            },
        }
    }

    /// Asks the LSN gate of the timeline for `lsn`. Only an active timeline can
    /// be waited on.
    pub fn wait_lsn(&mut self, lsn: Lsn) -> (r: Result<WaitStatus, TimelineReadError>)
        requires
            old(self).wf(),
            old(self).layers.gate().issued() < u64::MAX,
        ensures
            final(self).wf(),
            final(self).same_but_layers(old(self)),
            final(self).layers.open_layer() == old(self).layers.open_layer(),
            final(self).layers.historic() == old(self).layers.historic(),
            final(self).layers.next_open() == old(self).layers.next_open(),
            r == (if old(self).state != TimelineState::Active {
                Err::<WaitStatus, TimelineReadError>(
                    TimelineReadError::NotActive(old(self).state),
                )
            } else if old(self).layers.gate().is_shutdown() {
                Err::<WaitStatus, TimelineReadError>(TimelineReadError::Shutdown)
            } else if lsn.0 <= old(self).last_record_lsn.0 {
                Ok::<WaitStatus, TimelineReadError>(WaitStatus::Ready)
            } else {
                Ok::<WaitStatus, TimelineReadError>(
                    WaitStatus::Queued(old(self).layers.gate().issued()),
                )
            }),
            final(self).layers.gate().issued() == (if r == Ok::<WaitStatus, TimelineReadError>(
                WaitStatus::Queued(old(self).layers.gate().issued()),
            ) {
                old(self).layers.gate().issued() + 1
            } else {
                old(self).layers.gate().issued() as int
            }),
    {
        if !self.is_active() {
            return Err(TimelineReadError::NotActive(self.state));
        }
        match self.layers.wait_for(lsn) {
            Ok(s) => Ok(s),
            Err(_) => Err(TimelineReadError::Shutdown),
        }
    }

    /// Makes the open layer historic and notes that everything up to the
    /// last record is on disk. Every read finds the same records as before.
    pub fn freeze_and_flush(&mut self)
        requires
            old(self).wf(),
        ensures
            final(self).wf(),
            final(self).disk_consistent_lsn == old(self).last_record_lsn,
            final(self).layers.gate().same_queue(&old(self).layers.gate()),
            LayerMap::flushed_from(old(self).layers, final(self).layers),
            final(self).tenant_id == old(self).tenant_id,
            final(self).timeline_id == old(self).timeline_id,
            final(self).ancestor == old(self).ancestor,
            final(self).state == old(self).state,
            final(self).last_record_lsn == old(self).last_record_lsn,
            final(self).prev_record_lsn == old(self).prev_record_lsn,
            final(self).latest_gc_cutoff_lsn == old(self).latest_gc_cutoff_lsn,
            final(self).gc_info == old(self).gc_info,
            final(self).initdb_lsn == old(self).initdb_lsn,
            final(self).pg_version == old(self).pg_version,
            final(self).has_remote_client == old(self).has_remote_client,
            final(self).delete_in_progress == old(self).delete_in_progress,
            final(self).deleted == old(self).deleted,
            final(self).creation == old(self).creation,
    {
        self.layers.force_flush();
        self.disk_consistent_lsn = self.last_record_lsn;
    }

    /// `after` is `before` shut down: its LSN gate is closed and nobody
    /// waits at it; and, if asked for, its open layer has been made historic
    /// and everything up to the last record counts as on disk.
    pub open spec fn shut_down(before: Timeline, after: Timeline, freeze_and_flush: bool) -> bool {
        &&& after.wf()
        &&& after.tenant_id == before.tenant_id
        &&& after.timeline_id == before.timeline_id
        &&& after.ancestor == before.ancestor
        &&& after.state == before.state
        &&& after.creation == before.creation
        &&& after.last_record_lsn == before.last_record_lsn
        &&& after.prev_record_lsn == before.prev_record_lsn
        &&& after.latest_gc_cutoff_lsn == before.latest_gc_cutoff_lsn
        &&& after.gc_info == before.gc_info
        &&& after.initdb_lsn == before.initdb_lsn
        &&& after.pg_version == before.pg_version
        &&& after.has_remote_client == before.has_remote_client
        &&& after.delete_in_progress == before.delete_in_progress
        &&& after.deleted == before.deleted
        &&& after.layers.gate().is_shutdown()
        &&& after.layers.gate().waiting() == Seq::<crate::seqwait::Waiter>::empty()
        &&& after.layers.capacity() == before.layers.capacity()
        &&& if freeze_and_flush {
            &&& after.disk_consistent_lsn == before.last_record_lsn
            &&& LayerMap::flushed_from(before.layers, after.layers)
        } else {
            &&& after.disk_consistent_lsn == before.disk_consistent_lsn
            &&& after.layers.open_layer() == before.layers.open_layer()
            &&& after.layers.historic() == before.layers.historic()
            &&& after.layers.next_open() == before.layers.next_open()
        }
    }

    /// Shuts the timeline down: closes its LSN gate, so that every wait
    /// fails from now on, and returns the waits that were queued; and, if
    /// asked for, flushes the open layer.
    pub fn shutdown(&mut self, freeze_and_flush: bool) -> (dropped: Vec<crate::seqwait::Waiter>)
        requires
            old(self).wf(),
        ensures
            Self::shut_down(*old(self), *final(self), freeze_and_flush),
            dropped@ == old(self).layers.gate().waiting(),
    {
        let dropped = self.layers.shutdown();
        let ghost closed = self.layers;
        if freeze_and_flush {
            self.freeze_and_flush();
            proof {
                assert(closed.open_records() == old(self).layers.open_records());
                assert forall|key: Key, lsn: Lsn| #[trigger]
                    self.layers.read_records(key, lsn) == old(self).layers.read_records(
                        key,
                        lsn,
                    ) by {
                    assert(self.layers.read_records(key, lsn) == closed.read_records(key, lsn));
                    assert(closed.read_records(key, lsn) == old(self).layers.read_records(
                        key,
                        lsn,
                    ));
                }
            }
        }
        dropped
    }

    /// Notes what garbage collection has to keep.
    pub fn update_gc_info(&mut self, retain_lsns: Vec<Lsn>, cutoff_horizon: Lsn, pitr_cutoff: Lsn)
        ensures
            final(self).gc_info.retain_lsns == retain_lsns,
            final(self).gc_info.horizon_cutoff == cutoff_horizon,
            final(self).gc_info.pitr_cutoff == pitr_cutoff,
            final(self).tenant_id == old(self).tenant_id,
            final(self).timeline_id == old(self).timeline_id,
            final(self).ancestor == old(self).ancestor,
            final(self).state == old(self).state,
            final(self).layers == old(self).layers,
            final(self).last_record_lsn == old(self).last_record_lsn,
            final(self).prev_record_lsn == old(self).prev_record_lsn,
            final(self).disk_consistent_lsn == old(self).disk_consistent_lsn,
            final(self).latest_gc_cutoff_lsn == old(self).latest_gc_cutoff_lsn,
            final(self).initdb_lsn == old(self).initdb_lsn,
            final(self).pg_version == old(self).pg_version,
            final(self).has_remote_client == old(self).has_remote_client,
            final(self).delete_in_progress == old(self).delete_in_progress,
            final(self).deleted == old(self).deleted,
            final(self).creation == old(self).creation,
    {
        self.gc_info = GcInfo { retain_lsns, horizon_cutoff: cutoff_horizon, pitr_cutoff };
    }

    /// The cutoff that the next garbage collection uses: the largest of the
    /// two planned cutoffs and of the LSNs at which other timelines branch
    /// off.
    pub open spec fn effective_gc_cutoff(&self) -> u64 {
        max_lsn(
            self.gc_info.retain_lsns@,
            if self.gc_info.horizon_cutoff.0 > self.gc_info.pitr_cutoff.0 {
                self.gc_info.horizon_cutoff.0
            } else {
                self.gc_info.pitr_cutoff.0
            },
        )
    }

    /// The cutoff that the next garbage collection uses.
    pub fn get_effective_gc_cutoff(&self) -> (r: Lsn)
        ensures
            r.0 == self.effective_gc_cutoff(),
    {
        let mut cutoff = if self.gc_info.horizon_cutoff.0 > self.gc_info.pitr_cutoff.0 {
            self.gc_info.horizon_cutoff
        } else {
            self.gc_info.pitr_cutoff
        };
        let ghost floor = cutoff.0;
        let mut i: usize = 0;
        proof {
            assert(self.gc_info.retain_lsns@.subrange(0, 0) =~= Seq::<Lsn>::empty());
        }
        while i < self.gc_info.retain_lsns.len()
            invariant
                0 <= i <= self.gc_info.retain_lsns@.len(),
                cutoff.0 == max_lsn(self.gc_info.retain_lsns@.subrange(0, i as int), floor),
            decreases self.gc_info.retain_lsns@.len() - i,
        {
            let l = self.gc_info.retain_lsns[i];
            proof {
                let next = self.gc_info.retain_lsns@.subrange(0, i + 1);
                assert(next.drop_last() =~= self.gc_info.retain_lsns@.subrange(0, i as int));
                assert(next.last() == l);
            }
            if l.0 > cutoff.0 {
                cutoff = l;
            }
            i += 1;
        }
        proof {
            assert(self.gc_info.retain_lsns@.subrange(0, self.gc_info.retain_lsns@.len() as int)
                =~= self.gc_info.retain_lsns@);
        }
        cutoff
    }

    /// Collects garbage: where the cutoff has moved on since the last
    /// collection, it becomes the latest GC cutoff, and the historic layers
    /// that end at or before it are removed. Else nothing changes.
    pub fn gc(&mut self) -> (r: GcResult)
        requires
            old(self).wf(),
        ensures
            final(self).wf(),
            Self::gc_done(*old(self), *final(self), r),
    {
        let total = self.layers.historic_len() as u64;
        let cutoff = self.get_effective_gc_cutoff();
        if cutoff.0 <= self.latest_gc_cutoff_lsn.0 {
            return GcResult { layers_total: total, layers_removed: 0 };
        }
        self.latest_gc_cutoff_lsn = cutoff;
        let removed = self.layers.remove_layers_before(cutoff);
        GcResult { layers_total: total, layers_removed: removed as u64 }
    }

    /// What a garbage collection does to a timeline.
    pub open spec fn gc_done(before: Timeline, after: Timeline, r: GcResult) -> bool {
        &&& after.layers.gate().same_queue(&before.layers.gate())
        &&& after.layers.open_layer() == before.layers.open_layer()
        &&& after.layers.next_open() == before.layers.next_open()
        &&& after.layers.capacity() == before.layers.capacity()
        &&& after.same_but_layers_and_cutoff(&before)
        &&& r.layers_total == before.layers.historic().layers().len()
        &&& before.effective_gc_cutoff() <= before.latest_gc_cutoff_lsn.0 ==> {
            &&& after.latest_gc_cutoff_lsn == before.latest_gc_cutoff_lsn
            &&& after.layers == before.layers
            &&& r.layers_removed == 0
        }
        &&& before.effective_gc_cutoff() > before.latest_gc_cutoff_lsn.0 ==> {
            &&& after.latest_gc_cutoff_lsn.0 == before.effective_gc_cutoff()
            &&& after.layers.historic().layers() == before.layers.historic().layers().filter(
                crate::historic::ends_after(Lsn(before.effective_gc_cutoff())),
            )
            &&& r.layers_removed == before.layers.historic().layers().len()
                - after.layers.historic().layers().len()
        }
    }

    /// A garbage collection loses no record at or above the cutoff that it
    /// leaves behind: a read leads to every such record that it led to
    /// before.
    pub proof fn lemma_gc_keeps_newer_records(
        before: Timeline,
        after: Timeline,
        r: GcResult,
        key: Key,
        lsn: Lsn,
    )
        requires
            before.wf(),
            after.wf(),
            Self::gc_done(before, after, r),
        ensures
            forall|i: int|
                0 <= i < before.layers.read_records(key, lsn).len() && (
                #[trigger] before.layers.read_records(key, lsn)[i]).lsn.0
                    >= after.latest_gc_cutoff_lsn.0 ==> after.layers.read_records(
                    key,
                    lsn,
                ).contains(before.layers.read_records(key, lsn)[i]),
    {
        if before.effective_gc_cutoff() > before.latest_gc_cutoff_lsn.0 {
            LayerMap::lemma_removal_keeps_newer_records(
                before.layers,
                after.layers,
                Lsn(before.effective_gc_cutoff()),
                key,
                lsn,
            );
        } else {
            let all = before.layers.read_records(key, lsn);
            assert forall|i: int| 0 <= i < all.len() implies after.layers.read_records(
                key,
                lsn,
            ).contains(#[trigger] all[i]) by {}
        }
    }

    /// Everything but what garbage collection has to keep is the same.
    pub open spec fn same_but_gc_info(&self, other: &Timeline) -> bool {
        &&& self.tenant_id == other.tenant_id
        &&& self.timeline_id == other.timeline_id
        &&& self.ancestor == other.ancestor
        &&& self.state == other.state
        &&& self.layers == other.layers
        &&& self.last_record_lsn == other.last_record_lsn
        &&& self.prev_record_lsn == other.prev_record_lsn
        &&& self.disk_consistent_lsn == other.disk_consistent_lsn
        &&& self.latest_gc_cutoff_lsn == other.latest_gc_cutoff_lsn
        &&& self.initdb_lsn == other.initdb_lsn
        &&& self.pg_version == other.pg_version
        &&& self.has_remote_client == other.has_remote_client
        &&& self.delete_in_progress == other.delete_in_progress
        &&& self.deleted == other.deleted
        &&& self.creation == other.creation
    }

    /// Everything but the layer map and the latest GC cutoff is the same.
    pub open spec fn same_but_layers_and_cutoff(&self, other: &Timeline) -> bool {
        &&& self.tenant_id == other.tenant_id
        &&& self.timeline_id == other.timeline_id
        &&& self.ancestor == other.ancestor
        &&& self.state == other.state
        &&& self.last_record_lsn == other.last_record_lsn
        &&& self.prev_record_lsn == other.prev_record_lsn
        &&& self.disk_consistent_lsn == other.disk_consistent_lsn
        &&& self.gc_info == other.gc_info
        &&& self.initdb_lsn == other.initdb_lsn
        &&& self.pg_version == other.pg_version
        &&& self.has_remote_client == other.has_remote_client
        &&& self.delete_in_progress == other.delete_in_progress
        &&& self.deleted == other.deleted
        &&& self.creation == other.creation
    }

    /// Adds to `state` what the page of `key` at `lsn` needs of this
    /// timeline: the records of the open layer, then those of the historic
    /// layers on the reconstruct path. `Complete` where an image or an
    /// initialising record was reached, else `Continue`.
    pub fn get_value_reconstruct_data(
        &self,
        key: Key,
        lsn: Lsn,
        state: &mut ValueReconstructState,
    ) -> (r: ValueReconstructResult)
        requires
            self.wf(),
        ensures
            r == ValueReconstructResult::Complete || r == ValueReconstructResult::Continue,
            state_view(*final(state), r == ValueReconstructResult::Complete) == collect(
                self.layers.read_records(key, lsn),
                state_view(*old(state), false),
            ),
    {
        let ghost start = state_view(*state, false);
        let ghost all = self.layers.read_records(key, lsn);
        let work = match self.layers.get_nowait_records(key, lsn) {
            Ok(w) => w,
            Err(_) => {
                proof {
                    assert(false);
                }
                return ValueReconstructResult::Missing;
            },
        };
        let ghost inmem = self.layers.read_inmem(key, lsn);
        let ghost path = self.layers.read_path(key, lsn);
        proof {
            assert(records_of(work.0@) =~= inmem);
            lemma_collect_concat(inmem, path_records(path, key, lsn), start);
        }
        if collect_records(&work.0, state) {
            proof {
                let got = state_view(*state, true);
                assert(collect(path_records(path, key, lsn), got) == got);
            }
            return ValueReconstructResult::Complete;
        }
        let mut i: usize = 0;
        proof {
            assert(path.subrange(0, path.len() as int) =~= path);
        }
        while i < work.1.len()
            invariant
                0 <= i <= work.1@.len(),
                work.1@ == path,
                all == self.layers.read_records(key, lsn),
                start == state_view(*old(state), false),
                collect(all, start) == collect(
                    path_records(path.subrange(i as int, path.len() as int), key, lsn),
                    state_view(*state, false),
                ),
            decreases work.1@.len() - i,
        {
            let ghost rest = path.subrange(i as int, path.len() as int);
            let ghost before = state_view(*state, false);
            let layer = &work.1[i];
            let records = layer.get_records(key, lsn);
            proof {
                assert(rest.first() == path[i as int]);
                assert(rest.drop_first() =~= path.subrange(i + 1, path.len() as int));
                let these = crate::inmem::records_upto(layer.records@, key, lsn);
                assert(records_of(records@) =~= these);
                lemma_collect_concat(these, path_records(rest.drop_first(), key, lsn), before);
            }
            if collect_records(&records, state) {
                proof {
                    let got = state_view(*state, true);
                    assert(collect(path_records(rest.drop_first(), key, lsn), got) == got);
                }
                return ValueReconstructResult::Complete;
            }
            i += 1;
        }
        proof {
            assert(path.subrange(path.len() as int, path.len() as int) =~= Seq::<
                Arc<HistoricLayer<Value>>,
            >::empty());
        }
        ValueReconstructResult::Continue
    }
}

} // verus!
