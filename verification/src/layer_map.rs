//! The layer map: the open in-memory layer and the historic layers of a
//! timeline behind one gate on the last ingested LSN.

use crate::historic::all_end_by;
use crate::historic::path_upto;
use crate::historic::GetReconstructPathError;
use crate::historic::HistoricLayer;
use crate::historic::HistoricStuff;
use crate::inmem::records_upto;
use crate::inmem::InMemoryLayer;
use crate::inmem::InMemoryLayerPutError;
use crate::inmem::Record;
use crate::lsn::Key;
use crate::lsn::Lsn;
use crate::seqwait::SeqWait;
use crate::seqwait::SeqWaitError;
use crate::seqwait::WaitStatus;
use crate::seqwait::Waited;
use crate::seqwait::Waiter;
use std::sync::Arc;
use vstd::prelude::*;

verus! {

/// Why a read could not be answered.
#[derive(Clone, Copy, Debug, PartialEq, Eq, Structural)]
pub enum GetError {
    SeqWait(SeqWaitError),
    GetReconstructPath(GetReconstructPathError),
}

/// Why a record was not ingested.
#[derive(Clone, Copy, Debug, PartialEq, Eq, Structural)]
pub enum PutError {
    /// There is a record for this key at this LSN already.
    AlreadyHaveRecordForKeyAndLsn,
    /// The open layer is full and cannot give way to a new one: it holds
    /// records at this very LSN, and a layer ends between two LSNs; or the
    /// layers of this map take no record at all.
    LayerFull,
}

/// What a read found: the records of the open layer for the key, the newest
/// first, and the historic layers to visit after them.
pub struct ReconstructWork<'a, D> {
    pub key: Key,
    pub lsn: Lsn,
    pub inmem_records: Vec<&'a D>,
    pub historic_path: Vec<Arc<HistoricLayer<D>>>,
}

/// What became of a record that was put.
#[derive(Clone, Copy, Debug, PartialEq, Eq, Structural)]
pub enum PutOutcome {
    /// The open layer took the record.
    Stored,
    /// The open layer was full. It was frozen and made historic, and the
    /// record is the first of a new open layer.
    Rotated,
}

/// The answer to a `put` that did not fail: what became of the record, and
/// the waits that the new LSN has ended.
pub struct Ingested {
    pub outcome: PutOutcome,
    pub woken: Vec<Waiter>,
}

/// The answer to a read that may have to wait.
pub enum GetOutcome<'a, D> {
    /// The LSN has been ingested.
    Ready(ReconstructWork<'a, D>),
    /// The LSN lies ahead: the read is queued under this id, to be asked
    /// again when `put` hands the id back.
    Waiting(u64),
}

/// The records that the layers of `path` hold for `key` up to `lsn`, layer
/// by layer, in each the newest first.
pub open spec fn path_records<D>(path: Seq<Arc<HistoricLayer<D>>>, key: Key, lsn: Lsn) -> Seq<
    Record<D>,
>
    decreases path.len(),
{
    if path.len() == 0 {
        Seq::empty()
    } else {
        records_upto(path.first().records@, key, lsn) + path_records(path.drop_first(), key, lsn)
    }
}

/// Each layer of `path` begins where the next one has ended, or later.
pub open spec fn stacked<D>(path: Seq<Arc<HistoricLayer<D>>>) -> bool {
    forall|i: int, j: int|
        0 <= i < j < path.len() ==> (#[trigger] path[i]).lsn_range.start.0 >= (
        #[trigger] path[j]).lsn_range.end.0
}

/// `r` is a record of one of the layers of `path`.
pub open spec fn from_layer_of<D>(path: Seq<Arc<HistoricLayer<D>>>, r: Record<D>) -> bool {
    exists|p: int| 0 <= p < path.len() && (#[trigger] path[p]).records@.contains(r)
}

/// The layers on a reconstruct path are well formed and stacked: each begins
/// where the next one has ended, or later.
pub proof fn lemma_path_is_stacked<D>(layers: Seq<Arc<HistoricLayer<D>>>, key: Key, lsn: Lsn)
    requires
        crate::historic::all_wf(layers),
        crate::historic::start_ordered(layers),
        crate::historic::pairwise_disjoint(layers),
    ensures
        crate::historic::all_wf(path_upto(layers, key, lsn)),
        stacked(path_upto(layers, key, lsn)),
{
    let path = path_upto(layers, key, lsn);
    crate::historic::lemma_path_upto(layers, key, lsn);
    assert forall|i: int| 0 <= i < path.len() implies (#[trigger] path[i]).wf() by {
        assert(layers.contains(path[i]));
        let a = choose|a: int| 0 <= a < layers.len() && layers[a] == path[i];
        assert(layers[a].wf());
    }
    assert forall|i: int, j: int| 0 <= i < j < path.len() implies (
    #[trigger] path[i]).lsn_range.start.0 >= (#[trigger] path[j]).lsn_range.end.0 by {
        assert(layers.contains(path[i]) && layers.contains(path[j]));
        let a = choose|a: int| 0 <= a < layers.len() && layers[a] == path[i];
        let b = choose|b: int| 0 <= b < layers.len() && layers[b] == path[j];
        assert(path[i].covers(key, lsn) && path[j].covers(key, lsn));
        assert(path[i].lsn_range.start.0 > path[j].lsn_range.start.0);
        if a < b {
            crate::historic::lemma_covering_layers_stack(layers, a, b, key, lsn);
            assert(layers[a].wf());
        } else {
            crate::historic::lemma_covering_layers_stack(layers, b, a, key, lsn);
        }
    }
}

/// The records that a stack of layers gives for a key come by strictly
/// falling LSN, all for the key and up to the LSN asked, and none of them
/// reaches the end of the first layer; and no such record of a layer of the
/// stack is missing.
pub proof fn lemma_path_records<D>(path: Seq<Arc<HistoricLayer<D>>>, key: Key, lsn: Lsn)
    requires
        crate::historic::all_wf(path),
        stacked(path),
    ensures
        forall|i: int, j: int|
            0 <= i < j < path_records(path, key, lsn).len() ==> (#[trigger] path_records(
                path,
                key,
                lsn,
            )[i]).lsn.0 > (#[trigger] path_records(path, key, lsn)[j]).lsn.0,
        forall|i: int|
            0 <= i < path_records(path, key, lsn).len() ==> {
                let r = #[trigger] path_records(path, key, lsn)[i];
                r.key == key && r.lsn.0 <= lsn.0 && r.lsn.0 < path[0].lsn_range.end.0
            },
        forall|p: int, k: int|
            0 <= p < path.len() && 0 <= k < (#[trigger] path[p]).records@.len() && (
            #[trigger] path[p].records@[k]).key == key && path[p].records@[k].lsn.0 <= lsn.0
                ==> path_records(path, key, lsn).contains(path[p].records@[k]),
        forall|i: int|
            0 <= i < path_records(path, key, lsn).len() ==> from_layer_of(
                path,
                #[trigger] path_records(path, key, lsn)[i],
            ),
    decreases path.len(),
{
    let all = path_records(path, key, lsn);
    if path.len() > 0 {
        let first = path.first();
        let rest = path.drop_first();
        let head = records_upto(first.records@, key, lsn);
        let tail = path_records(rest, key, lsn);
        assert(path[0] == first);
        assert(first.wf());
        assert forall|i: int| 0 <= i < rest.len() implies (#[trigger] rest[i]).wf() by {
            assert(rest[i] == path[i + 1]);
        }
        assert forall|i: int, j: int| 0 <= i < j < rest.len() implies (
        #[trigger] rest[i]).lsn_range.start.0 >= (#[trigger] rest[j]).lsn_range.end.0 by {
            assert(rest[i] == path[i + 1] && rest[j] == path[j + 1]);
        }
        lemma_path_records(rest, key, lsn);
        crate::inmem::lemma_records_upto(first.records@, key, lsn);
        assert forall|i: int| 0 <= i < all.len() implies {
            let r = #[trigger] all[i];
            r.key == key && r.lsn.0 <= lsn.0 && r.lsn.0 < path[0].lsn_range.end.0
                && (i < head.len() ==> r.lsn.0 >= first.lsn_range.start.0) && (i >= head.len()
                ==> r.lsn.0 < first.lsn_range.start.0)
        } by {
            if i < head.len() {
                assert(all[i] == head[i]);
                assert(first.records@.contains(head[i]));
                let k = choose|k: int| 0 <= k < first.records@.len() && first.records@[k]
                    == head[i];
                assert(first.records@[k].lsn.0 < first.lsn_range.end.0);
            } else {
                assert(all[i] == tail[i - head.len()]);
                assert(rest.len() > 0);
                assert(rest[0] == path[1]);
                assert(path[0].lsn_range.start.0 >= path[1].lsn_range.end.0);
            }
        }
        assert forall|i: int, j: int| 0 <= i < j < all.len() implies (#[trigger] all[i]).lsn.0 > (
        #[trigger] all[j]).lsn.0 by {
            if j < head.len() {
                assert(all[i] == head[i] && all[j] == head[j]);
            } else if i >= head.len() {
                assert(all[i] == tail[i - head.len()] && all[j] == tail[j - head.len()]);
            }
        }
        assert forall|i: int| 0 <= i < all.len() implies from_layer_of(path, #[trigger] all[i]) by {
            if i < head.len() {
                assert(all[i] == head[i]);
                assert(first.records@.contains(head[i]));
                assert(path[0].records@.contains(all[i]));
            } else {
                let r = tail[i - head.len()];
                assert(all[i] == r);
                assert(from_layer_of(rest, r));
                let p = choose|p: int| 0 <= p < rest.len() && (#[trigger] rest[p]).records@.contains(r);
                assert(rest[p] == path[p + 1]);
                assert(path[p + 1].records@.contains(r));
            }
        }
        assert forall|p: int, k: int|
            0 <= p < path.len() && 0 <= k < (#[trigger] path[p]).records@.len() && (
            #[trigger] path[p].records@[k]).key == key && path[p].records@[k].lsn.0
                <= lsn.0 implies all.contains(path[p].records@[k]) by {
            let r = path[p].records@[k];
            if p == 0 {
                assert(head.contains(r));
                let i = choose|i: int| 0 <= i < head.len() && head[i] == r;
                assert(all[i] == r);
            } else {
                assert(rest[p - 1] == path[p]);
                assert(tail.contains(rest[p - 1].records@[k]));
                let i = choose|i: int| 0 <= i < tail.len() && tail[i] == r;
                assert(all[head.len() + i] == r);
            }
        }
    }
}

/// One version of what the map holds, published as a whole.
pub struct LayerMap<D> {
    /// The last ingested LSN, published together with the historic layers.
    gate: SeqWait<HistoricStuff<D>>,
    open_inmem: Option<InMemoryLayer<D>>,
    /// Where the open layer begins, or will begin: no historic layer reaches
    /// beyond it.
    next_open_lsn: Lsn,
    layer_capacity: usize,
}

impl<D> LayerMap<D> {
    /// The LSN gate on the last ingested LSN.
    pub closed spec fn gate(&self) -> SeqWait<HistoricStuff<D>> {
        self.gate
    }

    /// The open in-memory layer, if there is one.
    pub closed spec fn open_layer(&self) -> Option<InMemoryLayer<D>> {
        self.open_inmem
    }

    /// The historic layers: the state that the LSN gate publishes.
    pub open spec fn historic(&self) -> HistoricStuff<D> {
        self.gate().data()
    }

    /// The LSN from which on records are taken: no historic layer reaches
    /// beyond it.
    pub closed spec fn next_open(&self) -> Lsn {
        self.next_open_lsn
    }

    /// How many records an in-memory layer of this map takes.
    pub closed spec fn capacity(&self) -> usize {
        self.layer_capacity
    }

    /// The last ingested LSN.
    pub open spec fn last_ingested(&self) -> Lsn {
        self.gate().current_lsn()
    }

    /// The records of the open layer, by rising LSN.
    pub open spec fn open_records(&self) -> Seq<Record<D>> {
        match self.open_layer() {
            Some(l) => l.records(),
            None => Seq::empty(),
        }
    }

    /// What holds of every layer map: its parts are well formed, the open
    /// layer is not frozen, no historic layer reaches beyond the start of the
    /// open one, and the records of the open layer lie between that start and
    /// the last ingested LSN.
    pub open spec fn wf(&self) -> bool {
        &&& self.gate().wf()
        &&& self.historic().wf()
        &&& all_end_by(self.historic().layers(), self.next_open())
        &&& match self.open_layer() {
            Some(l) => l.wf() && !l.is_frozen() && l.capacity() == self.capacity(),
            None => true,
        }
        &&& forall|i: int|
            0 <= i < self.open_records().len() ==> {
                let r = #[trigger] self.open_records()[i];
                &&& self.next_open().0 <= r.lsn.0 <= self.last_ingested().0
                &&& r.lsn.0 < u64::MAX
                &&& r.key.0 < u64::MAX
            }
    }

    /// The records of the open layer that a read of `key` at `lsn` sees.
    pub open spec fn read_inmem(&self, key: Key, lsn: Lsn) -> Seq<Record<D>> {
        records_upto(self.open_records(), key, lsn)
    }

    /// The historic layers that a read of `key` at `lsn` visits.
    pub open spec fn read_path(&self, key: Key, lsn: Lsn) -> Seq<Arc<HistoricLayer<D>>> {
        path_upto(self.historic().layers(), key, lsn)
    }

    /// All the records that a read of `key` at `lsn` leads to: those of the
    /// open layer, then those of the historic layers on its path.
    pub open spec fn read_records(&self, key: Key, lsn: Lsn) -> Seq<Record<D>> {
        self.read_inmem(key, lsn) + path_records(self.read_path(key, lsn), key, lsn)
    }

    /// What a read leads to is complete and in order: the records come by
    /// strictly falling LSN, all for the key and up to the LSN asked; no such
    /// record of the open layer is missing, nor one of a historic layer on
    /// the reconstruct path; and that path holds every historic layer that
    /// covers the read, down to the newest image layer.
    pub proof fn lemma_read_is_complete(&self, key: Key, lsn: Lsn)
        requires
            self.wf(),
        ensures
            forall|i: int, j: int|
                0 <= i < j < self.read_records(key, lsn).len() ==> (#[trigger] self.read_records(
                    key,
                    lsn,
                )[i]).lsn.0 > (#[trigger] self.read_records(key, lsn)[j]).lsn.0,
            forall|i: int|
                0 <= i < self.read_records(key, lsn).len() ==> (#[trigger] self.read_records(
                    key,
                    lsn,
                )[i]).key == key && self.read_records(key, lsn)[i].lsn.0 <= lsn.0,
            forall|k: int|
                0 <= k < self.open_records().len() && (#[trigger] self.open_records()[k]).key == key
                    && self.open_records()[k].lsn.0 <= lsn.0 ==> self.read_records(
                    key,
                    lsn,
                ).contains(self.open_records()[k]),
            forall|p: int, k: int|
                0 <= p < self.read_path(key, lsn).len() && 0 <= k < (#[trigger] self.read_path(
                    key,
                    lsn,
                )[p]).records@.len() && (#[trigger] self.read_path(key, lsn)[p].records@[k]).key
                    == key && self.read_path(key, lsn)[p].records@[k].lsn.0 <= lsn.0
                    ==> self.read_records(key, lsn).contains(
                    self.read_path(key, lsn)[p].records@[k],
                ),
            forall|k: int|
                0 <= k < self.historic().layers().len() && (
                #[trigger] self.historic().layers()[k]).covers(key, lsn) ==> {
                    let p = self.read_path(key, lsn);
                    p.contains(self.historic().layers()[k]) || (p.len() > 0 && !p.last().is_delta
                        && self.historic().layers()[k].lsn_range.start.0
                        < p.last().lsn_range.start.0)
                },
    {
        let layers = self.historic().layers();
        let path = self.read_path(key, lsn);
        let inmem = self.read_inmem(key, lsn);
        let hist = path_records(path, key, lsn);
        let all = self.read_records(key, lsn);
        crate::historic::lemma_path_upto(layers, key, lsn);
        crate::inmem::lemma_records_upto(self.open_records(), key, lsn);
        lemma_path_is_stacked(layers, key, lsn);
        assert forall|i: int| 0 <= i < path.len() implies (#[trigger] path[i]).lsn_range.end.0
            <= self.next_open().0 by {
            assert(layers.contains(path[i]));
            let a = choose|a: int| 0 <= a < layers.len() && layers[a] == path[i];
            assert(layers[a].lsn_range.end.0 <= self.next_open().0);
        }
        lemma_path_records(path, key, lsn);
        assert forall|i: int| 0 <= i < all.len() implies (#[trigger] all[i]).key == key
            && all[i].lsn.0 <= lsn.0 && (i < inmem.len() ==> all[i].lsn.0 >= self.next_open().0)
            && (i >= inmem.len() ==> all[i].lsn.0 < self.next_open().0) by {
            if i < inmem.len() {
                assert(all[i] == inmem[i]);
                assert(self.open_records().contains(inmem[i]));
                let k = choose|k: int|
                    0 <= k < self.open_records().len() && self.open_records()[k] == inmem[i];
                assert(self.open_records()[k].lsn.0 >= self.next_open().0);
            } else {
                assert(all[i] == hist[i - inmem.len()]);
                assert(path.len() > 0);
                assert(path[0].lsn_range.end.0 <= self.next_open().0);
            }
        }
        assert forall|i: int, j: int| 0 <= i < j < all.len() implies (#[trigger] all[i]).lsn.0 > (
        #[trigger] all[j]).lsn.0 by {
            if j < inmem.len() {
                assert(all[i] == inmem[i] && all[j] == inmem[j]);
            } else if i >= inmem.len() {
                assert(all[i] == hist[i - inmem.len()] && all[j] == hist[j - inmem.len()]);
            }
        }
        assert forall|k: int|
            0 <= k < self.open_records().len() && (#[trigger] self.open_records()[k]).key == key
                && self.open_records()[k].lsn.0 <= lsn.0 implies all.contains(
            self.open_records()[k],
        ) by {
            assert(inmem.contains(self.open_records()[k]));
            let i = choose|i: int| 0 <= i < inmem.len() && inmem[i] == self.open_records()[k];
            assert(all[i] == inmem[i]);
        }
        assert forall|p: int, k: int|
            0 <= p < path.len() && 0 <= k < (#[trigger] path[p]).records@.len() && (
            #[trigger] path[p].records@[k]).key == key && path[p].records@[k].lsn.0
                <= lsn.0 implies all.contains(path[p].records@[k]) by {
            assert(hist.contains(path[p].records@[k]));
            let i = choose|i: int| 0 <= i < hist.len() && hist[i] == path[p].records@[k];
            assert(all[inmem.len() + i] == hist[i]);
        }
    }

    /// The open layer of a layer map is never frozen: a `put` cannot meet a
    /// frozen layer.
    pub proof fn lemma_open_layer_is_open(&self)
        requires
            self.wf(),
        ensures
            match self.open_layer() {
                Some(l) => !l.is_frozen(),
                None => true,
            },
    {
    }

    /// Removing the historic layers that end at or before a cutoff loses no
    /// record at or above the cutoff: a read then leads to every such record
    /// that it led to before.
    pub proof fn lemma_removal_keeps_newer_records(
        before: LayerMap<D>,
        after: LayerMap<D>,
        cutoff: Lsn,
        key: Key,
        lsn: Lsn,
    )
        requires
            before.wf(),
            after.wf(),
            after.open_layer() == before.open_layer(),
            after.historic().layers() == before.historic().layers().filter(
                crate::historic::ends_after(cutoff),
            ),
        ensures
            forall|i: int|
                0 <= i < before.read_records(key, lsn).len() && (#[trigger] before.read_records(
                    key,
                    lsn,
                )[i]).lsn.0 >= cutoff.0 ==> after.read_records(key, lsn).contains(
                    before.read_records(key, lsn)[i],
                ),
    {
        let keep = crate::historic::ends_after::<D>(cutoff);
        let old_path = before.read_path(key, lsn);
        let new_path = after.read_path(key, lsn);
        let inmem = before.read_inmem(key, lsn);
        let old_all = before.read_records(key, lsn);
        let new_all = after.read_records(key, lsn);
        let new_hist = path_records(new_path, key, lsn);
        crate::historic::lemma_path_after_removal(before.historic().layers(), cutoff, key, lsn);
        assert(new_path == old_path.filter(keep));
        lemma_path_is_stacked(before.historic().layers(), key, lsn);
        lemma_path_is_stacked(after.historic().layers(), key, lsn);
        lemma_path_records(old_path, key, lsn);
        lemma_path_records(new_path, key, lsn);
        assert(after.read_inmem(key, lsn) == inmem);
        assert forall|i: int| 0 <= i < old_all.len() && (#[trigger] old_all[i]).lsn.0
            >= cutoff.0 implies new_all.contains(old_all[i]) by {
            let r = old_all[i];
            if i < inmem.len() {
                assert(new_all[i] == r);
            } else {
                let old_hist = path_records(old_path, key, lsn);
                assert(old_hist[i - inmem.len()] == r);
                assert(from_layer_of(old_path, r));
                let p = choose|p: int|
                    0 <= p < old_path.len() && (#[trigger] old_path[p]).records@.contains(r);
                let k = choose|k: int|
                    0 <= k < old_path[p].records@.len() && old_path[p].records@[k] == r;
                assert(old_path[p].wf());
                assert(old_path[p].records@[k].lsn.0 < old_path[p].lsn_range.end.0);
                assert(keep(old_path[p]));
                old_path.lemma_filter_contains(keep, p);
                let q = choose|q: int| 0 <= q < new_path.len() && new_path[q] == old_path[p];
                assert(new_path[q].records@[k] == r);
                assert(r.key == key && r.lsn.0 <= lsn.0);
                assert(new_hist.contains(new_path[q].records@[k]));
                let j = choose|j: int| 0 <= j < new_hist.len() && new_hist[j] == r;
                assert(new_all[inmem.len() + j] == r);
            }
        }
    }

    /// The last ingested LSN.
    pub fn last_ingested_lsn(&self) -> (r: Lsn)
        ensures
            r == self.last_ingested(),
    {
        self.gate.current()
    }

    /// The LSN from which on records are taken.
    pub fn next_open_lsn(&self) -> (r: Lsn)
        ensures
            r == self.next_open(),
    {
        self.next_open_lsn
    }

    /// Whether the LSN gate has been closed.
    pub fn is_closed(&self) -> (r: bool)
        ensures
            r == self.gate().is_shutdown(),
    {
        self.gate.is_closed()
    }

    /// How many waits the LSN gate has queued so far. A wait can be queued
    /// only while this is not the largest number.
    pub fn waits_issued(&self) -> (r: u64)
        ensures
            r == self.gate().issued(),
    {
        self.gate.issued_count()
    }

    /// Whether there is an open in-memory layer.
    pub fn has_open_layer(&self) -> (r: bool)
        ensures
            r == self.open_layer() is Some,
    {
        self.open_inmem.is_some()
    }

    /// How many historic layers the map holds.
    pub fn historic_len(&self) -> (n: usize)
        ensures
            n == self.historic().layers().len(),
    {
        self.gate.get_current_data().len()
    }

    /// The historic layers.
    pub fn historic_layers(&self) -> (h: &HistoricStuff<D>)
        ensures
            *h == self.historic(),
    {
        self.gate.get_current_data()
    }

    /// Whether a `put` at `lsn` is in order: `lsn` lies neither behind the
    /// last ingested LSN nor within the historic layers, and is not the last
    /// LSN there is.
    pub fn accepts(&self, lsn: Lsn) -> (r: bool)
        ensures
            r == (lsn.0 >= self.last_ingested().0 && lsn.0 >= self.next_open().0 && lsn.0
                < u64::MAX),
    {
        lsn.0 >= self.gate.current().0 && lsn.0 >= self.next_open_lsn.0 && lsn.0 < u64::MAX
    }

    /// What a read of `key` at `lsn` finds in the map as it is now, whether
    /// or not `lsn` has been ingested. Never fails.
    pub fn get_nowait(&self, key: Key, lsn: Lsn) -> (r: Result<ReconstructWork<'_, D>, GetError>)
        requires
            self.wf(),
        ensures
            r is Ok,
            Self::is_work_of(*self, r.unwrap(), key, lsn),
    {
        let inmem_records = match &self.open_inmem {
            Some(l) => l.get(key, lsn),
            None => Vec::new(),
        };
        match self.gate.get_current_data().get_reconstruct_path(key, lsn) {
            Ok(historic_path) => Ok(ReconstructWork { key, lsn, inmem_records, historic_path }),
            Err(e) => Err(GetError::GetReconstructPath(e)),
        }
    }

    /// What a read of `key` at `lsn` finds in the map as it is now: the
    /// records of the open layer, each with its LSN, and the reconstruct
    /// path. Never fails.
    pub fn get_nowait_records(&self, key: Key, lsn: Lsn) -> (r: Result<
        (Vec<&Record<D>>, Vec<Arc<HistoricLayer<D>>>),
        GetError,
    >)
        requires
            self.wf(),
        ensures
            r is Ok,
            r.unwrap().0@.len() == self.read_inmem(key, lsn).len(),
            forall|i: int|
                0 <= i < r.unwrap().0@.len() ==> *(#[trigger] r.unwrap().0@[i]) == self.read_inmem(
                    key,
                    lsn,
                )[i],
            r.unwrap().1@ == self.read_path(key, lsn),
    {
        let inmem_records = match &self.open_inmem {
            Some(l) => l.get_records(key, lsn),
            None => Vec::new(),
        };
        match self.gate.get_current_data().get_reconstruct_path(key, lsn) {
            Ok(historic_path) => Ok((inmem_records, historic_path)),
            Err(e) => Err(GetError::GetReconstructPath(e)),
        }
    }

    /// How many records an in-memory layer of this map takes.
    pub fn layer_capacity(&self) -> (r: usize)
        ensures
            r == self.capacity(),
    {
        self.layer_capacity
    }

    /// `work` is what a read of `key` at `lsn` finds in `map`.
    pub open spec fn is_work_of(
        map: LayerMap<D>,
        work: ReconstructWork<'_, D>,
        key: Key,
        lsn: Lsn,
    ) -> bool {
        &&& work.key == key
        &&& work.lsn == lsn
        &&& work.inmem_records@.len() == map.read_inmem(key, lsn).len()
        &&& forall|i: int|
            0 <= i < work.inmem_records@.len() ==> *(#[trigger] work.inmem_records@[i])
                == map.read_inmem(key, lsn)[i].delta
        &&& work.historic_path@ == map.read_path(key, lsn)
    }

    /// Asks the LSN gate for `lsn`: `Ready` where it has been ingested, else the
    /// id under which the wait is queued; `Shutdown` on a closed gate.
    pub fn wait_for(&mut self, lsn: Lsn) -> (r: Result<WaitStatus, GetError>)
        requires
            old(self).wf(),
            old(self).gate().issued() < u64::MAX,
        ensures
            final(self).wf(),
            final(self).open_layer() == old(self).open_layer(),
            final(self).historic() == old(self).historic(),
            final(self).next_open() == old(self).next_open(),
            final(self).capacity() == old(self).capacity(),
            final(self).last_ingested() == old(self).last_ingested(),
            final(self).gate().is_shutdown() == old(self).gate().is_shutdown(),
            old(self).gate().is_shutdown() ==> r == Err::<WaitStatus, GetError>(
                GetError::SeqWait(SeqWaitError::Shutdown),
            ) && final(self).gate().waiting() == old(self).gate().waiting(),
            !old(self).gate().is_shutdown() && lsn.0 <= old(self).last_ingested().0 ==> r == Ok::<
                WaitStatus,
                GetError,
            >(WaitStatus::Ready) && final(self).gate().waiting() == old(self).gate().waiting(),
            !old(self).gate().is_shutdown() && lsn.0 > old(self).last_ingested().0 ==> r == Ok::<
                WaitStatus,
                GetError,
            >(WaitStatus::Queued(old(self).gate().issued()))
                && final(self).gate().waiting().to_multiset()
                == old(self).gate().waiting().to_multiset().insert(
                Waiter { id: old(self).gate().issued(), target: lsn },
            ),
            final(self).gate().issued() == (if r == Ok::<WaitStatus, GetError>(
                WaitStatus::Queued(old(self).gate().issued()),
            ) {
                old(self).gate().issued() + 1
            } else {
                old(self).gate().issued() as int
            }),
    {
        let r = match self.gate.wait_for(lsn) {
            Ok(Waited::Ready(_)) => Ok(WaitStatus::Ready),
            Ok(Waited::Queued(id)) => Ok(WaitStatus::Queued(id)),
            Err(e) => Err(GetError::SeqWait(e)),
        };
        proof {
            assert(self.open_records() == old(self).open_records());
        }
        r
    }

    /// Reads `key` at `lsn` once `lsn` has been ingested. Where it has not,
    /// the read is queued at the LSN gate and `Waiting` names the wait; the read
    /// is to be asked again when a `put` hands that wait back, or to be
    /// withdrawn with `cancel_wait`. On a closed gate the answer is
    /// `Shutdown`.
    pub fn get(&mut self, key: Key, lsn: Lsn) -> (r: Result<GetOutcome<'_, D>, GetError>)
        requires
            old(self).wf(),
            old(self).gate().issued() < u64::MAX,
        ensures
            final(self).wf(),
            final(self).open_layer() == old(self).open_layer(),
            final(self).historic() == old(self).historic(),
            final(self).next_open() == old(self).next_open(),
            final(self).capacity() == old(self).capacity(),
            final(self).last_ingested() == old(self).last_ingested(),
            final(self).gate().is_shutdown() == old(self).gate().is_shutdown(),
            match r {
                Err(e) => old(self).gate().is_shutdown() && e == GetError::SeqWait(
                    SeqWaitError::Shutdown,
                ) && final(self).gate().waiting() == old(self).gate().waiting()
                    && final(self).gate().issued() == old(self).gate().issued(),
                Ok(GetOutcome::Ready(work)) => {
                    &&& !old(self).gate().is_shutdown()
                    &&& lsn.0 <= old(self).last_ingested().0
                    &&& final(self).gate().waiting() == old(self).gate().waiting()
                    &&& final(self).gate().issued() == old(self).gate().issued()
                    &&& Self::is_work_of(*old(self), work, key, lsn)
                },
                Ok(GetOutcome::Waiting(id)) => {
                    &&& !old(self).gate().is_shutdown()
                    &&& lsn.0 > old(self).last_ingested().0
                    &&& id == old(self).gate().issued()
                    &&& final(self).gate().issued() == old(self).gate().issued() + 1
                    &&& final(self).gate().waiting().to_multiset()
                        == old(self).gate().waiting().to_multiset().insert(Waiter { id,
                        target: lsn })
                },
            },
    {
        match self.wait_for(lsn) {
            Err(e) => Err(e),
            Ok(WaitStatus::Queued(id)) => Ok(GetOutcome::Waiting(id)),
            Ok(WaitStatus::Ready) => {
                proof {
                    assert(self.open_records() == old(self).open_records());
                }
                match self.get_nowait(key, lsn) {
                    Ok(work) => Ok(GetOutcome::Ready(work)),
                    Err(e) => {
                        proof {
                            assert(false);
                        }
                        Err(e)
                    },
                }
            },
        }
    }

    /// Closes the LSN gate: every wait from now on fails with `Shutdown`. Returns
    /// the waits that were queued.
    pub fn shutdown(&mut self) -> (dropped: Vec<Waiter>)
        requires
            old(self).wf(),
        ensures
            final(self).wf(),
            final(self).gate().is_shutdown(),
            final(self).gate().waiting() == Seq::<Waiter>::empty(),
            final(self).gate().issued() == old(self).gate().issued(),
            final(self).open_layer() == old(self).open_layer(),
            final(self).historic() == old(self).historic(),
            final(self).next_open() == old(self).next_open(),
            final(self).capacity() == old(self).capacity(),
            final(self).last_ingested() == old(self).last_ingested(),
            dropped@ == old(self).gate().waiting(),
    {
        let dropped = self.gate.shutdown();
        proof {
            assert(self.open_records() == old(self).open_records());
        }
        dropped
    }

    /// Withdraws the wait queued under `id`. Nothing else changes.
    pub fn cancel_wait(&mut self, id: u64) -> (r: bool)
        requires
            old(self).wf(),
        ensures
            final(self).wf(),
            final(self).open_layer() == old(self).open_layer(),
            final(self).historic() == old(self).historic(),
            final(self).next_open() == old(self).next_open(),
            final(self).capacity() == old(self).capacity(),
            final(self).last_ingested() == old(self).last_ingested(),
            final(self).gate().issued() == old(self).gate().issued(),
            final(self).gate().is_shutdown() == old(self).gate().is_shutdown(),
            r == !SeqWait::<HistoricStuff<D>>::id_free(old(self).gate().waiting(), id),
            !r ==> final(self).gate().waiting() == old(self).gate().waiting(),
            r ==> exists|i: int|
                0 <= i < old(self).gate().waiting().len()
                    && (#[trigger] old(self).gate().waiting()[i]).id == id
                    && final(self).gate().waiting() == old(self).gate().waiting().remove(i),
    {
        let r = self.gate.cancel(id);
        proof {
            assert(self.open_records() == old(self).open_records());
        }
        r
    }

    /// A record at `lsn` for `key` can be taken: it does not lie before
    /// what has been ingested nor within the historic layers.
    pub open spec fn takes(&self, key: Key, lsn: Lsn) -> bool {
        &&& lsn.0 >= self.last_ingested().0
        &&& lsn.0 >= self.next_open().0
        &&& lsn.0 < u64::MAX
        &&& key.0 < u64::MAX
    }

    /// The open layer can give way to a new one that begins with a record
    /// at `lsn`: it holds records, all of them before `lsn`, and a layer of
    /// this map takes a record at all.
    pub open spec fn can_rotate(&self, lsn: Lsn) -> bool {
        &&& self.capacity() > 0
        &&& self.open_records().len() > 0
        &&& self.open_records().last().lsn.0 < lsn.0
    }

    /// `after` is `before` with its open layer made historic and `rec` as
    /// the one record of a new open layer: the historic layers are those of
    /// `before` and, as the newest, a delta layer over all keys with the
    /// records of the old open layer; and every read leads to the same
    /// records as before, after `rec` where the read reaches it.
    pub open spec fn rotated_from(before: LayerMap<D>, after: LayerMap<D>, rec: Record<D>) -> bool {
        &&& after.capacity() == before.capacity()
        &&& after.open_records() == seq![rec]
        &&& after.next_open().0 == before.open_records().last().lsn.0 + 1
        &&& exists|vec: Vec<Record<D>>| #[trigger]
            HistoricStuff::<D>::flush_pushed(
                after.historic().layers(),
                before.historic().layers(),
                before.open_records(),
                vec,
            )
        &&& forall|key: Key, lsn: Lsn| #[trigger]
            after.read_records(key, lsn) == records_upto(seq![rec], key, lsn)
                + before.read_records(key, lsn)
    }

    /// No two historic layers of a layer map overlap, and none reaches into
    /// the LSNs of the open layer.
    pub proof fn lemma_layers_lie_apart(&self, i: int, j: int)
        requires
            self.wf(),
            0 <= i < self.historic().layers().len(),
            0 <= j < self.historic().layers().len(),
            i != j,
        ensures
            !crate::historic::rect_overlaps(
                *self.historic().layers()[i],
                self.historic().layers()[j].key_range,
                self.historic().layers()[j].lsn_range,
            ),
            forall|k: int|
                0 <= k < self.open_records().len() ==> self.historic().layers()[i].lsn_range.end.0
                    <= (#[trigger] self.open_records()[k]).lsn.0,
    {
        crate::historic::lemma_no_overlap(self.historic().layers(), i, j);
    }

    /// `after` is `before` with `rec` added to its open layer.
    pub open spec fn stored_into(before: LayerMap<D>, after: LayerMap<D>, rec: Record<D>) -> bool {
        &&& after.historic() == before.historic()
        &&& exists|at: int|
            0 <= at <= before.open_records().len() && #[trigger] after.open_records()
                == before.open_records().insert(at, rec)
    }

    /// What has been ingested is only added to: after a `put` that was
    /// accepted, with or without a new open layer, the record is read at its
    /// key from its LSN on, and every read leads to every record that it led
    /// to before.
    pub proof fn lemma_put_only_adds(
        before: LayerMap<D>,
        after: LayerMap<D>,
        rec: Record<D>,
        key: Key,
        lsn: Lsn,
    )
        requires
            before.wf(),
            after.wf(),
            Self::stored_into(before, after, rec) || Self::rotated_from(before, after, rec),
        ensures
            forall|i: int|
                0 <= i < before.read_records(key, lsn).len() ==> after.read_records(
                    key,
                    lsn,
                ).contains(#[trigger] before.read_records(key, lsn)[i]),
            rec.key == key && rec.lsn.0 <= lsn.0 ==> after.read_records(key, lsn).contains(rec),
    {
        let old_all = before.read_records(key, lsn);
        let new_all = after.read_records(key, lsn);
        if Self::rotated_from(before, after, rec) {
            let head = records_upto(seq![rec], key, lsn);
            assert(new_all == head + old_all);
            assert forall|i: int| 0 <= i < old_all.len() implies new_all.contains(
                #[trigger] old_all[i],
            ) by {
                assert(new_all[head.len() + i] == old_all[i]);
            }
            if rec.key == key && rec.lsn.0 <= lsn.0 {
                assert(seq![rec].drop_last() =~= Seq::<Record<D>>::empty());
                assert(seq![rec].last() == rec);
                assert(records_upto(Seq::<Record<D>>::empty(), key, lsn) =~= Seq::<
                    Record<D>,
                >::empty());
                assert(head.len() > 0 && head[0] == rec);
                assert(new_all[0] == rec);
            }
        } else {
            let rs = before.open_records();
            let at = choose|at: int|
                0 <= at <= rs.len() && #[trigger] after.open_records() == rs.insert(at, rec);
            let new_rs = after.open_records();
            let old_in = before.read_inmem(key, lsn);
            let new_in = after.read_inmem(key, lsn);
            let hist = path_records(before.read_path(key, lsn), key, lsn);
            assert(after.read_path(key, lsn) == before.read_path(key, lsn));
            assert(old_all == old_in + hist);
            assert(new_all == new_in + hist);
            if rs.len() > 0 {
                crate::inmem::lemma_records_upto(rs, key, lsn);
            } else {
                assert(old_in =~= Seq::<Record<D>>::empty());
            }
            crate::inmem::lemma_records_upto(new_rs, key, lsn);
            assert forall|i: int| 0 <= i < old_all.len() implies new_all.contains(
                #[trigger] old_all[i],
            ) by {
                if i < old_in.len() {
                    let r = old_in[i];
                    assert(old_all[i] == r);
                    assert(rs.contains(r));
                    let k = choose|k: int| 0 <= k < rs.len() && rs[k] == r;
                    let k2 = if k < at {
                        k
                    } else {
                        k + 1
                    };
                    assert(new_rs[k2] == r);
                    assert(new_in.contains(new_rs[k2]));
                    let j = choose|j: int| 0 <= j < new_in.len() && new_in[j] == r;
                    assert(new_all[j] == r);
                } else {
                    assert(new_all[new_in.len() + (i - old_in.len())] == old_all[i]);
                }
            }
            if rec.key == key && rec.lsn.0 <= lsn.0 {
                assert(new_rs[at] == rec);
                assert(new_in.contains(new_rs[at]));
                let j = choose|j: int| 0 <= j < new_in.len() && new_in[j] == rec;
                assert(new_all[j] == rec);
            }
        }
    }

    /// Whether the open layer has a record for `key` at `lsn`.
    pub fn has_open_record(&self, key: Key, lsn: Lsn) -> (r: bool)
        requires
            self.wf(),
        ensures
            r == crate::inmem::has_record(self.open_records(), key, lsn),
    {
        match &self.open_inmem {
            None => false,
            Some(layer) => {
                let found = layer.get_records(key, lsn);
                proof {
                    crate::inmem::lemma_records_upto(layer.records(), key, lsn);
                    let seen = records_upto(layer.records(), key, lsn);
                    if crate::inmem::has_record(layer.records(), key, lsn) {
                        let k = choose|k: int|
                            0 <= k < layer.records().len() && (#[trigger] layer.records()[k]).key
                                == key && layer.records()[k].lsn == lsn;
                        assert(seen.contains(layer.records()[k]));
                        let j = choose|j: int| 0 <= j < seen.len() && seen[j] == layer.records()[k];
                        assert(seen[0].lsn.0 >= seen[j].lsn.0);
                    }
                    if seen.len() > 0 && seen[0].lsn == lsn {
                        assert(layer.records().contains(seen[0]));
                    }
                }
                found.len() > 0 && found[0].lsn.0 == lsn.0
            },
        }
    }

    /// Ingests a record.
    ///
    /// Where there is a record for `key` at `lsn` in the open layer already,
    /// the record is handed back with the error and nothing changes. Where
    /// the open layer, made if there is none, takes the record, the last
    /// ingested LSN becomes `lsn`. Where the open layer is full, it is
    /// frozen and made historic, the record becomes the first of a new open
    /// layer, and the last ingested LSN becomes `lsn`. A full layer that
    /// cannot give way refuses the record, and nothing changes.
    pub fn put(&mut self, key: Key, lsn: Lsn, delta: D) -> (r: Result<Ingested, (D, PutError)>)
        requires
            old(self).wf(),
            crate::inmem::has_record(old(self).open_records(), key, lsn) || old(self).takes(
                key,
                lsn,
            ),
        ensures
            final(self).wf(),
            final(self).capacity() == old(self).capacity(),
            final(self).gate().is_shutdown() == old(self).gate().is_shutdown(),
            final(self).gate().issued() == old(self).gate().issued(),
            final(self).last_ingested().0 >= old(self).last_ingested().0,
            match r {
                Ok(Ingested { outcome: PutOutcome::Stored, woken }) => {
                    &&& !crate::inmem::has_record(old(self).open_records(), key, lsn)
                    &&& old(self).open_records().len() < old(self).capacity()
                    &&& final(self).last_ingested() == lsn
                    &&& final(self).historic() == old(self).historic()
                    &&& final(self).next_open() == old(self).next_open()
                    &&& final(self).open_layer() is Some
                    &&& Self::reads_kept_below(*old(self), *final(self), lsn)
                    &&& exists|at: int|
                        0 <= at <= old(self).open_records().len()
                            && #[trigger] final(self).open_records()
                            == old(self).open_records().insert(
                            at,
                            Record { key, lsn, delta },
                        )
                    &&& Self::woken_by(old(self).gate(), final(self).gate(), woken@, lsn)
                },
                Ok(Ingested { outcome: PutOutcome::Rotated, woken }) => {
                    &&& !crate::inmem::has_record(old(self).open_records(), key, lsn)
                    &&& old(self).open_records().len() >= old(self).capacity()
                    &&& old(self).can_rotate(lsn)
                    &&& final(self).last_ingested() == lsn
                    &&& Self::rotated_from(*old(self), *final(self), Record { key, lsn, delta })
                    &&& Self::woken_by(old(self).gate(), final(self).gate(), woken@, lsn)
                },
                Err((d, e)) => {
                    &&& d == delta
                    &&& e == (if crate::inmem::has_record(old(self).open_records(), key, lsn) {
                        PutError::AlreadyHaveRecordForKeyAndLsn
                    } else {
                        PutError::LayerFull
                    })
                    &&& e == PutError::LayerFull ==> old(self).open_records().len()
                        >= old(self).capacity() && !old(self).can_rotate(lsn)
                    &&& final(self).gate() == old(self).gate()
                    &&& final(self).next_open() == old(self).next_open()
                    &&& final(self).open_records() == old(self).open_records()
                },
            },
    {
        let had_layer = self.open_inmem.is_some();
        let mut layer = match self.open_inmem.take() {
            Some(l) => l,
            None => InMemoryLayer::new(self.layer_capacity),
        };
        let ghost before = layer.records();
        assert(before == old(self).open_records());
        match layer.put(key, lsn, delta) {
            Ok(()) => {
                proof {
                    let after = layer.records();
                    let rec = Record { key, lsn, delta };
                    let at = choose|at: int|
                        0 <= at <= before.len() && after == #[trigger] before.insert(at, rec);
                    assert forall|i: int| 0 <= i < after.len() implies {
                        let r = #[trigger] after[i];
                        &&& self.next_open_lsn.0 <= r.lsn.0 <= lsn.0
                        &&& r.lsn.0 < u64::MAX
                        &&& r.key.0 < u64::MAX
                    } by {
                        if i < at {
                            assert(after[i] == before[i]);
                        } else if i > at {
                            assert(after[i] == before[i - 1]);
                        }
                    }
                }
                self.open_inmem = Some(layer);
                let woken = self.gate.advance(lsn, None);
                proof {
                    let rec = Record { key, lsn, delta };
                    let at = choose|at: int|
                        0 <= at <= before.len() && layer.records() == #[trigger] before.insert(
                            at,
                            rec,
                        );
                    assert(self.open_records() == old(self).open_records().insert(at, rec));
                    assert forall|k: Key, l: Lsn| l.0 < lsn.0 implies #[trigger] self.read_records(
                        k,
                        l,
                    ) == old(self).read_records(k, l) by {
                        crate::inmem::lemma_records_upto_skips_newer(
                            old(self).open_records(),
                            at,
                            rec,
                            k,
                            l,
                        );
                    }
                    assert(!crate::inmem::has_record(old(self).open_records(), key, lsn));
                    assert(old(self).open_records().len() < old(self).capacity());
                    assert(Self::woken_by(old(self).gate(), self.gate(), woken@, lsn));
                    assert(self.wf());
                }
                Ok(Ingested { outcome: PutOutcome::Stored, woken })
            },
            Err((delta, InMemoryLayerPutError::AlreadyHaveRecordForKeyAndLsn)) => {
                self.open_inmem = Some(layer);
                Err((delta, PutError::AlreadyHaveRecordForKeyAndLsn))
            },
            Err((delta, InMemoryLayerPutError::LayerFull)) => {
                let gives_way = match layer.lsn_bounds() {
                    Some((_, last)) => last.0 < lsn.0 && self.layer_capacity > 0,
                    None => false,
                };
                if !gives_way {
                    if had_layer {
                        self.open_inmem = Some(layer);
                    }
                    return Err((delta, PutError::LayerFull));
                }
                layer.freeze();
                let at = self.gate.current();
                let _ = self.flush_frozen(layer, at);
                let ghost flushed = *self;
                proof {
                    let mid = LayerMap {
                        gate: old(self).gate,
                        open_inmem: Some(layer),
                        next_open_lsn: old(self).next_open_lsn,
                        layer_capacity: old(self).layer_capacity,
                    };
                    assert(mid.open_records() == old(self).open_records());
                    assert forall|k: Key, l: Lsn| #[trigger]
                        self.read_records(k, l) == old(self).read_records(k, l) by {
                        assert(mid.read_records(k, l) == old(self).read_records(k, l));
                    }
                }
                let mut fresh = InMemoryLayer::new(self.layer_capacity);
                match fresh.put(key, lsn, delta) {
                    Ok(()) => {
                        let ghost rec = Record { key, lsn, delta };
                        proof {
                            assert(fresh.records() =~= seq![rec]);
                        }
                        self.open_inmem = Some(fresh);
                        let woken = self.gate.advance(lsn, None);
                        proof {
                            assert(self.open_records() == seq![rec]);
                            assert(self.open_records()[0] == rec);
                            assert(flushed.open_records() =~= Seq::<Record<D>>::empty());
                            assert forall|k: Key, l: Lsn| #[trigger]
                                self.read_records(k, l) == records_upto(seq![rec], k, l)
                                    + old(self).read_records(k, l) by {
                                assert(flushed.read_inmem(k, l) =~= Seq::<Record<D>>::empty());
                                assert(flushed.read_records(k, l) =~= path_records(
                                    flushed.read_path(k, l),
                                    k,
                                    l,
                                ));
                                assert(self.read_path(k, l) == flushed.read_path(k, l));
                            }
                            assert(self.wf());
                            assert(Self::woken_by(old(self).gate(), self.gate(), woken@, lsn));
                        }
                        Ok(Ingested { outcome: PutOutcome::Rotated, woken })
                    },
                    Err((delta, _)) => {
                        // A new layer that takes records takes the first one.
                        proof {
                            assert(false);
                        }
                        Err((delta, PutError::LayerFull))
                    },
                }
            },
            Err((delta, InMemoryLayerPutError::Frozen)) => {
                // The open layer of a map is never frozen.
                proof {
                    assert(false);
                }
                Err((delta, PutError::AlreadyHaveRecordForKeyAndLsn))
            },
        }
    }

    /// Every read below `lsn` leads to the same records in `after` as in
    /// `before`: what has been ingested is only added to.
    pub open spec fn reads_kept_below(before: LayerMap<D>, after: LayerMap<D>, lsn: Lsn) -> bool {
        forall|key: Key, at: Lsn|
            at.0 < lsn.0 ==> #[trigger] after.read_records(key, at) == before.read_records(key, at)
    }

    /// The LSN gate went from `before` to `after` by an advance to `lsn` that
    /// ended the waits `woken`, the lowest target first: these are the queued
    /// waits for an LSN up to `lsn`, and all others stay queued.
    pub open spec fn woken_by(
        before: SeqWait<HistoricStuff<D>>,
        after: SeqWait<HistoricStuff<D>>,
        woken: Seq<Waiter>,
        lsn: Lsn,
    ) -> bool {
        &&& before.waiting() == after.waiting() + woken.reverse()
        &&& forall|i: int| 0 <= i < woken.len() ==> (#[trigger] woken[i]).target.0 <= lsn.0
        &&& forall|i: int|
            0 <= i < after.waiting().len() ==> (#[trigger] after.waiting()[i]).target.0 > lsn.0
        &&& after.issued() == before.issued()
    }

    /// `after` is `before` with its open layer made historic: no layer is
    /// open; unless the open layer was absent or empty, the historic layers
    /// are those of `before` and, as the newest, a delta layer over all keys
    /// with the records of the open layer; and every read leads to the same
    /// records as before.
    pub open spec fn flushed_from(before: LayerMap<D>, after: LayerMap<D>) -> bool {
        &&& after.open_layer() is None
        &&& after.capacity() == before.capacity()
        &&& before.open_records().len() == 0 ==> after.historic().layers()
            == before.historic().layers() && after.next_open() == before.next_open()
        &&& before.open_records().len() > 0 ==> {
            &&& after.next_open().0 == before.open_records().last().lsn.0 + 1
            &&& exists|vec: Vec<Record<D>>| #[trigger]
                HistoricStuff::<D>::flush_pushed(
                    after.historic().layers(),
                    before.historic().layers(),
                    before.open_records(),
                    vec,
                )
        }
        &&& forall|key: Key, lsn: Lsn| #[trigger]
            after.read_records(key, lsn) == before.read_records(key, lsn)
    }

    /// Makes the frozen layer historic, leaves no layer open, and publishes
    /// the new historic layers at `lsn`.
    fn flush_frozen(&mut self, layer: InMemoryLayer<D>, lsn: Lsn) -> (woken: Vec<Waiter>)
        requires
            old(self).open_inmem is None,
            old(self).gate.wf(),
            old(self).gate.data().wf(),
            all_end_by(old(self).gate.data().layers(), old(self).next_open_lsn),
            lsn.0 >= old(self).gate.current_lsn().0,
            layer.wf(),
            forall|i: int|
                0 <= i < layer.records().len() ==> {
                    let r = #[trigger] layer.records()[i];
                    &&& old(self).next_open_lsn.0 <= r.lsn.0 <= old(self).gate.current_lsn().0
                    &&& r.lsn.0 < u64::MAX
                    &&& r.key.0 < u64::MAX
                },
        ensures
            final(self).wf(),
            final(self).gate.current_lsn() == lsn,
            final(self).gate.is_shutdown() == old(self).gate.is_shutdown(),
            Self::woken_by(old(self).gate, final(self).gate, woken@, lsn),
            lsn == old(self).gate.current_lsn() ==> final(self).gate.same_queue(&old(self).gate),
            final(self).layer_capacity == old(self).layer_capacity,
            Self::flushed_from(
                LayerMap {
                    gate: old(self).gate,
                    open_inmem: Some(layer),
                    next_open_lsn: old(self).next_open_lsn,
                    layer_capacity: old(self).layer_capacity,
                },
                *final(self),
            ),
    {
        let ghost before = LayerMap {
            gate: self.gate,
            open_inmem: Some(layer),
            next_open_lsn: self.next_open_lsn,
            layer_capacity: self.layer_capacity,
        };
        let ghost rs = layer.records();
        let ghost old_layers = self.gate.data().layers();
        let bounds = layer.lsn_bounds();
        proof {
            if rs.len() > 0 {
                let first = rs.first().lsn;
                assert(rs[0] == rs.first());
                assert(rs[rs.len() - 1] == rs.last());
                assert forall|i: int| 0 <= i < old_layers.len() implies !crate::historic::rect_overlaps(
                    *(#[trigger] old_layers[i]),
                    Key(0)..Key(0xffff_ffff_ffff_ffff),
                    first..Lsn((rs.last().lsn.0 + 1) as u64),
                ) by {
                    assert(old_layers[i].wf());
                    assert(old_layers[i].lsn_range.end.0 <= first.0);
                }
                assert forall|i: int| 0 <= i < old_layers.len() implies (
                #[trigger] old_layers[i]).lsn_range.end.0 <= first.0 by {}
            }
        }
        let historic = self.gate.get_current_data().make_historic(layer);
        match bounds {
            Some((_, last)) => {
                self.next_open_lsn = Lsn(last.0 + 1);
            },
            None => {},
        }
        let woken = self.gate.advance(lsn, Some(historic));
        proof {
            let after = *self;
            let new_layers = after.gate.data().layers();
            assert(before.open_records() == rs);
            assert(after.open_records() =~= Seq::<Record<D>>::empty());
            if rs.len() == 0 {
                assert forall|key: Key, lsn: Lsn| #[trigger]
                    after.read_records(key, lsn) == before.read_records(key, lsn) by {
                    assert(records_upto(rs, key, lsn) =~= Seq::<Record<D>>::empty());
                }
            } else {
                let vec = choose|vec: Vec<Record<D>>| #[trigger]
                    HistoricStuff::<D>::flush_pushed(new_layers, old_layers, rs, vec);
                let newest = Arc::new(HistoricStuff::<D>::flushed(rs, vec));
                assert(new_layers.last() == newest);
                assert forall|i: int| 0 <= i < new_layers.len() implies (
                #[trigger] new_layers[i]).lsn_range.end.0 <= after.next_open_lsn.0 by {
                    if i < old_layers.len() {
                        assert(new_layers[i] == old_layers[i]);
                        assert(old_layers[i].lsn_range.end.0 <= before.next_open_lsn.0);
                        assert(before.next_open_lsn.0 <= rs[rs.len() - 1].lsn.0);
                    }
                }
                assert forall|key: Key, lsn: Lsn| #[trigger]
                    after.read_records(key, lsn) == before.read_records(key, lsn) by {
                    let old_path = path_upto(old_layers, key, lsn);
                    assert(new_layers.drop_last() =~= old_layers);
                    assert(after.read_inmem(key, lsn) =~= Seq::<Record<D>>::empty());
                    if newest.covers(key, lsn) {
                        let new_path = seq![newest] + old_path;
                        assert(path_upto(new_layers, key, lsn) == new_path);
                        assert(new_path.first() == newest);
                        assert(new_path.drop_first() =~= old_path);
                        assert(path_records(new_path, key, lsn) == records_upto(
                            newest.records@,
                            key,
                            lsn,
                        ) + path_records(old_path, key, lsn));
                        assert(Seq::<Record<D>>::empty() + path_records(new_path, key, lsn)
                            =~= path_records(new_path, key, lsn));
                    } else {
                        assert(path_upto(new_layers, key, lsn) == old_path);
                        crate::inmem::lemma_records_upto(rs, key, lsn);
                        let seen = records_upto(rs, key, lsn);
                        if seen.len() > 0 {
                            let r = seen[0];
                            assert(rs.contains(r));
                            let k = choose|k: int| 0 <= k < rs.len() && rs[k] == r;
                            assert(rs[0].lsn.0 <= rs[k].lsn.0 || k == 0);
                            assert(false);
                        }
                        assert(seen =~= Seq::<Record<D>>::empty());
                    }
                }
                assert(after.next_open().0 == rs.last().lsn.0 + 1);
                assert(HistoricStuff::<D>::flush_pushed(
                    after.historic().layers(),
                    before.historic().layers(),
                    before.open_records(),
                    vec,
                ));
            }
            assert(forall|key: Key, lsn: Lsn| #[trigger]
                after.read_records(key, lsn) == before.read_records(key, lsn));
            assert(after.wf());
        }
        woken
    }

    /// Freezes the open layer, makes it historic, and publishes the new
    /// historic layers at the last ingested LSN, which stays; no wait ends.
    /// Every read leads to the same records as before. Without an open layer
    /// nothing changes.
    pub fn force_flush(&mut self)
        requires
            old(self).wf(),
        ensures
            final(self).wf(),
            final(self).gate().same_queue(&old(self).gate()),
            Self::flushed_from(*old(self), *final(self)),
            old(self).open_layer() is None ==> final(self).historic() == old(self).historic(),
    {
        match self.open_inmem.take() {
            None => {
                proof {
                    assert(self.open_records() =~= old(self).open_records());
                }
            },
            Some(mut layer) => {
                layer.freeze();
                proof {
                    assert(layer.records() == old(self).open_records());
                }
                let at = self.gate.current();
                let _ = self.flush_frozen(layer, at);
                proof {
                    let mid = LayerMap {
                        gate: old(self).gate,
                        open_inmem: Some(layer),
                        next_open_lsn: old(self).next_open_lsn,
                        layer_capacity: old(self).layer_capacity,
                    };
                    assert(mid.open_records() == old(self).open_records());
                    assert forall|key: Key, lsn: Lsn| #[trigger]
                        self.read_records(key, lsn) == old(self).read_records(key, lsn) by {
                        assert(mid.read_records(key, lsn) == old(self).read_records(key, lsn));
                    }
                }
            },
        }
    }

    /// Removes the historic layers that end at or before `cutoff`, and
    /// returns how many they were. The open layer and the LSN gate stay.
    pub fn remove_layers_before(&mut self, cutoff: Lsn) -> (removed: usize)
        requires
            old(self).wf(),
        ensures
            final(self).wf(),
            final(self).gate().same_queue(&old(self).gate()),
            final(self).open_layer() == old(self).open_layer(),
            final(self).next_open() == old(self).next_open(),
            final(self).capacity() == old(self).capacity(),
            final(self).historic().layers() == old(self).historic().layers().filter(
                crate::historic::ends_after(cutoff),
            ),
            removed == old(self).historic().layers().len() - final(self).historic().layers().len(),
    {
        let (kept, removed) = self.gate.get_current_data().without_layers_before(cutoff);
        proof {
            let keep = crate::historic::ends_after::<D>(cutoff);
            let all = self.gate.data().layers();
            assert forall|i: int| 0 <= i < kept.layers().len() implies (
            #[trigger] kept.layers()[i]).lsn_range.end.0 <= self.next_open_lsn.0 by {
                all.lemma_filter_contains_rev(keep, kept.layers()[i]);
                let k = choose|k: int| 0 <= k < all.len() && all[k] == kept.layers()[i];
                assert(all[k].lsn_range.end.0 <= self.next_open_lsn.0);
            }
        }
        let at = self.gate.current();
        let _ = self.gate.advance(at, Some(kept));
        proof {
            assert(self.open_records() == old(self).open_records());
        }
        removed
    }
}

/// An empty layer map at `lsn` over the historic layers given, whose
/// in-memory layers take up to `layer_capacity` records.
pub fn empty<D>(lsn: Lsn, historic: HistoricStuff<D>, layer_capacity: usize) -> (m: LayerMap<D>)
    requires
        historic.wf(),
    ensures
        m.wf(),
        m.last_ingested() == lsn,
        m.historic() == historic,
        m.open_layer() is None,
        m.capacity() == layer_capacity,
        m.gate().waiting() == Seq::<Waiter>::empty(),
        !m.gate().is_shutdown(),
        m.gate().issued() == 0,
        all_end_by(historic.layers(), m.next_open()),
        m.next_open().0 == 0 || exists|i: int|
            0 <= i < historic.layers().len() && (#[trigger] historic.layers()[i]).lsn_range.end
                == m.next_open(),
{
    let next_open_lsn = historic.end_lsn();
    LayerMap { gate: SeqWait::new(lsn, historic), open_inmem: None, next_open_lsn, layer_capacity }
}

} // verus!
