//! The in-memory layer: an open or frozen buffer of the records that were
//! ingested last.

use crate::lsn::Key;
use crate::lsn::Lsn;
use vstd::prelude::*;

verus! {

/// Why a layer did not take a record.
#[derive(Clone, Copy, Debug, PartialEq, Eq, Structural)]
pub enum InMemoryLayerPutError {
    /// The layer was frozen before the call.
    Frozen,
    /// The layer holds as many records as it may: the writer has to freeze it
    /// and go on with a new one.
    LayerFull,
    /// The layer already holds a record for this key at this LSN.
    AlreadyHaveRecordForKeyAndLsn,
}

/// A modification of one key at one LSN.
pub struct Record<D> {
    pub key: Key,
    pub lsn: Lsn,
    pub delta: D,
}

/// The records of `rs` for `key` at an LSN up to `lsn`, the last of `rs`
/// first.
pub open spec fn records_upto<D>(rs: Seq<Record<D>>, key: Key, lsn: Lsn) -> Seq<Record<D>>
    decreases rs.len(),
{
    if rs.len() == 0 {
        Seq::empty()
    } else {
        let rest = records_upto(rs.drop_last(), key, lsn);
        if rs.last().key == key && rs.last().lsn.0 <= lsn.0 {
            seq![rs.last()] + rest
        } else {
            rest
        }
    }
}

/// The LSNs in `rs` never fall.
pub open spec fn lsn_ordered<D>(rs: Seq<Record<D>>) -> bool {
    forall|i: int, j: int|
        0 <= i < j < rs.len() ==> (#[trigger] rs[i]).lsn.0 <= (#[trigger] rs[j]).lsn.0
}

/// No two records of `rs` share key and LSN.
pub open spec fn keys_unique<D>(rs: Seq<Record<D>>) -> bool {
    forall|i: int, j: int|
        0 <= i < j < rs.len() ==> !((#[trigger] rs[i]).key == (#[trigger] rs[j]).key && rs[i].lsn
            == rs[j].lsn)
}

/// `rs` holds a record for `key` at `lsn`.
pub open spec fn has_record<D>(rs: Seq<Record<D>>, key: Key, lsn: Lsn) -> bool {
    exists|i: int| 0 <= i < rs.len() && (#[trigger] rs[i]).key == key && rs[i].lsn == lsn
}

/// What a read returns holds exactly the records asked for, each once, in
/// strictly falling LSN order.
pub proof fn lemma_records_upto<D>(rs: Seq<Record<D>>, key: Key, lsn: Lsn)
    requires
        lsn_ordered(rs),
        keys_unique(rs),
    ensures
        forall|i: int|
            0 <= i < records_upto(rs, key, lsn).len() ==> {
                let r = #[trigger] records_upto(rs, key, lsn)[i];
                r.key == key && r.lsn.0 <= lsn.0 && rs.contains(r)
            },
        forall|i: int, j: int|
            0 <= i < j < records_upto(rs, key, lsn).len() ==> (#[trigger] records_upto(
                rs,
                key,
                lsn,
            )[i]).lsn.0 > (#[trigger] records_upto(rs, key, lsn)[j]).lsn.0,
        forall|k: int|
            0 <= k < rs.len() && (#[trigger] rs[k]).key == key && rs[k].lsn.0 <= lsn.0
                ==> records_upto(rs, key, lsn).contains(rs[k]),
    decreases rs.len(),
{
    let out = records_upto(rs, key, lsn);
    if rs.len() > 0 {
        let init = rs.drop_last();
        let rest = records_upto(init, key, lsn);
        lemma_records_upto(init, key, lsn);
        let last = rs.last();
        let taken = last.key == key && last.lsn.0 <= lsn.0;
        assert forall|i: int| 0 <= i < out.len() implies {
            let r = #[trigger] out[i];
            r.key == key && r.lsn.0 <= lsn.0 && rs.contains(r)
        } by {
            if taken && i == 0 {
                assert(rs[rs.len() - 1] == out[i]);
            } else {
                let r = if taken {
                    rest[i - 1]
                } else {
                    rest[i]
                };
                assert(r == out[i]);
                assert(init.contains(r));
                let k = choose|k: int| 0 <= k < init.len() && init[k] == r;
                assert(rs[k] == r);
            }
        }
        assert forall|i: int, j: int| 0 <= i < j < out.len() implies (#[trigger] out[i]).lsn.0 > (
        #[trigger] out[j]).lsn.0 by {
            if taken && i == 0 {
                let r = rest[j - 1];
                assert(r == out[j]);
                assert(init.contains(r));
                let k = choose|k: int| 0 <= k < init.len() && init[k] == r;
                assert(rs[k] == r && rs[rs.len() - 1] == last);
                assert(rs[k].lsn.0 <= last.lsn.0);
            } else if taken {
                assert(out[i] == rest[i - 1] && out[j] == rest[j - 1]);
            } else {
                assert(out[i] == rest[i] && out[j] == rest[j]);
            }
        }
        assert forall|k: int|
            0 <= k < rs.len() && (#[trigger] rs[k]).key == key && rs[k].lsn.0
                <= lsn.0 implies out.contains(rs[k]) by {
            if k == rs.len() - 1 {
                assert(out[0] == rs[k]);
            } else {
                assert(init[k] == rs[k]);
                assert(rest.contains(rs[k]));
                let i = choose|i: int| 0 <= i < rest.len() && rest[i] == rs[k];
                if taken {
                    assert(out[i + 1] == rs[k]);
                } else {
                    assert(out[i] == rs[k]);
                }
            }
        }
    }
}

/// A record that comes in above the asked LSN does not show in a read.
pub proof fn lemma_records_upto_skips_newer<D>(
    rs: Seq<Record<D>>,
    at: int,
    newer: Record<D>,
    key: Key,
    lsn: Lsn,
)
    requires
        0 <= at <= rs.len(),
        newer.lsn.0 > lsn.0,
    ensures
        records_upto(rs.insert(at, newer), key, lsn) == records_upto(rs, key, lsn),
    decreases rs.len() - at,
{
    let with = rs.insert(at, newer);
    if at == rs.len() {
        assert(with.drop_last() =~= rs);
        assert(with.last() == newer);
    } else {
        assert(with.last() == rs.last());
        assert(with.drop_last() =~= rs.drop_last().insert(at, newer));
        lemma_records_upto_skips_newer(rs.drop_last(), at, newer, key, lsn);
    }
}

/// The records of `rs` for `key` at an LSN up to `lsn`, the last of `rs`
/// first.
pub fn select_upto<'a, D>(rs: &'a Vec<Record<D>>, key: Key, lsn: Lsn) -> (r: Vec<&'a Record<D>>)
    ensures
        r@.len() == records_upto(rs@, key, lsn).len(),
        forall|i: int| 0 <= i < r@.len() ==> *(#[trigger] r@[i]) == records_upto(rs@, key, lsn)[i],
{
    let mut out: Vec<&Record<D>> = Vec::new();
    let mut i: usize = rs.len();
    let ghost mut taken: Seq<Record<D>> = Seq::empty();
    proof {
        assert(rs@.subrange(0, i as int) =~= rs@);
        assert(taken + records_upto(rs@, key, lsn) =~= records_upto(rs@, key, lsn));
    }
    while i > 0
        invariant
            0 <= i <= rs@.len(),
            out@.len() == taken.len(),
            forall|k: int| 0 <= k < out@.len() ==> *(#[trigger] out@[k]) == taken[k],
            records_upto(rs@, key, lsn) == taken + records_upto(
                rs@.subrange(0, i as int),
                key,
                lsn,
            ),
        decreases i,
    {
        let ghost head = rs@.subrange(0, i as int);
        let ghost taken0 = taken;
        let r = &rs[i - 1];
        proof {
            assert(head.drop_last() =~= rs@.subrange(0, i - 1));
            assert(head.last() == rs@[i - 1]);
        }
        if r.key.0 == key.0 && r.lsn.0 <= lsn.0 {
            out.push(r);
            proof {
                taken = taken.push(*r);
                assert(taken + records_upto(head.drop_last(), key, lsn) =~= taken0 + (seq![*r]
                    + records_upto(head.drop_last(), key, lsn)));
            }
        }
        i -= 1;
    }
    proof {
        assert(rs@.subrange(0, 0) =~= Seq::<Record<D>>::empty());
        assert(taken + Seq::<Record<D>>::empty() =~= taken);
    }
    out
}

/// The deltas of the records given, in their order.
pub fn deltas_of<'a, D>(records: Vec<&'a Record<D>>) -> (r: Vec<&'a D>)
    ensures
        r@.len() == records@.len(),
        forall|i: int| 0 <= i < r@.len() ==> *(#[trigger] r@[i]) == records@[i].delta,
{
    let mut out: Vec<&D> = Vec::new();
    let mut i: usize = 0;
    while i < records.len()
        invariant
            0 <= i <= records@.len(),
            out@.len() == i,
            forall|k: int| 0 <= k < i ==> *(#[trigger] out@[k]) == records@[k].delta,
        decreases records@.len() - i,
    {
        let r: &Record<D> = records[i];
        out.push(&r.delta);
        i += 1;
    }
    out
}

/// An open or frozen buffer of records.
pub struct InMemoryLayer<D> {
    frozen: bool,
    capacity: usize,
    /// The records by rising LSN; those of one LSN in the order they came.
    records: Vec<Record<D>>,
}

impl<D> InMemoryLayer<D> {
    /// The records held, by rising LSN.
    pub closed spec fn records(&self) -> Seq<Record<D>> {
        self.records@
    }

    /// Whether the layer has been frozen.
    pub closed spec fn is_frozen(&self) -> bool {
        self.frozen
    }

    /// How many records the layer takes.
    pub closed spec fn capacity(&self) -> usize {
        self.capacity
    }

    /// The records are ordered by LSN, and no two share key and LSN.
    pub open spec fn wf(&self) -> bool {
        lsn_ordered(self.records()) && keys_unique(self.records())
    }

    /// An open layer without records that takes up to `capacity` records.
    pub fn new(capacity: usize) -> (l: InMemoryLayer<D>)
        ensures
            l.wf(),
            !l.is_frozen(),
            l.capacity() == capacity,
            l.records() == Seq::<Record<D>>::empty(),
    {
        InMemoryLayer { frozen: false, capacity, records: Vec::new() }
    }

    /// How many records the layer holds.
    pub fn len(&self) -> (n: usize)
        ensures
            n == self.records().len(),
    {
        self.records.len()
    }

    /// Whether the layer has been frozen.
    pub fn frozen(&self) -> (r: bool)
        ensures
            r == self.is_frozen(),
    {
        self.frozen
    }

    /// The LSN of the first and of the last record, if there is any record.
    pub fn lsn_bounds(&self) -> (r: Option<(Lsn, Lsn)>)
        requires
            self.wf(),
        ensures
            match r {
                None => self.records().len() == 0,
                Some((first, last)) => {
                    &&& self.records().len() > 0
                    &&& first == self.records().first().lsn
                    &&& last == self.records().last().lsn
                    &&& forall|i: int|
                        0 <= i < self.records().len() ==> first.0 <= (
                        #[trigger] self.records()[i]).lsn.0 <= last.0
                },
            },
    {
        let n = self.records.len();
        if n == 0 {
            None
        } else {
            Some((self.records[0].lsn, self.records[n - 1].lsn))
        }
    }

    /// Adds a record. A frozen layer refuses with `Frozen`; one that already
    /// has a record for `key` at `lsn` with `AlreadyHaveRecordForKeyAndLsn`;
    /// one that holds as many records as it takes with `LayerFull`; in that
    /// order. A refused record is handed back and the layer stays as it was.
    pub fn put(&mut self, key: Key, lsn: Lsn, delta: D) -> (r: Result<
        (),
        (D, InMemoryLayerPutError),
    >)
        requires
            old(self).wf(),
        ensures
            final(self).wf(),
            final(self).is_frozen() == old(self).is_frozen(),
            final(self).capacity() == old(self).capacity(),
            r == Self::put_result(*old(self), key, lsn, delta),
            match r {
                Ok(()) => exists|i: int|
                    0 <= i <= old(self).records().len() && #[trigger] final(self).records()
                        == old(self).records().insert(i, Record { key, lsn, delta }),
                Err(_) => final(self).records() == old(self).records(),
            },
    {
        if self.frozen {
            return Err((delta, InMemoryLayerPutError::Frozen));
        }
        // Where the record goes: behind the last record that is not newer.
        let mut at: usize = self.records.len();
        while at > 0 && self.records[at - 1].lsn.0 > lsn.0
            invariant
                0 <= at <= self.records@.len(),
                self.records@ == old(self).records@,
                self.frozen == old(self).frozen,
                !self.frozen,
                self.capacity == old(self).capacity,
                forall|k: int|
                    at <= k < self.records@.len() ==> (#[trigger] self.records@[k]).lsn.0 > lsn.0,
            decreases at,
        {
            at -= 1;
        }
        // The records of this LSN end just before `at`.
        let mut i: usize = at;
        while i > 0 && self.records[i - 1].lsn.0 == lsn.0
            invariant
                0 <= i <= at <= self.records@.len(),
                self.records@ == old(self).records@,
                self.frozen == old(self).frozen,
                !self.frozen,
                self.capacity == old(self).capacity,
                old(self).wf(),
                forall|k: int| i <= k < at ==> (#[trigger] self.records@[k]).key != key,
                forall|k: int| i <= k < at ==> (#[trigger] self.records@[k]).lsn == lsn,
            decreases i,
        {
            if self.records[i - 1].key.0 == key.0 {
                proof {
                    assert(self.records@[i - 1].key == key && self.records@[i - 1].lsn == lsn);
                    assert(has_record(self.records@, key, lsn));
                }
                return Err((delta, InMemoryLayerPutError::AlreadyHaveRecordForKeyAndLsn));
            }
            i -= 1;
        }
        proof {
            let rs = self.records@;
            assert forall|k: int| 0 <= k < rs.len() implies !((#[trigger] rs[k]).key == key
                && rs[k].lsn == lsn) by {
                if k < i {
                    if i > 0 {
                        assert(rs[k].lsn.0 <= rs[i - 1].lsn.0);
                    }
                }
            }
        }
        if self.records.len() >= self.capacity {
            return Err((delta, InMemoryLayerPutError::LayerFull));
        }
        let ghost before = self.records@;
        let ghost rec = Record { key, lsn, delta };
        self.records.insert(at, Record { key, lsn, delta });
        proof {
            let after = self.records@;
            assert(after == before.insert(at as int, rec));
            assert forall|a: int, b: int| 0 <= a < b < after.len() implies (
            #[trigger] after[a]).lsn.0 <= (#[trigger] after[b]).lsn.0 && !(after[a].key
                == after[b].key && after[a].lsn == after[b].lsn) by {
                let a0 = if a < at {
                    a
                } else {
                    a - 1
                };
                let b0 = if b < at {
                    b
                } else {
                    b - 1
                };
                if a != at {
                    assert(after[a] == before[a0]);
                }
                if b != at {
                    assert(after[b] == before[b0]);
                }
                if a == at {
                    assert(after[a] == rec);
                } else if b == at {
                    assert(after[b] == rec);
                    if at > 0 {
                        assert(before[a0].lsn.0 <= before[at - 1].lsn.0);
                    }
                }
            }
        }
        Ok(())
    }

    /// What `put` answers.
    pub open spec fn put_result(
        layer: InMemoryLayer<D>,
        key: Key,
        lsn: Lsn,
        delta: D,
    ) -> Result<(), (D, InMemoryLayerPutError)> {
        if layer.is_frozen() {
            Err((delta, InMemoryLayerPutError::Frozen))
        } else if has_record(layer.records(), key, lsn) {
            Err((delta, InMemoryLayerPutError::AlreadyHaveRecordForKeyAndLsn))
        } else if layer.records().len() >= layer.capacity() {
            Err((delta, InMemoryLayerPutError::LayerFull))
        } else {
            Ok(())
        }
    }

    /// The records for `key` at an LSN up to `lsn`, the newest first.
    pub fn get(&self, key: Key, lsn: Lsn) -> (r: Vec<&D>)
        ensures
            r@.len() == records_upto(self.records(), key, lsn).len(),
            forall|i: int|
                0 <= i < r@.len() ==> *(#[trigger] r@[i]) == records_upto(
                    self.records(),
                    key,
                    lsn,
                )[i].delta,
    {
        deltas_of(select_upto(&self.records, key, lsn))
    }

    /// The records for `key` at an LSN up to `lsn`, the newest first, each
    /// with its LSN.
    pub fn get_records(&self, key: Key, lsn: Lsn) -> (r: Vec<&Record<D>>)
        ensures
            r@.len() == records_upto(self.records(), key, lsn).len(),
            forall|i: int|
                0 <= i < r@.len() ==> *(#[trigger] r@[i]) == records_upto(
                    self.records(),
                    key,
                    lsn,
                )[i],
    {
        select_upto(&self.records, key, lsn)
    }

    /// Closes the layer for writing. Freezing a frozen layer changes nothing.
    pub fn freeze(&mut self)
        ensures
            final(self).is_frozen(),
            final(self).records() == old(self).records(),
            final(self).capacity() == old(self).capacity(),
    {
        self.frozen = true;
    }

    /// Gives up the layer for its records.
    pub fn into_records(self) -> (rs: Vec<Record<D>>)
        ensures
            rs@ == self.records(),
    {
        self.records
    }
}

} // verus!
