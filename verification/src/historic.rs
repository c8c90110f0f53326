//! The historic layers of a timeline: immutable layers, none overlapping
//! another, and the search for the layers that a read has to visit.

use crate::inmem::keys_unique;
use crate::inmem::lsn_ordered;
use crate::inmem::InMemoryLayer;
use crate::inmem::Record;
use crate::lsn::Key;
use crate::lsn::Lsn;
use crate::range::range_overlaps;
use std::ops::Range;
use std::sync::Arc;
use vstd::prelude::*;

verus! {

/// The search for a reconstruct path found the layers in disorder.
#[derive(Clone, Copy, Debug, PartialEq, Eq, Structural)]
pub enum GetReconstructPathError {
    /// Never returned by a well-formed set of layers.
    Inconsistent,
}

/// A layer would overlap one that the set already holds.
#[derive(Clone, Copy, Debug, PartialEq, Eq, Structural)]
pub struct LayersOverlap;

/// An immutable layer: the records of the keys in `key_range` at the LSNs
/// in `lsn_range`. A delta layer holds every change in its rectangle; an
/// image layer holds the pages at one LSN.
pub struct HistoricLayer<D> {
    pub is_delta: bool,
    pub key_range: Range<Key>,
    pub lsn_range: Range<Lsn>,
    pub records: Vec<Record<D>>,
}

/// Two half-open ranges of numbers, neither empty, have a common member.
pub open spec fn spans_overlap(a_start: u64, a_end: u64, b_start: u64, b_end: u64) -> bool {
    if a_start < b_start {
        a_end > b_start
    } else {
        b_end > a_start
    }
}

/// The rectangle `key_range` by `lsn_range` shares a point with that of
/// `layer`.
pub open spec fn rect_overlaps<D>(
    layer: HistoricLayer<D>,
    key_range: Range<Key>,
    lsn_range: Range<Lsn>,
) -> bool {
    spans_overlap(layer.key_range.start.0, layer.key_range.end.0, key_range.start.0,
        key_range.end.0)
        && spans_overlap(
        layer.lsn_range.start.0,
        layer.lsn_range.end.0,
        lsn_range.start.0,
        lsn_range.end.0,
    )
}

impl<D> HistoricLayer<D> {
    /// The rectangle is not empty, and the records lie in it, ordered by LSN,
    /// no two with the same key and LSN.
    pub open spec fn wf(&self) -> bool {
        &&& self.key_range.start.0 < self.key_range.end.0
        &&& self.lsn_range.start.0 < self.lsn_range.end.0
        &&& lsn_ordered(self.records@)
        &&& keys_unique(self.records@)
        &&& forall|i: int|
            0 <= i < self.records@.len() ==> {
                let r = #[trigger] self.records@[i];
                &&& self.key_range.start.0 <= r.key.0 < self.key_range.end.0
                &&& self.lsn_range.start.0 <= r.lsn.0 < self.lsn_range.end.0
            }
    }

    /// The layer has to be visited by a read of `key` at `lsn`: the key is
    /// in its range, and it begins at or before `lsn`.
    pub open spec fn covers(&self, key: Key, lsn: Lsn) -> bool {
        self.key_range.start.0 <= key.0 < self.key_range.end.0 && self.lsn_range.start.0 <= lsn.0
    }

    /// Whether a read of `key` at `lsn` has to visit the layer.
    pub fn is_covering(&self, key: Key, lsn: Lsn) -> (r: bool)
        ensures
            r == self.covers(key, lsn),
    {
        self.key_range.start.0 <= key.0 && key.0 < self.key_range.end.0 && self.lsn_range.start.0
            <= lsn.0
    }

    /// Whether the rectangle of the layer shares a point with the one given.
    pub fn overlaps(&self, key_range: &Range<Key>, lsn_range: &Range<Lsn>) -> (r: bool)
        ensures
            r == rect_overlaps(*self, *key_range, *lsn_range),
    {
        range_overlaps(&self.key_range, key_range) && range_overlaps(&self.lsn_range, lsn_range)
    }

    /// The records of the layer for `key` at an LSN up to `lsn`, the newest
    /// first.
    pub fn get(&self, key: Key, lsn: Lsn) -> (r: Vec<&D>)
        ensures
            r@.len() == crate::inmem::records_upto(self.records@, key, lsn).len(),
            forall|i: int|
                0 <= i < r@.len() ==> *(#[trigger] r@[i]) == crate::inmem::records_upto(
                    self.records@,
                    key,
                    lsn,
                )[i].delta,
    {
        crate::inmem::deltas_of(crate::inmem::select_upto(&self.records, key, lsn))
    }

    /// The records of the layer for `key` at an LSN up to `lsn`, the newest
    /// first, each with its LSN.
    pub fn get_records(&self, key: Key, lsn: Lsn) -> (r: Vec<&Record<D>>)
        ensures
            r@.len() == crate::inmem::records_upto(self.records@, key, lsn).len(),
            forall|i: int|
                0 <= i < r@.len() ==> *(#[trigger] r@[i]) == crate::inmem::records_upto(
                    self.records@,
                    key,
                    lsn,
                )[i],
    {
        crate::inmem::select_upto(&self.records, key, lsn)
    }
}

/// The layers that a read of `key` at `lsn` visits, out of `layers` kept by
/// rising start LSN: those that cover the read, from the newest down to the
/// newest image layer.
pub open spec fn path_upto<D>(layers: Seq<Arc<HistoricLayer<D>>>, key: Key, lsn: Lsn) -> Seq<
    Arc<HistoricLayer<D>>,
>
    decreases layers.len(),
{
    if layers.len() == 0 {
        Seq::empty()
    } else {
        let newest = layers.last();
        if newest.covers(key, lsn) {
            if newest.is_delta {
                seq![newest] + path_upto(layers.drop_last(), key, lsn)
            } else {
                seq![newest]
            }
        } else {
            path_upto(layers.drop_last(), key, lsn)
        }
    }
}

/// The start LSNs in `layers` never fall.
pub open spec fn start_ordered<D>(layers: Seq<Arc<HistoricLayer<D>>>) -> bool {
    forall|i: int, j: int|
        0 <= i < j < layers.len() ==> (#[trigger] layers[i]).lsn_range.start.0 <= (
        #[trigger] layers[j]).lsn_range.start.0
}

/// No two of `layers` have rectangles that share a point.
pub open spec fn pairwise_disjoint<D>(layers: Seq<Arc<HistoricLayer<D>>>) -> bool {
    forall|i: int, j: int|
        0 <= i < j < layers.len() ==> !rect_overlaps(
            *(#[trigger] layers[i]),
            (#[trigger] layers[j]).key_range,
            layers[j].lsn_range,
        )
}

/// Every one of `layers` is well formed.
pub open spec fn all_wf<D>(layers: Seq<Arc<HistoricLayer<D>>>) -> bool {
    forall|i: int| 0 <= i < layers.len() ==> (#[trigger] layers[i]).wf()
}

/// None of `layers` overlaps the rectangle given.
pub open spec fn none_overlaps<D>(
    layers: Seq<Arc<HistoricLayer<D>>>,
    key_range: Range<Key>,
    lsn_range: Range<Lsn>,
) -> bool {
    forall|i: int| 0 <= i < layers.len() ==> !rect_overlaps(*(#[trigger] layers[i]), key_range,
        lsn_range)
}

/// Whether a layer ends after `cutoff`: such a layer outlasts a garbage
/// collection with that cutoff.
pub open spec fn ends_after<D>(cutoff: Lsn) -> spec_fn(Arc<HistoricLayer<D>>) -> bool {
    |l: Arc<HistoricLayer<D>>| l.lsn_range.end.0 > cutoff.0
}

/// Every one of `layers` ends at or before `lsn`.
pub open spec fn all_end_by<D>(layers: Seq<Arc<HistoricLayer<D>>>, lsn: Lsn) -> bool {
    forall|i: int| 0 <= i < layers.len() ==> (#[trigger] layers[i]).lsn_range.end.0 <= lsn.0
}

/// The reconstruct path holds only layers of the set that cover the read; it
/// runs by strictly falling start LSN; only its last layer can be an image
/// layer; and a covering layer is missing from it only if it is older than
/// the image layer at which the path ends.
pub proof fn lemma_path_upto<D>(layers: Seq<Arc<HistoricLayer<D>>>, key: Key, lsn: Lsn)
    requires
        all_wf(layers),
        start_ordered(layers),
        pairwise_disjoint(layers),
    ensures
        forall|i: int|
            0 <= i < path_upto(layers, key, lsn).len() ==> {
                let l = #[trigger] path_upto(layers, key, lsn)[i];
                layers.contains(l) && l.covers(key, lsn)
            },
        forall|i: int|
            0 <= i < path_upto(layers, key, lsn).len() - 1 ==> (#[trigger] path_upto(
                layers,
                key,
                lsn,
            )[i]).is_delta,
        forall|i: int, j: int|
            0 <= i < j < path_upto(layers, key, lsn).len() ==> (#[trigger] path_upto(
                layers,
                key,
                lsn,
            )[i]).lsn_range.start.0 > (#[trigger] path_upto(layers, key, lsn)[j]).lsn_range.start.0,
        forall|k: int|
            0 <= k < layers.len() && (#[trigger] layers[k]).covers(key, lsn) ==> {
                let p = path_upto(layers, key, lsn);
                p.contains(layers[k]) || (p.len() > 0 && !p.last().is_delta
                    && layers[k].lsn_range.start.0 < p.last().lsn_range.start.0)
            },
    decreases layers.len(),
{
    let p = path_upto(layers, key, lsn);
    if layers.len() > 0 {
        let init = layers.drop_last();
        let n = layers.len() - 1;
        let newest = layers.last();
        let q = path_upto(init, key, lsn);
        assert forall|i: int| 0 <= i < init.len() implies init[i] == layers[i] by {}
        lemma_path_upto(init, key, lsn);
        // a covering layer older than a covering `newest` begins strictly before it
        assert forall|k: int|
            0 <= k < n && (#[trigger] layers[k]).covers(key, lsn) && newest.covers(
                key,
                lsn,
            ) implies layers[k].lsn_range.start.0 < newest.lsn_range.start.0 by {
            assert(layers[n] == newest);
            assert(layers[k].wf() && layers[n].wf());
            assert(!rect_overlaps(*layers[k], layers[n].key_range, layers[n].lsn_range));
            assert(layers[k].lsn_range.start.0 <= layers[n].lsn_range.start.0);
        }
        assert forall|i: int| 0 <= i < p.len() implies {
            let l = #[trigger] p[i];
            layers.contains(l) && l.covers(key, lsn)
        } by {
            if newest.covers(key, lsn) && i == 0 {
                assert(layers[n] == p[i]);
            } else {
                let l = if newest.covers(key, lsn) {
                    q[i - 1]
                } else {
                    q[i]
                };
                assert(l == p[i]);
                assert(init.contains(l));
                let k = choose|k: int| 0 <= k < init.len() && init[k] == l;
                assert(layers[k] == l);
            }
        }
        assert forall|i: int| 0 <= i < p.len() - 1 implies (#[trigger] p[i]).is_delta by {
            if newest.covers(key, lsn) {
                if i > 0 {
                    assert(p[i] == q[i - 1]);
                }
            } else {
                assert(p[i] == q[i]);
            }
        }
        assert forall|i: int, j: int| 0 <= i < j < p.len() implies (
        #[trigger] p[i]).lsn_range.start.0 > (#[trigger] p[j]).lsn_range.start.0 by {
            if newest.covers(key, lsn) {
                assert(p[j] == q[j - 1]);
                if i == 0 {
                    assert(init.contains(q[j - 1]));
                    let k = choose|k: int| 0 <= k < init.len() && init[k] == q[j - 1];
                    assert(layers[k] == q[j - 1]);
                } else {
                    assert(p[i] == q[i - 1]);
                }
            } else {
                assert(p[i] == q[i] && p[j] == q[j]);
            }
        }
        assert forall|k: int| 0 <= k < layers.len() && (#[trigger] layers[k]).covers(
            key,
            lsn,
        ) implies (p.contains(layers[k]) || (p.len() > 0 && !p.last().is_delta
            && layers[k].lsn_range.start.0 < p.last().lsn_range.start.0)) by {
            if k == n {
                assert(p[0] == layers[k]);
            } else {
                assert(init[k] == layers[k]);
                if newest.covers(key, lsn) {
                    if newest.is_delta {
                        if q.contains(layers[k]) {
                            let i = choose|i: int| 0 <= i < q.len() && q[i] == layers[k];
                            assert(p[i + 1] == layers[k]);
                        } else {
                            assert(p.last() == q.last());
                        }
                    } else {
                        assert(p.last() == newest);
                    }
                } else {
                    if q.contains(layers[k]) {
                        let i = choose|i: int| 0 <= i < q.len() && q[i] == layers[k];
                        assert(p[i] == layers[k]);
                    }
                }
            }
        }
    }
}

/// A layer that covers a read ends where a newer layer that covers the read
/// begins, or before.
pub proof fn lemma_covering_layers_stack<D>(
    layers: Seq<Arc<HistoricLayer<D>>>,
    older: int,
    newer: int,
    key: Key,
    lsn: Lsn,
)
    requires
        all_wf(layers),
        start_ordered(layers),
        pairwise_disjoint(layers),
        0 <= older < newer < layers.len(),
        layers[older].covers(key, lsn),
        layers[newer].covers(key, lsn),
    ensures
        layers[older].lsn_range.end.0 <= layers[newer].lsn_range.start.0,
{
    assert(layers[older].wf() && layers[newer].wf());
    assert(!rect_overlaps(*layers[older], layers[newer].key_range, layers[newer].lsn_range));
    assert(layers[older].lsn_range.start.0 <= layers[newer].lsn_range.start.0);
}

/// Where no layer covers a read, its path is empty.
pub proof fn lemma_no_cover_no_path<D>(layers: Seq<Arc<HistoricLayer<D>>>, key: Key, lsn: Lsn)
    requires
        forall|k: int| 0 <= k < layers.len() ==> !(#[trigger] layers[k]).covers(key, lsn),
    ensures
        path_upto(layers, key, lsn) == Seq::<Arc<HistoricLayer<D>>>::empty(),
    decreases layers.len(),
{
    if layers.len() > 0 {
        let init = layers.drop_last();
        assert forall|k: int| 0 <= k < init.len() implies !(#[trigger] init[k]).covers(
            key,
            lsn,
        ) by {
            assert(init[k] == layers[k]);
        }
        assert(layers.last() == layers[layers.len() - 1]);
        lemma_no_cover_no_path(init, key, lsn);
    }
}

/// Of a sequence none of whose members passes, nothing passes the filter.
proof fn lemma_filter_none<D>(
    s: Seq<Arc<HistoricLayer<D>>>,
    pred: spec_fn(Arc<HistoricLayer<D>>) -> bool,
)
    requires
        forall|k: int| 0 <= k < s.len() ==> !pred(#[trigger] s[k]),
    ensures
        s.filter(pred) == Seq::<Arc<HistoricLayer<D>>>::empty(),
{
    let f = s.filter(pred);
    if f.len() > 0 {
        s.lemma_filter_pred(pred, 0);
        assert(f.contains(f[0]));
        s.lemma_filter_contains_rev(pred, f[0]);
        let k = choose|k: int| 0 <= k < s.len() && s[k] == f[0];
        assert(!pred(s[k]));
    }
    assert(f =~= Seq::<Arc<HistoricLayer<D>>>::empty());
}

/// Removing the layers that end at or before a cutoff cuts every path off
/// where its layers end at or before the cutoff, and changes nothing else
/// of it: the path through the layers that are left is the old path without
/// the layers removed.
pub proof fn lemma_path_after_removal<D>(
    layers: Seq<Arc<HistoricLayer<D>>>,
    cutoff: Lsn,
    key: Key,
    lsn: Lsn,
)
    requires
        all_wf(layers),
        start_ordered(layers),
        pairwise_disjoint(layers),
    ensures
        path_upto(layers.filter(ends_after(cutoff)), key, lsn) == path_upto(
            layers,
            key,
            lsn,
        ).filter(ends_after(cutoff)),
    decreases layers.len(),
{
    reveal(Seq::filter);
    let keep = ends_after::<D>(cutoff);
    let none = Seq::<Arc<HistoricLayer<D>>>::empty();
    if layers.len() == 0 {
        assert(path_upto(layers, key, lsn) =~= none);
        assert(layers.filter(keep) =~= none);
        assert(none.filter(keep) =~= none);
    } else {
        let n = layers.len() - 1;
        let init = layers.drop_last();
        let newest = layers.last();
        let kept_init = init.filter(keep);
        let old_path = path_upto(init, key, lsn);
        assert(layers[n] == newest);
        assert forall|k: int| 0 <= k < init.len() implies #[trigger] init[k] == layers[k] by {}
        lemma_path_after_removal(init, cutoff, key, lsn);
        lemma_path_upto(init, key, lsn);
        if !newest.covers(key, lsn) {
            if keep(newest) {
                assert(kept_init.push(newest).drop_last() =~= kept_init);
            }
        } else if keep(newest) {
            assert(kept_init.push(newest).drop_last() =~= kept_init);
            if newest.is_delta {
                let whole = seq![newest] + old_path;
                Seq::filter_distributes_over_add(seq![newest], old_path, keep);
                assert(seq![newest].filter(keep) =~= seq![newest]) by {
                    assert(seq![newest].drop_last() =~= none);
                    assert(none.filter(keep) =~= none);
                    assert(seq![newest].last() == newest);
                }
            } else {
                assert(seq![newest].filter(keep) =~= seq![newest]) by {
                    assert(seq![newest].drop_last() =~= none);
                    assert(none.filter(keep) =~= none);
                    assert(seq![newest].last() == newest);
                }
            }
        } else {
            // Every older layer that covers the read ends before `newest`
            // begins, and so goes too.
            assert forall|k: int| 0 <= k < init.len() && (#[trigger] init[k]).covers(
                key,
                lsn,
            ) implies !keep(init[k]) by {
                lemma_covering_layers_stack(layers, k, n, key, lsn);
                assert(newest.wf());
            }
            assert forall|k: int| 0 <= k < kept_init.len() implies !(
            #[trigger] kept_init[k]).covers(key, lsn) by {
                init.lemma_filter_pred(keep, k);
                assert(kept_init.contains(kept_init[k]));
                init.lemma_filter_contains_rev(keep, kept_init[k]);
                let j = choose|j: int| 0 <= j < init.len() && init[j] == kept_init[k];
                if init[j].covers(key, lsn) {
                    assert(!keep(init[j]));
                }
            }
            lemma_no_cover_no_path(kept_init, key, lsn);
            assert forall|k: int| 0 <= k < old_path.len() implies !keep(
                #[trigger] old_path[k],
            ) by {
                assert(init.contains(old_path[k]));
                let j = choose|j: int| 0 <= j < init.len() && init[j] == old_path[k];
                assert(init[j].covers(key, lsn));
            }
            lemma_filter_none(old_path, keep);
            let whole = path_upto(layers, key, lsn);
            if newest.is_delta {
                Seq::filter_distributes_over_add(seq![newest], old_path, keep);
            }
            assert(seq![newest].filter(keep) =~= none) by {
                assert(seq![newest].drop_last() =~= none);
                assert(none.filter(keep) =~= none);
                assert(seq![newest].last() == newest);
            }
            assert(none + none =~= none);
        }
    }
}

/// In a well-formed set no two layers overlap, whichever is taken first.
pub proof fn lemma_no_overlap<D>(layers: Seq<Arc<HistoricLayer<D>>>, i: int, j: int)
    requires
        all_wf(layers),
        pairwise_disjoint(layers),
        0 <= i < layers.len(),
        0 <= j < layers.len(),
        i != j,
    ensures
        !rect_overlaps(*layers[i], layers[j].key_range, layers[j].lsn_range),
{
    assert(layers[i].wf() && layers[j].wf());
    if j < i {
        assert(!rect_overlaps(*layers[j], layers[i].key_range, layers[i].lsn_range));
    }
}

/// `Arc::clone`: the result points to the value that `a` points to.
#[verifier::external_body]
fn share<T>(a: &Arc<T>) -> (r: Arc<T>)
    ensures
        r == *a,
{
    Arc::clone(a)
}

/// The set of historic layers, in one version. A new layer makes a new
/// version; the versions share the layers.
pub struct HistoricStuff<D> {
    /// The layers by rising start LSN.
    layers: Vec<Arc<HistoricLayer<D>>>,
}

impl<D> HistoricStuff<D> {
    /// The layers, by rising start LSN.
    pub closed spec fn layers(&self) -> Seq<Arc<HistoricLayer<D>>> {
        self.layers@
    }

    /// Every layer is well formed, the layers are kept by rising start LSN,
    /// and no two overlap.
    pub open spec fn wf(&self) -> bool {
        all_wf(self.layers()) && start_ordered(self.layers()) && pairwise_disjoint(self.layers())
    }

    /// The set without layers.
    pub fn new() -> (h: HistoricStuff<D>)
        ensures
            h.wf(),
            h.layers() == Seq::<Arc<HistoricLayer<D>>>::empty(),
    {
        HistoricStuff { layers: Vec::new() }
    }

    /// How many layers the set holds.
    pub fn len(&self) -> (n: usize)
        ensures
            n == self.layers().len(),
    {
        self.layers.len()
    }

    /// The layer at `i`, counted by rising start LSN.
    pub fn layer(&self, i: usize) -> (l: &Arc<HistoricLayer<D>>)
        requires
            i < self.layers().len(),
        ensures
            *l == self.layers()[i as int],
    {
        &self.layers[i]
    }

    /// Whether no layer of the set overlaps the rectangle given.
    pub fn is_free(&self, key_range: &Range<Key>, lsn_range: &Range<Lsn>) -> (r: bool)
        ensures
            r == none_overlaps(self.layers(), *key_range, *lsn_range),
    {
        let mut i: usize = 0;
        while i < self.layers.len()
            invariant
                0 <= i <= self.layers@.len(),
                forall|k: int|
                    0 <= k < i ==> !rect_overlaps(
                        *(#[trigger] self.layers@[k]),
                        *key_range,
                        *lsn_range,
                    ),
            decreases self.layers@.len() - i,
        {
            if self.layers[i].overlaps(key_range, lsn_range) {
                return false;
            }
            i += 1;
        }
        true
    }

    /// The LSN by which every layer of the set has ended: the largest end of
    /// an LSN range, or zero for a set without layers.
    pub fn end_lsn(&self) -> (r: Lsn)
        ensures
            all_end_by(self.layers(), r),
            r.0 == 0 || exists|i: int|
                0 <= i < self.layers().len() && (#[trigger] self.layers()[i]).lsn_range.end == r,
    {
        let mut r = Lsn(0);
        let mut i: usize = 0;
        while i < self.layers.len()
            invariant
                0 <= i <= self.layers@.len(),
                forall|k: int| 0 <= k < i ==> (#[trigger] self.layers@[k]).lsn_range.end.0 <= r.0,
                r.0 == 0 || exists|k: int|
                    0 <= k < i && (#[trigger] self.layers@[k]).lsn_range.end == r,
            decreases self.layers@.len() - i,
        {
            let end = self.layers[i].lsn_range.end;
            if end.0 > r.0 {
                r = end;
            }
            i += 1;
        }
        r
    }

    /// The layers that a read of `key` at `lsn` has to visit, the newest
    /// first, down to the newest image layer. Empty where no layer covers the
    /// read. Never fails.
    pub fn get_reconstruct_path(&self, key: Key, lsn: Lsn) -> (r: Result<
        Vec<Arc<HistoricLayer<D>>>,
        GetReconstructPathError,
    >)
        ensures
            r is Ok,
            r.unwrap()@ == path_upto(self.layers(), key, lsn),
    {
        let mut path: Vec<Arc<HistoricLayer<D>>> = Vec::new();
        let mut i: usize = self.layers.len();
        proof {
            assert(self.layers@.subrange(0, i as int) =~= self.layers@);
            assert(path@ + path_upto(self.layers@, key, lsn) =~= path_upto(self.layers@, key, lsn));
        }
        while i > 0
            invariant
                0 <= i <= self.layers@.len(),
                path_upto(self.layers@, key, lsn) == path@ + path_upto(
                    self.layers@.subrange(0, i as int),
                    key,
                    lsn,
                ),
            decreases i,
        {
            let ghost head = self.layers@.subrange(0, i as int);
            let ghost path0 = path@;
            let l = &self.layers[i - 1];
            proof {
                assert(head.drop_last() =~= self.layers@.subrange(0, i - 1));
                assert(head.last() == self.layers@[i - 1]);
            }
            if l.is_covering(key, lsn) {
                path.push(share(l));
                if !l.is_delta {
                    proof {
                        assert(path@ =~= path0 + seq![*l]);
                    }
                    return Ok(path);
                }
                proof {
                    assert(path@ + path_upto(head.drop_last(), key, lsn) =~= path0 + (seq![*l]
                        + path_upto(head.drop_last(), key, lsn)));
                }
            }
            i -= 1;
        }
        proof {
            assert(self.layers@.subrange(0, 0) =~= Seq::<Arc<HistoricLayer<D>>>::empty());
            assert(path@ + Seq::<Arc<HistoricLayer<D>>>::empty() =~= path@);
        }
        Ok(path)
    }

    /// A new version of the set that holds `layer` too, or `LayersOverlap`
    /// where `layer` overlaps a layer of the set. `self` stays as it is.
    pub fn with_layer(&self, layer: HistoricLayer<D>) -> (r: Result<HistoricStuff<D>,
        LayersOverlap>)
        requires
            self.wf(),
            layer.wf(),
        ensures
            r is Ok == none_overlaps(self.layers(), layer.key_range, layer.lsn_range),
            r is Ok ==> {
                &&& r.unwrap().wf()
                &&& exists|at: int|
                    0 <= at <= self.layers().len() && r.unwrap().layers()
                        == #[trigger] self.layers().insert(at, Arc::new(layer))
                &&& Self::insertion_point(self.layers(), layer.lsn_range.start)
                    == self.layers().len()
                    ==> r.unwrap().layers() == self.layers().push(Arc::new(layer))
            },
    {
        if !self.is_free(&layer.key_range, &layer.lsn_range) {
            return Err(LayersOverlap);
        }
        let mut layers: Vec<Arc<HistoricLayer<D>>> = Vec::new();
        let mut i: usize = 0;
        while i < self.layers.len()
            invariant
                0 <= i <= self.layers@.len(),
                layers@ == self.layers@.subrange(0, i as int),
            decreases self.layers@.len() - i,
        {
            layers.push(share(&self.layers[i]));
            proof {
                assert(layers@ =~= self.layers@.subrange(0, i + 1));
            }
            i += 1;
        }
        proof {
            assert(layers@ =~= self.layers@);
        }
        let mut at: usize = layers.len();
        while at > 0 && layers[at - 1].lsn_range.start.0 > layer.lsn_range.start.0
            invariant
                0 <= at <= layers@.len(),
                layers@ == self.layers@,
                forall|k: int|
                    at <= k < layers@.len() ==> (#[trigger] layers@[k]).lsn_range.start.0
                        > layer.lsn_range.start.0,
            decreases at,
        {
            at -= 1;
        }
        let new_layer = Arc::new(layer);
        layers.insert(at, new_layer);
        proof {
            let before = self.layers@;
            let after = layers@;
            assert(after == before.insert(at as int, new_layer));
            assert forall|a: int| 0 <= a < after.len() implies (#[trigger] after[a]).wf() by {
                if a < at {
                    assert(after[a] == before[a]);
                } else if a > at {
                    assert(after[a] == before[a - 1]);
                }
            }
            assert forall|a: int, b: int| 0 <= a < b < after.len() implies (
            #[trigger] after[a]).lsn_range.start.0 <= (#[trigger] after[b]).lsn_range.start.0
                && !rect_overlaps(*after[a], after[b].key_range, after[b].lsn_range) by {
                let a0 = if a < at {
                    a
                } else {
                    a - 1
                };
                let b0 = if b < at {
                    b
                } else {
                    b - 1
                };
                if a != at {
                    assert(after[a] == before[a0]);
                }
                if b != at {
                    assert(after[b] == before[b0]);
                }
                if a == at {
                    assert(!rect_overlaps(*before[b0], layer.key_range, layer.lsn_range));
                    assert(before[b0].wf());
                } else if b == at {
                    assert(!rect_overlaps(*before[a0], layer.key_range, layer.lsn_range));
                    if at > 0 {
                        assert(before[a0].lsn_range.start.0 <= before[at - 1].lsn_range.start.0);
                    }
                }
            }
            if Self::insertion_point(before, layer.lsn_range.start) == before.len() {
                Self::lemma_insertion_point(before, layer.lsn_range.start, at as int);
                assert(after =~= before.push(new_layer));
            }
        }
        Ok(HistoricStuff { layers })
    }

    /// Where a layer that starts at `start` goes: behind the last layer that
    /// does not start later.
    pub open spec fn insertion_point(layers: Seq<Arc<HistoricLayer<D>>>, start: Lsn) -> int
        decreases layers.len(),
    {
        if layers.len() == 0 {
            0
        } else if layers.last().lsn_range.start.0 > start.0 {
            Self::insertion_point(layers.drop_last(), start)
        } else {
            layers.len() as int
        }
    }

    proof fn lemma_insertion_point(layers: Seq<Arc<HistoricLayer<D>>>, start: Lsn, at: int)
        requires
            0 <= at <= layers.len(),
            forall|k: int|
                at <= k < layers.len() ==> (#[trigger] layers[k]).lsn_range.start.0 > start.0,
            at > 0 ==> layers[at - 1].lsn_range.start.0 <= start.0,
        ensures
            Self::insertion_point(layers, start) == at,
        decreases layers.len(),
    {
        if layers.len() > 0 && at < layers.len() {
            assert(layers.last() == layers[layers.len() - 1]);
            let init = layers.drop_last();
            assert forall|k: int| at <= k < init.len() implies (
            #[trigger] init[k]).lsn_range.start.0 > start.0 by {
                assert(init[k] == layers[k]);
            }
            if at > 0 {
                assert(init[at - 1] == layers[at - 1]);
            }
            Self::lemma_insertion_point(init, start, at);
        }
    }

    /// The delta layer that a frozen layer of records becomes: over all keys,
    /// from the first LSN of the records to just behind the last.
    pub open spec fn flushed(records: Seq<Record<D>>, vec: Vec<Record<D>>) -> HistoricLayer<D> {
        HistoricLayer {
            is_delta: true,
            key_range: Key(0)..Key(0xffff_ffff_ffff_ffff),
            lsn_range: records.first().lsn..Lsn((records.last().lsn.0 + 1) as u64),
            records: vec,
        }
    }

    /// `after` is `before` with the layer made of `records`, held in `vec`,
    /// at the place `at`.
    pub open spec fn flush_inserted(
        after: Seq<Arc<HistoricLayer<D>>>,
        before: Seq<Arc<HistoricLayer<D>>>,
        records: Seq<Record<D>>,
        at: int,
        vec: Vec<Record<D>>,
    ) -> bool {
        0 <= at <= before.len() && vec@ == records && after == before.insert(
            at,
            Arc::new(Self::flushed(records, vec)),
        )
    }

    /// `after` is `before` with the layer made of `records`, held in `vec`,
    /// as the newest.
    pub open spec fn flush_pushed(
        after: Seq<Arc<HistoricLayer<D>>>,
        before: Seq<Arc<HistoricLayer<D>>>,
        records: Seq<Record<D>>,
        vec: Vec<Record<D>>,
    ) -> bool {
        vec@ == records && after == before.push(Arc::new(Self::flushed(records, vec)))
    }

    /// A new version of the set that also refers to the layer made of the
    /// records of `inmem`. A layer without records adds nothing. The layer
    /// made must not overlap a layer of the set.
    pub fn make_historic(&self, inmem: InMemoryLayer<D>) -> (r: HistoricStuff<D>)
        requires
            self.wf(),
            inmem.wf(),
            forall|i: int|
                0 <= i < inmem.records().len() ==> (#[trigger] inmem.records()[i]).key.0
                    < u64::MAX && inmem.records()[i].lsn.0 < u64::MAX,
            inmem.records().len() > 0 ==> none_overlaps(
                self.layers(),
                Key(0)..Key(0xffff_ffff_ffff_ffff),
                inmem.records().first().lsn..Lsn((inmem.records().last().lsn.0 + 1) as u64),
            ),
        ensures
            r.wf(),
            inmem.records().len() == 0 ==> r.layers() == self.layers(),
            inmem.records().len() > 0 ==> exists|at: int, vec: Vec<Record<D>>|
                #[trigger] Self::flush_inserted(
                    r.layers(),
                    self.layers(),
                    inmem.records(),
                    at,
                    vec,
                ),
            inmem.records().len() > 0 && all_end_by(self.layers(), inmem.records().first().lsn)
                ==> exists|vec: Vec<Record<D>>| #[trigger]
                Self::flush_pushed(r.layers(), self.layers(), inmem.records(), vec),
    {
        match inmem.lsn_bounds() {
            None => {
                let mut layers: Vec<Arc<HistoricLayer<D>>> = Vec::new();
                let mut i: usize = 0;
                while i < self.layers.len()
                    invariant
                        0 <= i <= self.layers@.len(),
                        layers@ == self.layers@.subrange(0, i as int),
                    decreases self.layers@.len() - i,
                {
                    layers.push(share(&self.layers[i]));
                    proof {
                        assert(layers@ =~= self.layers@.subrange(0, i + 1));
                    }
                    i += 1;
                }
                proof {
                    assert(layers@ =~= self.layers@);
                }
                HistoricStuff { layers }
            },
            Some((first, last)) => {
                let ghost rs = inmem.records();
                let records = inmem.into_records();
                let layer = HistoricLayer {
                    is_delta: true,
                    key_range: Key(0)..Key(0xffff_ffff_ffff_ffff),
                    lsn_range: first..Lsn(last.0 + 1),
                    records,
                };
                proof {
                    assert(layer == Self::flushed(rs, records));
                    assert(rs[rs.len() - 1] == rs.last());
                    assert(layer.wf());
                    if all_end_by(self.layers(), first) {
                        let ls = self.layers();
                        if ls.len() > 0 {
                            assert(ls[ls.len() - 1].wf());
                            assert(ls[ls.len() - 1].lsn_range.end.0 <= first.0);
                            assert(ls.last() == ls[ls.len() - 1]);
                        }
                        assert(Self::insertion_point(ls, first) == ls.len());
                    }
                }
                match self.with_layer(layer) {
                    Ok(r) => {
                        proof {
                            let at = choose|at: int|
                                0 <= at <= self.layers().len() && r.layers()
                                    == #[trigger] self.layers().insert(at, Arc::new(layer));
                            assert(Self::flush_inserted(r.layers(), self.layers(), rs, at,
                                records));
                            if all_end_by(self.layers(), first) {
                                assert(Self::flush_pushed(r.layers(), self.layers(), rs, records));
                            }
                        }
                        r
                    },
                    Err(_) => {
                        proof {
                            assert(false);
                        }
                        HistoricStuff { layers: Vec::new() }
                    },
                }
            },
        }
    }

    /// A new version of the set without the layers that end at or before
    /// `cutoff`, together with their number.
    pub fn without_layers_before(&self, cutoff: Lsn) -> (r: (HistoricStuff<D>, usize))
        requires
            self.wf(),
        ensures
            r.0.wf(),
            r.0.layers() == self.layers().filter(ends_after(cutoff)),
            r.1 == self.layers().len() - r.0.layers().len(),
    {
        let ghost keep = ends_after::<D>(cutoff);
        let mut layers: Vec<Arc<HistoricLayer<D>>> = Vec::new();
        let mut removed: usize = 0;
        let mut i: usize = 0;
        // where each kept layer stood
        let ghost mut idx: Seq<int> = Seq::empty();
        proof {
            assert(self.layers@.subrange(0, 0) =~= Seq::<Arc<HistoricLayer<D>>>::empty());
        }
        while i < self.layers.len()
            invariant
                0 <= i <= self.layers@.len(),
                keep == ends_after::<D>(cutoff),
                layers@ == self.layers@.subrange(0, i as int).filter(keep),
                removed + layers@.len() == i,
                idx.len() == layers@.len(),
                forall|a: int|
                    0 <= a < idx.len() ==> 0 <= (#[trigger] idx[a]) < i && layers@[a]
                        == self.layers@[idx[a]],
                forall|a: int, b: int|
                    0 <= a < b < idx.len() ==> (#[trigger] idx[a]) < (#[trigger] idx[b]),
            decreases self.layers@.len() - i,
        {
            let ghost head = self.layers@.subrange(0, i as int);
            let ghost idx0 = idx;
            let l = &self.layers[i];
            proof {
                assert(self.layers@.subrange(0, i + 1) =~= head.push(*l));
                assert(head.push(*l).drop_last() =~= head);
                reveal(Seq::filter);
            }
            if l.lsn_range.end.0 > cutoff.0 {
                layers.push(share(l));
                proof {
                    idx = idx0.push(i as int);
                    assert forall|a: int| 0 <= a < idx.len() implies 0 <= (#[trigger] idx[a]) < i
                        + 1 && layers@[a] == self.layers@[idx[a]] by {
                        if a < idx0.len() {
                            assert(idx[a] == idx0[a]);
                        }
                    }
                    assert forall|a: int, b: int| 0 <= a < b < idx.len() implies (
                    #[trigger] idx[a]) < (#[trigger] idx[b]) by {
                        assert(idx[a] == idx0[a]);
                        if b < idx0.len() {
                            assert(idx[b] == idx0[b]);
                        }
                    }
                }
            } else {
                removed += 1;
            }
            i += 1;
        }
        proof {
            assert(self.layers@.subrange(0, self.layers@.len() as int) =~= self.layers@);
            let all = self.layers@;
            let kept = layers@;
            assert forall|a: int| 0 <= a < kept.len() implies (#[trigger] kept[a]).wf() by {
                assert(kept[a] == all[idx[a]]);
            }
            assert forall|a: int, b: int| 0 <= a < b < kept.len() implies (
            #[trigger] kept[a]).lsn_range.start.0 <= (#[trigger] kept[b]).lsn_range.start.0
                && !rect_overlaps(*kept[a], kept[b].key_range, kept[b].lsn_range) by {
                assert(idx[a] < idx[b]);
                assert(kept[a] == all[idx[a]] && kept[b] == all[idx[b]]);
            }
        }
        (HistoricStuff { layers }, removed)
    }
}

} // verus!
