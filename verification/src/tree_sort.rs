//! Ordering the timelines of a tenant so that every ancestor comes before its
//! descendants.

use crate::id::TimelineId;
use crate::metadata::TimelineMetadata;
use std::collections::HashMap;
use vstd::multiset::Multiset;
use vstd::prelude::*;

verus! {

/// A timeline to load: its id and its metadata, which names the ancestor.
pub type TimelineEntry = (TimelineId, TimelineMetadata);

/// A timeline that cannot be loaded, together with the ancestor it waits for.
#[derive(Clone, Copy, Debug, PartialEq, Eq, Structural)]
pub struct Orphan {
    pub timeline_id: TimelineId,
    pub missing_ancestor: TimelineId,
}

/// Some timelines have an ancestor that is absent or that can itself not be
/// loaded. `orphans` names every one of them.
#[derive(Debug)]
pub struct MissingAncestors {
    pub orphans: Vec<Orphan>,
}

/// A timeline with ancestor `ancestor` can be loaded after at most `fuel`
/// other loads: it is a root, or its ancestor is among `ts` and can be loaded
/// after fewer.
pub open spec fn rooted(ts: Seq<TimelineEntry>, ancestor: Option<TimelineId>, fuel: nat) -> bool
    decreases fuel,
{
    match ancestor {
        None => true,
        Some(a) => fuel > 0 && exists|k: int|
            0 <= k < ts.len() && (#[trigger] ts[k]).0 == a && rooted(
                ts,
                ts[k].1.ancestor_timeline,
                (fuel - 1) as nat,
            ),
    }
}

/// Following ancestors from a timeline with ancestor `ancestor` ends at a
/// root: no ancestor on the way is missing, and the way is not a cycle.
pub open spec fn has_root_path(ts: Seq<TimelineEntry>, ancestor: Option<TimelineId>) -> bool {
    exists|fuel: nat| rooted(ts, ancestor, fuel)
}

/// Every timeline in `out` is a root or comes after its ancestor.
pub open spec fn is_load_order(out: Seq<TimelineEntry>) -> bool {
    forall|j: int|
        0 <= j < out.len() ==> match (#[trigger] out[j]).1.ancestor_timeline {
            None => true,
            Some(a) => exists|k: int| 0 <= k < j && (#[trigger] out[k]).0 == a,
        }
}

/// The orphan record of an entry that has an ancestor.
pub open spec fn orphan_of(e: TimelineEntry) -> Orphan {
    Orphan { timeline_id: e.0, missing_ancestor: e.1.ancestor_timeline.unwrap() }
}

/// No timeline in `ids` has the id `a`.
pub open spec fn id_absent(ids: Seq<TimelineEntry>, a: TimelineId) -> bool {
    forall|k: int| 0 <= k < ids.len() ==> (#[trigger] ids[k]).0 != a
}

/// What the sort keeps true of the timelines still waiting for an ancestor.
spec fn waiting_ok(result: Seq<TimelineEntry>, later: Seq<TimelineEntry>) -> bool {
    forall|i: int|
        0 <= i < later.len() ==> {
            &&& (#[trigger] later[i]).1.ancestor_timeline is Some
            &&& id_absent(result, later[i].1.ancestor_timeline.unwrap())
        }
}

/// What the sort keeps true of the timelines ready to be loaded.
spec fn ready_ok(
    ts: Seq<TimelineEntry>,
    result: Seq<TimelineEntry>,
    now: Seq<TimelineEntry>,
) -> bool {
    forall|i: int|
        0 <= i < now.len() ==> {
            &&& has_root_path(ts, (#[trigger] now[i]).1.ancestor_timeline)
            &&& match now[i].1.ancestor_timeline {
                None => true,
                Some(a) => exists|k: int| 0 <= k < result.len() && (#[trigger] result[k]).0 == a,
            }
        }
}

/// What the sort keeps true of the timelines already ordered.
spec fn loaded_ok(ts: Seq<TimelineEntry>, result: Seq<TimelineEntry>) -> bool {
    &&& is_load_order(result)
    &&& forall|i: int|
        0 <= i < result.len() ==> has_root_path(ts, (#[trigger] result[i]).1.ancestor_timeline)
}

proof fn lemma_rooted_more_fuel(
    ts: Seq<TimelineEntry>,
    ancestor: Option<TimelineId>,
    fuel: nat,
    more: nat,
)
    requires
        rooted(ts, ancestor, fuel),
        fuel <= more,
    ensures
        rooted(ts, ancestor, more),
    decreases fuel,
{
    if ancestor is Some {
        let a = ancestor.unwrap();
        let k = choose|k: int|
            0 <= k < ts.len() && (#[trigger] ts[k]).0 == a && rooted(
                ts,
                ts[k].1.ancestor_timeline,
                (fuel - 1) as nat,
            );
        lemma_rooted_more_fuel(ts, ts[k].1.ancestor_timeline, (fuel - 1) as nat, (more - 1) as nat);
    }
}

/// A timeline whose ancestor is among `ts` and has a path to a root has one
/// itself.
proof fn lemma_child_of_rooted(ts: Seq<TimelineEntry>, parent: TimelineEntry, a: TimelineId)
    requires
        ts.contains(parent),
        parent.0 == a,
        has_root_path(ts, parent.1.ancestor_timeline),
    ensures
        has_root_path(ts, Some(a)),
{
    let fuel = choose|fuel: nat| rooted(ts, parent.1.ancestor_timeline, fuel);
    let k = choose|k: int| 0 <= k < ts.len() && ts[k] == parent;
    assert(ts[k].0 == a && rooted(ts, ts[k].1.ancestor_timeline, fuel));
    assert(rooted(ts, Some(a), fuel + 1));
}

/// A timeline that is still waiting when nothing is ready any more has no
/// path to a root.
proof fn lemma_waiting_is_unrooted(
    ts: Seq<TimelineEntry>,
    result: Seq<TimelineEntry>,
    later: Seq<TimelineEntry>,
    ancestor: Option<TimelineId>,
    fuel: nat,
)
    requires
        ts.to_multiset() == result.to_multiset().add(later.to_multiset()),
        waiting_ok(result, later),
        ancestor is Some,
        id_absent(result, ancestor.unwrap()),
    ensures
        !rooted(ts, ancestor, fuel),
    decreases fuel,
{
    broadcast use vstd::seq_lib::to_multiset_contains;

    if fuel > 0 {
        let a = ancestor.unwrap();
        assert forall|k: int| 0 <= k < ts.len() && (#[trigger] ts[k]).0 == a implies !rooted(
            ts,
            ts[k].1.ancestor_timeline,
            (fuel - 1) as nat,
        ) by {
            let e = ts[k];
            assert(ts.contains(e));
            assert(ts.to_multiset().count(e) > 0);
            assert(result.to_multiset().count(e) > 0 || later.to_multiset().count(e) > 0);
            if result.contains(e) {
                let j = choose|j: int| 0 <= j < result.len() && result[j] == e;
                assert(result[j].0 == a);
            } else {
                assert(later.contains(e));
                let j = choose|j: int| 0 <= j < later.len() && later[j] == e;
                assert(later[j].1.ancestor_timeline is Some);
                lemma_waiting_is_unrooted(
                    ts,
                    result,
                    later,
                    e.1.ancestor_timeline,
                    (fuel - 1) as nat,
                );
            }
        }
    }
}

/// Splits the waiting timelines into the children of `id` and the rest.
fn take_children(later: Vec<TimelineEntry>, id: TimelineId) -> (r: (
    Vec<TimelineEntry>,
    Vec<TimelineEntry>,
))
    ensures
        later@.to_multiset() == r.0@.to_multiset().add(r.1@.to_multiset()),
        forall|i: int| 0 <= i < r.0@.len() ==> (#[trigger] r.0@[i]).1.ancestor_timeline == Some(id),
        forall|i: int|
            0 <= i < r.1@.len() ==> (#[trigger] r.1@[i]).1.ancestor_timeline != Some(id)
                && later@.contains(r.1@[i]),
{
    broadcast use vstd::seq_lib::to_multiset_build;
    broadcast use vstd::multiset::group_multiset_axioms;

    let mut children: Vec<TimelineEntry> = Vec::new();
    let mut rest: Vec<TimelineEntry> = Vec::new();
    let mut i: usize = 0;
    proof {
        let none = Seq::<TimelineEntry>::empty();
        vstd::seq_lib::to_multiset_len(none);
        assert(later@.subrange(0, 0) =~= none);
        assert(children@ =~= none && rest@ =~= none);
        assert(none.to_multiset() =~= none.to_multiset().add(none.to_multiset()));
    }
    while i < later.len()
        invariant
            0 <= i <= later.len(),
            later@.subrange(0, i as int).to_multiset() == children@.to_multiset().add(
                rest@.to_multiset(),
            ),
            forall|j: int|
                0 <= j < children@.len() ==> (#[trigger] children@[j]).1.ancestor_timeline == Some(
                    id,
                ),
            forall|j: int|
                0 <= j < rest@.len() ==> (#[trigger] rest@[j]).1.ancestor_timeline != Some(id)
                    && later@.contains(rest@[j]),
        decreases later.len() - i,
    {
        broadcast use vstd::seq_lib::to_multiset_build;
        broadcast use vstd::multiset::group_multiset_axioms;

        let e = later[i];
        let ghost children0 = children@;
        let ghost rest0 = rest@;
        proof {
            assert(later@.subrange(0, i + 1) =~= later@.subrange(0, i as int).push(e));
        }
        let is_child = match e.1.ancestor_timeline {
            Some(a) => a == id,
            None => false,
        };
        if is_child {
            children.push(e);
        } else {
            rest.push(e);
        }
        proof {
            assert(later@.subrange(0, i as int).push(e).to_multiset() =~= later@.subrange(
                0,
                i as int,
            ).to_multiset().insert(e));
            if is_child {
                assert(children@ == children0.push(e));
                assert(children@.to_multiset() =~= children0.to_multiset().insert(e));
            } else {
                assert(rest@ == rest0.push(e));
                assert(rest@.to_multiset() =~= rest0.to_multiset().insert(e));
            }
            assert(later@.subrange(0, i + 1).to_multiset() =~= children@.to_multiset().add(
                rest@.to_multiset(),
            ));
        }
        i += 1;
    }
    assert(later@.subrange(0, later@.len() as int) =~= later@);
    (children, rest)
}

/// `r` is what ordering the timelines `timelines` comes to. It succeeds
/// exactly when every timeline has a path to a root through the timelines
/// given; the result then holds the same timelines, each after its
/// ancestor. Otherwise the error names every timeline for which the path is
/// broken or circular, and no others.
pub open spec fn is_sorting_of(
    timelines: Seq<TimelineEntry>,
    r: Result<Vec<TimelineEntry>, MissingAncestors>,
) -> bool {
    match r {
        Ok(out) => {
            &&& out@.to_multiset() == timelines.to_multiset()
            &&& is_load_order(out@)
            &&& forall|i: int|
                0 <= i < timelines.len() ==> has_root_path(
                    timelines,
                    (#[trigger] timelines[i]).1.ancestor_timeline,
                )
        },
        Err(e) => {
            &&& e.orphans@.len() > 0
            &&& forall|j: int|
                0 <= j < e.orphans@.len() ==> !has_root_path(
                    timelines,
                    Some((#[trigger] e.orphans@[j]).missing_ancestor),
                ) && exists|i: int|
                    0 <= i < timelines.len() && (#[trigger] timelines[i]).1.ancestor_timeline
                        is Some && orphan_of(timelines[i]) == e.orphans@[j]
            &&& forall|i: int|
                0 <= i < timelines.len() && !has_root_path(
                    timelines,
                    (#[trigger] timelines[i]).1.ancestor_timeline,
                ) ==> e.orphans@.contains(orphan_of(timelines[i]))
        },
    }
}

/// `entries` lists what the map `timelines` holds, each timeline once, in
/// some order.
pub open spec fn lists(entries: Seq<TimelineEntry>, timelines: Map<u128, TimelineMetadata>) -> bool {
    &&& entries.len() == timelines.dom().len()
    &&& forall|i: int|
        0 <= i < entries.len() ==> timelines.contains_key((#[trigger] entries[i]).0.0)
            && timelines[entries[i].0.0] == entries[i].1
    &&& forall|i: int, j: int|
        0 <= i < j < entries.len() ==> (#[trigger] entries[i]).0 != (#[trigger] entries[j]).0
}

/// The timelines that `timelines` holds, in the order in which the map is
/// walked.
pub fn entries_of(timelines: &HashMap<u128, TimelineMetadata>) -> (entries: Vec<TimelineEntry>)
    ensures
        lists(entries@, timelines@),
{
    broadcast use vstd::std_specs::hash::group_hash_axioms;

    let mut entries: Vec<TimelineEntry> = Vec::new();
    for (id, metadata) in it: timelines.iter()
        invariant
            entries@.len() == it.index(),
            it.seq().no_duplicates(),
            it.seq().len() == timelines@.dom().len(),
            forall|i: int|
                0 <= i < entries@.len() ==> timelines@.contains_key((#[trigger] entries@[i]).0.0)
                    && timelines@[entries@[i].0.0] == entries@[i].1,
            forall|i: int|
                0 <= i < entries@.len() ==> (#[trigger] entries@[i]).0.0 == *it.seq()[i].0
                    && entries@[i].1 == *it.seq()[i].1,
    {
        entries.push((TimelineId(*id), *metadata));
    }
    proof {
        assert forall|i: int, j: int| 0 <= i < j < entries@.len() implies (
        #[trigger] entries@[i]).0 != (#[trigger] entries@[j]).0 by {
            if entries@[i].0 == entries@[j].0 {
                assert(entries@[i].1 == entries@[j].1);
            }
        }
    }
    entries
}

/// Orders the timelines of a map so that the ancestor of each comes before
/// it. In which order the map is walked is not known: the answer is that
/// for the timelines in one of their orders.
pub fn tree_sort_timelines(timelines: HashMap<u128, TimelineMetadata>) -> (r: Result<
    Vec<TimelineEntry>,
    MissingAncestors,
>)
    ensures
        exists|entries: Seq<TimelineEntry>| #[trigger]
            lists(entries, timelines@) && is_sorting_of(entries, r),
{
    let entries = entries_of(&timelines);
    let ghost walked = entries@;
    let r = tree_sort_entries(entries);
    proof {
        assert(lists(walked, timelines@) && is_sorting_of(walked, r));
    }
    r
}

/// Orders timelines so that the ancestor of each comes before it.
///
/// Succeeds exactly when every timeline has a path to a root through the
/// timelines given. The result then holds the same timelines, each after its
/// ancestor. Otherwise the error names every timeline for which the path
/// is broken or circular, and no others.
pub fn tree_sort_entries(timelines: Vec<TimelineEntry>) -> (r: Result<
    Vec<TimelineEntry>,
    MissingAncestors,
>)
    ensures
        is_sorting_of(timelines@, r),
{
    broadcast use vstd::seq_lib::to_multiset_build;
    broadcast use vstd::seq_lib::to_multiset_contains;
    broadcast use vstd::multiset::group_multiset_axioms;

    let ghost ts = timelines@;
    let mut result: Vec<TimelineEntry> = Vec::new();
    let mut now: Vec<TimelineEntry> = Vec::new();
    let mut later: Vec<TimelineEntry> = Vec::new();

    let mut i: usize = 0;
    assert(ts.subrange(0, 0) =~= Seq::<TimelineEntry>::empty());
    while i < timelines.len()
        invariant
            ts == timelines@,
            0 <= i <= timelines.len(),
            ts.subrange(0, i as int).to_multiset() == now@.to_multiset().add(later@.to_multiset()),
            forall|j: int| 0 <= j < now@.len() ==> (#[trigger] now@[j]).1.ancestor_timeline is None,
            forall|j: int|
                0 <= j < later@.len() ==> (#[trigger] later@[j]).1.ancestor_timeline is Some,
        decreases timelines.len() - i,
    {
        broadcast use vstd::seq_lib::to_multiset_build;
        broadcast use vstd::multiset::group_multiset_axioms;

        let e = timelines[i];
        let ghost now0 = now@;
        let ghost later0 = later@;
        proof {
            assert(ts.subrange(0, i + 1) =~= ts.subrange(0, i as int).push(e));
        }
        if e.1.ancestor_timeline.is_some() {
            later.push(e);
        } else {
            now.push(e);
        }
        proof {
            assert(ts.subrange(0, i as int).push(e).to_multiset() =~= ts.subrange(
                0,
                i as int,
            ).to_multiset().insert(e));
            if e.1.ancestor_timeline is Some {
                assert(later@ == later0.push(e));
                assert(later@.to_multiset() =~= later0.to_multiset().insert(e));
            } else {
                assert(now@ == now0.push(e));
                assert(now@.to_multiset() =~= now0.to_multiset().insert(e));
            }
            assert(ts.subrange(0, i + 1).to_multiset() =~= now@.to_multiset().add(
                later@.to_multiset(),
            ));
        }
        i += 1;
    }
    proof {
        assert(ts.subrange(0, ts.len() as int) =~= ts);
        assert(result@.to_multiset() =~= Multiset::<TimelineEntry>::empty());
        assert(ts.to_multiset() =~= result@.to_multiset().add(now@.to_multiset()).add(
            later@.to_multiset(),
        ));
        assert forall|j: int| 0 <= j < now@.len() implies has_root_path(
            ts,
            (#[trigger] now@[j]).1.ancestor_timeline,
        ) by {
            assert(rooted(ts, now@[j].1.ancestor_timeline, 0));
        }
    }

    while now.len() > 0
        invariant
            ts == timelines@,
            ts.to_multiset() == result@.to_multiset().add(now@.to_multiset()).add(
                later@.to_multiset(),
            ),
            loaded_ok(ts, result@),
            ready_ok(ts, result@, now@),
            waiting_ok(result@, later@),
        decreases now@.len() + later@.len(),
    {
        broadcast use vstd::seq_lib::to_multiset_build;
        broadcast use vstd::seq_lib::to_multiset_contains;
        broadcast use vstd::multiset::group_multiset_axioms;

        let ghost result0 = result@;
        let ghost now0 = now@;
        let ghost later0 = later@;
        let e = now.pop().unwrap();
        let id = e.0;
        result.push(e);
        let (mut children, rest) = take_children(later, id);
        let ghost popped = now@;
        let ghost kids = children@;
        now.append(&mut children);
        later = rest;
        proof {
            vstd::seq_lib::lemma_multiset_commutative(popped, kids);
            assert(now0 =~= popped.push(e));
            assert(popped.push(e).to_multiset() =~= popped.to_multiset().insert(e));
            assert(now0.to_multiset() =~= popped.to_multiset().insert(e));
            assert(result@ == result0.push(e));
            assert(result0.push(e).to_multiset() =~= result0.to_multiset().insert(e));
            assert(result@.to_multiset() =~= result0.to_multiset().insert(e));
            assert(ts.to_multiset() =~= result@.to_multiset().add(now@.to_multiset()).add(
                later@.to_multiset(),
            ));
            vstd::seq_lib::to_multiset_len(kids);
            vstd::seq_lib::to_multiset_len(later0);
            vstd::seq_lib::to_multiset_len(rest@);
            assert(later0.len() == kids.len() + rest@.len());
            // the timeline just ordered comes after its ancestor
            assert(now0[now0.len() - 1] == e);
            assert(is_load_order(result@)) by {
                assert forall|j: int| 0 <= j < result@.len() implies match (
                #[trigger] result@[j]).1.ancestor_timeline {
                    None => true,
                    Some(a) => exists|k: int| 0 <= k < j && (#[trigger] result@[k]).0 == a,
                } by {
                    if j < result0.len() {
                        assert(result@[j] == result0[j]);
                        if result0[j].1.ancestor_timeline is Some {
                            let a = result0[j].1.ancestor_timeline.unwrap();
                            let k = choose|k: int| 0 <= k < j && (#[trigger] result0[k]).0 == a;
                            assert(result@[k].0 == a);
                        }
                    } else {
                        if e.1.ancestor_timeline is Some {
                            let a = e.1.ancestor_timeline.unwrap();
                            let k = choose|k: int|
                                0 <= k < result0.len() && (#[trigger] result0[k]).0 == a;
                            assert(result@[k].0 == a);
                        }
                    }
                }
            }
            assert(loaded_ok(ts, result@));
            assert(ts.to_multiset().count(e) > 0);
            assert(ts.contains(e));
            assert(ready_ok(ts, result@, now@)) by {
                assert forall|j: int| 0 <= j < now@.len() implies {
                    &&& has_root_path(ts, (#[trigger] now@[j]).1.ancestor_timeline)
                    &&& match now@[j].1.ancestor_timeline {
                        None => true,
                        Some(a) => exists|k: int|
                            0 <= k < result@.len() && (#[trigger] result@[k]).0 == a,
                    }
                } by {
                    if j < popped.len() {
                        assert(now@[j] == now0[j]);
                        if now0[j].1.ancestor_timeline is Some {
                            let a = now0[j].1.ancestor_timeline.unwrap();
                            let k = choose|k: int|
                                0 <= k < result0.len() && (#[trigger] result0[k]).0 == a;
                            assert(result@[k].0 == a);
                        }
                    } else {
                        assert(now@[j] == kids[j - popped.len()]);
                        assert(now@[j].1.ancestor_timeline == Some(id));
                        lemma_child_of_rooted(ts, e, id);
                        assert(result@[result0.len() as int].0 == id);
                    }
                }
            }
            assert(waiting_ok(result@, later@)) by {
                assert forall|j: int| 0 <= j < later@.len() implies {
                    &&& (#[trigger] later@[j]).1.ancestor_timeline is Some
                    &&& id_absent(result@, later@[j].1.ancestor_timeline.unwrap())
                } by {
                    let w = later@[j];
                    assert(later0.contains(w));
                    let j0 = choose|j0: int| 0 <= j0 < later0.len() && later0[j0] == w;
                    assert(later0[j0].1.ancestor_timeline is Some);
                    let a = w.1.ancestor_timeline.unwrap();
                    assert(id_absent(result0, a));
                    assert forall|k: int| 0 <= k < result@.len() implies (
                    #[trigger] result@[k]).0 != a by {
                        if k < result0.len() {
                            assert(result@[k] == result0[k]);
                        }
                    }
                }
            }
        }
    }

    proof {
        assert(now@.to_multiset() =~= Multiset::<TimelineEntry>::empty());
        assert(ts.to_multiset() =~= result@.to_multiset().add(later@.to_multiset()));
    }
    if later.len() == 0 {
        proof {
            assert(later@.to_multiset() =~= Multiset::<TimelineEntry>::empty());
            assert(ts.to_multiset() =~= result@.to_multiset());
            assert forall|i: int| 0 <= i < ts.len() implies has_root_path(
                ts,
                (#[trigger] ts[i]).1.ancestor_timeline,
            ) by {
                assert(ts.contains(ts[i]));
                assert(result@.to_multiset().count(ts[i]) > 0);
                assert(result@.contains(ts[i]));
                let j = choose|j: int| 0 <= j < result@.len() && result@[j] == ts[i];
                assert(has_root_path(ts, result@[j].1.ancestor_timeline));
            }
        }
        return Ok(result);
    }
    let mut orphans: Vec<Orphan> = Vec::new();
    let mut j: usize = 0;
    while j < later.len()
        invariant
            0 <= j <= later.len(),
            orphans@.len() == j,
            waiting_ok(result@, later@),
            forall|k: int| 0 <= k < j ==> (#[trigger] orphans@[k]) == orphan_of(later@[k]),
        decreases later.len() - j,
    {
        let w = later[j];
        assert(later@[j as int].1.ancestor_timeline is Some);
        match w.1.ancestor_timeline {
            Some(a) => {
                orphans.push(Orphan { timeline_id: w.0, missing_ancestor: a });
            },
            None => {},
        }
        j += 1;
    }
    proof {
        assert forall|k: int| 0 <= k < orphans@.len() implies !has_root_path(
            ts,
            Some((#[trigger] orphans@[k]).missing_ancestor),
        ) && exists|i: int|
            0 <= i < ts.len() && (#[trigger] ts[i]).1.ancestor_timeline is Some && orphan_of(ts[i])
                == orphans@[k] by {
            let w = later@[k];
            assert(w.1.ancestor_timeline is Some);
            assert forall|fuel: nat| !rooted(ts, w.1.ancestor_timeline, fuel) by {
                lemma_waiting_is_unrooted(ts, result@, later@, w.1.ancestor_timeline, fuel);
            }
            assert(later@.contains(w));
            assert(ts.to_multiset().count(w) > 0);
            assert(ts.contains(w));
            let i = choose|i: int| 0 <= i < ts.len() && ts[i] == w;
            assert(ts[i].1.ancestor_timeline is Some && orphan_of(ts[i]) == orphans@[k]);
        }
        assert forall|i: int|
            0 <= i < ts.len() && !has_root_path(
                ts,
                (#[trigger] ts[i]).1.ancestor_timeline,
            ) implies orphans@.contains(orphan_of(ts[i])) by {
            let e = ts[i];
            assert(ts.contains(e));
            assert(ts.to_multiset().count(e) > 0);
            if result@.contains(e) {
                let k = choose|k: int| 0 <= k < result@.len() && result@[k] == e;
                assert(has_root_path(ts, result@[k].1.ancestor_timeline));
            } else {
                assert(later@.contains(e));
                let k = choose|k: int| 0 <= k < later@.len() && later@[k] == e;
                assert(orphans@[k] == orphan_of(e));
            }
        }
    }
    Err(MissingAncestors { orphans })
}

/// A load order exists only where every timeline has a path to a root: the
/// error of the sort means that no order of the same timelines would do.
pub proof fn lemma_load_order_needs_root_paths(ts: Seq<TimelineEntry>, out: Seq<TimelineEntry>)
    requires
        out.to_multiset() == ts.to_multiset(),
        is_load_order(out),
    ensures
        forall|i: int|
            0 <= i < ts.len() ==> has_root_path(ts, (#[trigger] ts[i]).1.ancestor_timeline),
{
    broadcast use vstd::seq_lib::to_multiset_contains;

    assert forall|j: int| 0 <= j < out.len() implies has_root_path(
        ts,
        (#[trigger] out[j]).1.ancestor_timeline,
    ) by {
        lemma_prefix_rooted(ts, out, j);
    }
    assert forall|i: int| 0 <= i < ts.len() implies has_root_path(
        ts,
        (#[trigger] ts[i]).1.ancestor_timeline,
    ) by {
        assert(ts.contains(ts[i]));
        assert(out.to_multiset().count(ts[i]) > 0);
        assert(out.contains(ts[i]));
        let j = choose|j: int| 0 <= j < out.len() && out[j] == ts[i];
        assert(has_root_path(ts, out[j].1.ancestor_timeline));
    }
}

proof fn lemma_prefix_rooted(ts: Seq<TimelineEntry>, out: Seq<TimelineEntry>, j: int)
    requires
        out.to_multiset() == ts.to_multiset(),
        is_load_order(out),
        0 <= j < out.len(),
    ensures
        has_root_path(ts, out[j].1.ancestor_timeline),
    decreases j,
{
    broadcast use vstd::seq_lib::to_multiset_contains;

    match out[j].1.ancestor_timeline {
        None => {
            assert(rooted(ts, None, 0));
        },
        Some(a) => {
            let k = choose|k: int| 0 <= k < j && (#[trigger] out[k]).0 == a;
            lemma_prefix_rooted(ts, out, k);
            assert(out.contains(out[k]));
            assert(ts.to_multiset().count(out[k]) > 0);
            assert(ts.contains(out[k]));
            lemma_child_of_rooted(ts, out[k], a);
        },
    }
}

} // verus!
