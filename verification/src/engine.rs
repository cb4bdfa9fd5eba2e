//! The policy: which streams of an observation are muted, and which are new.
//!
//! The stream with the smallest identifier is the primary and stays
//! audible; every other stream is muted. The decisions depend on the current
//! observation alone; the previous one only tells which streams have arrived.

use crate::snapshot::{ascending, lemma_ascending_len, lemma_ascending_unique, Snapshot};
use vstd::prelude::*;

verus! {

/// What is wanted of one stream: muted or audible.
#[derive(Clone, Copy, Debug, PartialEq, Eq, Structural)]
pub struct MuteDecision {
    pub id: u32,
    pub mute: bool,
}

/// Whether `id` is the primary of `streams`: one of them, and no larger
/// than any of them.
pub open spec fn is_primary(streams: Set<u32>, id: u32) -> bool {
    streams.contains(id) && forall|o: u32| streams.contains(o) ==> id <= o
}

/// The identifiers that the decisions `d` are about, in their order.
pub open spec fn ids_of(d: Seq<MuteDecision>) -> Seq<u32> {
    Seq::new(d.len(), |i: int| d[i].id)
}

/// Whether `d` is the plan for `streams`: one decision for each stream and
/// for nothing else, in ascending order of the identifiers, that mutes
/// every stream but the primary.
pub open spec fn is_plan(streams: Set<u32>, d: Seq<MuteDecision>) -> bool {
    &&& ascending(ids_of(d))
    &&& ids_of(d).to_set() == streams
    &&& forall|i: int| 0 <= i < d.len() ==> (#[trigger] d[i]).mute == !is_primary(streams, d[i].id)
}

/// A set of streams has one plan only: the same observation always leads to
/// the same decisions.
pub proof fn lemma_plan_unique(streams: Set<u32>, a: Seq<MuteDecision>, b: Seq<MuteDecision>)
    requires
        is_plan(streams, a),
        is_plan(streams, b),
    ensures
        a == b,
{
    lemma_ascending_unique(ids_of(a), ids_of(b));
    assert(a.len() == ids_of(a).len() && b.len() == ids_of(b).len());
    assert forall|i: int| 0 <= i < a.len() implies a[i] == b[i] by {
        assert(ids_of(a)[i] == ids_of(b)[i]);
    }
}

/// A plan is total: it has as many decisions as there are streams, one for
/// each stream and no two for the same, and it leaves at most one stream
/// audible.
pub proof fn lemma_plan_total(streams: Set<u32>, d: Seq<MuteDecision>)
    requires
        is_plan(streams, d),
    ensures
        streams.finite(),
        d.len() == streams.len(),
        forall|i: int| 0 <= i < d.len() ==> streams.contains((#[trigger] d[i]).id),
        forall|id: u32|
            streams.contains(id) ==> exists|i: int| 0 <= i < d.len() && (#[trigger] d[i]).id == id,
        forall|i: int, j: int|
            0 <= i < j < d.len() ==> (#[trigger] d[i]).id != (#[trigger] d[j]).id,
        forall|i: int, j: int|
            0 <= i < d.len() && 0 <= j < d.len() && !(#[trigger] d[i]).mute && !(
            #[trigger] d[j]).mute ==> i == j,
{
    let ids = ids_of(d);
    lemma_ascending_len(ids);
    vstd::seq_lib::seq_to_set_is_finite(ids);
    assert forall|i: int| 0 <= i < d.len() implies streams.contains((#[trigger] d[i]).id) by {
        assert(ids[i] == d[i].id);
    }
    assert forall|id: u32| streams.contains(id) implies exists|i: int|
        0 <= i < d.len() && (#[trigger] d[i]).id == id by {
        let k = choose|k: int| 0 <= k < ids.len() && ids[k] == id;
        assert(d[k].id == id);
    }
    assert forall|i: int, j: int| 0 <= i < j < d.len() implies (#[trigger] d[i]).id != (
    #[trigger] d[j]).id by {
        assert(ids[i] < ids[j]);
    }
    assert forall|i: int, j: int|
        0 <= i < d.len() && 0 <= j < d.len() && !(#[trigger] d[i]).mute && !(
        #[trigger] d[j]).mute implies i == j by {}
}

/// The minimum wins: a stream that a plan leaves audible has the smallest
/// identifier of all, and where there is a stream at all, the first
/// decision leaves its stream audible and every later one mutes.
pub proof fn lemma_plan_unmutes_minimum(streams: Set<u32>, d: Seq<MuteDecision>)
    requires
        is_plan(streams, d),
    ensures
        forall|i: int, o: u32|
            0 <= i < d.len() && !(#[trigger] d[i]).mute && #[trigger] streams.contains(o)
                ==> d[i].id <= o,
        d.len() > 0 ==> !d[0].mute,
        forall|i: int| 0 < i < d.len() ==> (#[trigger] d[i]).mute,
{
    let ids = ids_of(d);
    assert forall|i: int, o: u32|
        0 <= i < d.len() && !(#[trigger] d[i]).mute && #[trigger] streams.contains(
            o,
        ) implies d[i].id <= o by {}
    if d.len() > 0 {
        assert(ids[0] == d[0].id);
        assert forall|o: u32| streams.contains(o) implies d[0].id <= o by {
            let k = choose|k: int| 0 <= k < ids.len() && ids[k] == o;
            assert(k == 0 || ids[0] < ids[k]);
        }
        assert forall|i: int| 0 < i < d.len() implies (#[trigger] d[i]).mute by {
            assert(ids[0] < ids[i]);
        }
    }
}

/// A single stream is left audible, whatever was decided of it before.
pub proof fn lemma_plan_single(id: u32, d: Seq<MuteDecision>)
    requires
        is_plan(set![id], d),
    ensures
        d == seq![MuteDecision { id: id, mute: false }],
{
    let streams = set![id];
    lemma_plan_total(streams, d);
}

/// No stream, no decision.
pub proof fn lemma_plan_empty(d: Seq<MuteDecision>)
    requires
        is_plan(Set::<u32>::empty(), d),
    ensures
        d == Seq::<MuteDecision>::empty(),
{
    lemma_plan_total(Set::<u32>::empty(), d);
}

/// Decides for every stream of `current` whether it is muted.
pub fn decide(current: &Snapshot) -> (d: Vec<MuteDecision>)
    ensures
        is_plan(current@, d@),
{
    let ids = current.ids();
    let mut d: Vec<MuteDecision> = Vec::new();
    match current.min() {
        None => {
            assert(ids_of(d@).to_set() =~= Set::<u32>::empty());
        },
        Some(primary) => {
            let mut i: usize = 0;
            while i < ids.len()
                invariant
                    i <= ids@.len(),
                    d@.len() == i,
                    forall|j: int|
                        0 <= j < i ==> #[trigger] d@[j] == (MuteDecision {
                            id: ids@[j],
                            mute: ids@[j] != primary,
                        }),
                decreases ids@.len() - i,
            {
                let id = ids[i];
                d.push(MuteDecision { id: id, mute: id != primary });
                i = i + 1;
            }
            proof {
                assert(ids_of(d@) =~= ids@);
                assert forall|j: int| 0 <= j < d@.len() implies (#[trigger] d@[j]).mute
                    == !is_primary(current@, d@[j].id) by {}
            }
        },
    }
    d
}

/// Lists the streams of `current` that `previous` did not have, in
/// ascending order.
pub fn arrivals(current: &Snapshot, previous: &Snapshot) -> (v: Vec<u32>)
    ensures
        ascending(v@),
        v@.to_set() == current@.difference(previous@),
{
    let ids = current.ids();
    let mut v: Vec<u32> = Vec::new();
    let mut i: usize = 0;
    while i < ids.len()
        invariant
            i <= ids@.len(),
            ascending(ids@),
            ascending(v@),
            ids@.to_set() == current@,
            v@.to_set() == ids@.take(i as int).to_set().difference(previous@),
            forall|j: int| 0 <= j < v@.len() && i < ids@.len() ==> v@[j] < ids@[i as int],
        decreases ids@.len() - i,
    {
        let id = ids[i];
        proof {
            let seen = ids@.take(i as int);
            assert(ids@.take(i + 1) =~= seen.push(id));
            seen.lemma_push_to_set_commute(id);
        }
        if !previous.contains(id) {
            proof {
                v@.lemma_push_to_set_commute(id);
            }
            v.push(id);
        }
        assert(v@.to_set() =~= ids@.take(i + 1).to_set().difference(previous@));
        i = i + 1;
    }
    assert(ids@.take(ids@.len() as int) =~= ids@);
    v
}

/// What one observation calls for.
#[derive(Debug, PartialEq, Eq)]
pub struct Reconciliation {
    /// The streams that were not there at the previous observation, for the record.
    pub arrivals: Vec<u32>,
    /// The desired state of every stream.
    pub decisions: Vec<MuteDecision>,
}

/// Compares the current observation with the previous one.
pub fn reconcile(current: &Snapshot, previous: &Snapshot) -> (r: Reconciliation)
    ensures
        ascending(r.arrivals@),
        r.arrivals@.to_set() == current@.difference(previous@),
        is_plan(current@, r.decisions@),
{
    Reconciliation { arrivals: arrivals(current, previous), decisions: decide(current) }
}

} // verus!
