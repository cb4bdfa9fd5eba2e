//! The set of matching streams seen in one observation of the session
//! graph, kept in a hash map from identifier to a marker.

use std::collections::HashMap;
use vstd::prelude::*;
use vstd::std_specs::hash::group_hash_axioms;

verus! {

broadcast use group_hash_axioms;

/// Whether each element of `s` is smaller than the one after it.
pub open spec fn ascending(s: Seq<u32>) -> bool {
    forall|i: int, j: int| 0 <= i < j < s.len() ==> s[i] < s[j]
}

/// An ascending sequence lists each of its elements once.
pub proof fn lemma_ascending_len(s: Seq<u32>)
    requires
        ascending(s),
    ensures
        s.no_duplicates(),
        s.to_set().len() == s.len(),
{
    s.unique_seq_to_set();
}

/// A set has one ascending listing only.
pub proof fn lemma_ascending_unique(a: Seq<u32>, b: Seq<u32>)
    requires
        ascending(a),
        ascending(b),
        a.to_set() == b.to_set(),
    ensures
        a == b,
    decreases a.len(),
{
    lemma_ascending_len(a);
    lemma_ascending_len(b);
    if a.len() > 0 {
        assert(a.to_set().contains(a[0]));
        assert(b.to_set().contains(b[0]));
        let i = choose|i: int| 0 <= i < b.len() && b[i] == a[0];
        let j = choose|j: int| 0 <= j < a.len() && a[j] == b[0];
        assert(b[0] <= b[i] && a[0] <= a[j]);
        let x = a.drop_first();
        let y = b.drop_first();
        assert forall|v: u32| x.to_set().contains(v) <==> y.to_set().contains(v) by {
            if x.to_set().contains(v) {
                let k = choose|k: int| 0 <= k < x.len() && x[k] == v;
                assert(a[k + 1] == v);
                assert(a.to_set().contains(v));
                let m = choose|m: int| 0 <= m < b.len() && b[m] == v;
                assert(y[m - 1] == v);
            }
            if y.to_set().contains(v) {
                let k = choose|k: int| 0 <= k < y.len() && y[k] == v;
                assert(b[k + 1] == v);
                assert(b.to_set().contains(v));
                let m = choose|m: int| 0 <= m < a.len() && a[m] == v;
                assert(x[m - 1] == v);
            }
        }
        assert(x.to_set() =~= y.to_set());
        lemma_ascending_unique(x, y);
        assert(a =~= seq![a[0]] + x);
    }
}

/// Finds the place of `id` in an ascending vector: the number of elements below it.
fn lower_bound(v: &Vec<u32>, id: u32) -> (pos: usize)
    requires
        ascending(v@),
    ensures
        pos <= v@.len(),
        forall|j: int| 0 <= j < pos ==> v@[j] < id,
        forall|j: int| pos <= j < v@.len() ==> v@[j] >= id,
{
    let mut lo: usize = 0;
    let mut hi: usize = v.len();
    while lo < hi
        invariant
            lo <= hi <= v@.len(),
            ascending(v@),
            forall|j: int| 0 <= j < lo ==> v@[j] < id,
            forall|j: int| hi <= j < v@.len() ==> v@[j] >= id,
        decreases hi - lo,
    {
        let mid: usize = lo + (hi - lo) / 2;
        if v[mid] < id {
            lo = mid + 1;
        } else {
            hi = mid;
        }
    }
    lo
}

/// Puts `id` at its place in an ascending vector, unless it is there already.
fn place(ids: &mut Vec<u32>, id: u32)
    requires
        ascending(old(ids)@),
    ensures
        ascending(final(ids)@),
        final(ids)@.to_set() == old(ids)@.to_set().insert(id),
{
    let pos = lower_bound(ids, id);
    if pos < ids.len() && ids[pos] == id {
        assert(ids@.to_set().contains(ids@[pos as int]));
        assert(ids@.to_set().insert(id) =~= ids@.to_set());
        return ;
    }
    let ghost before = ids@;
    ids.insert(pos, id);
    proof {
        assert forall|i: int, j: int| 0 <= i < j < ids@.len() implies ids@[i] < ids@[j] by {}
        assert forall|v: u32| ids@.to_set().contains(v) <==> before.to_set().insert(id).contains(
            v,
        ) by {
            if ids@.to_set().contains(v) {
                let k = choose|k: int| 0 <= k < ids@.len() && ids@[k] == v;
                if k < pos {
                    assert(before[k] == v);
                } else if k > pos {
                    assert(before[k - 1] == v);
                }
            }
            if before.to_set().contains(v) {
                let k = choose|k: int| 0 <= k < before.len() && before[k] == v;
                if k < pos {
                    assert(ids@[k] == v);
                } else {
                    assert(ids@[k + 1] == v);
                }
            }
            if v == id {
                assert(ids@[pos as int] == v);
            }
        }
        assert(ids@.to_set() =~= before.to_set().insert(id));
    }
}

/// One observation: the identifiers of the streams that matched the filter,
/// each with a marker that says no more than that the stream is there.
#[derive(Debug, PartialEq, Eq)]
pub struct Snapshot {
    streams: HashMap<u32, ()>,
}

impl View for Snapshot {
    type V = Set<u32>;

    closed spec fn view(&self) -> Set<u32> {
        self.streams@.dom()
    }
}

impl Snapshot {
    /// The snapshot without any stream.
    pub fn new() -> (s: Snapshot)
        ensures
            s@ == Set::<u32>::empty(),
    {
        let s = Snapshot { streams: HashMap::new() };
        assert(s.streams@.dom() =~= Set::<u32>::empty());
        s
    }

    /// The number of streams. A snapshot holds finitely many.
    pub fn len(&self) -> (n: usize)
        ensures
            self@.finite(),
            n == self@.len(),
    {
        self.streams.len()
    }

    /// Whether there is no stream.
    pub fn is_empty(&self) -> (b: bool)
        ensures
            b == (self@ == Set::<u32>::empty()),
    {
        proof {
            if self@.len() == 0 {
                assert(self@ =~= Set::<u32>::empty());
            }
        }
        self.streams.len() == 0
    }

    /// Whether the stream `id` is in the snapshot.
    pub fn contains(&self, id: u32) -> (b: bool)
        ensures
            b == self@.contains(id),
    {
        self.streams.contains_key(&id)
    }

    /// Adds the stream `id`, and says whether it was new.
    pub fn insert(&mut self, id: u32) -> (fresh: bool)
        ensures
            final(self)@ == old(self)@.insert(id),
            final(self)@.finite(),
            fresh == !old(self)@.contains(id),
    {
        let before = self.streams.insert(id, ());
        assert(self.streams@.dom() =~= old(self).streams@.dom().insert(id));
        before.is_none()
    }

    /// The snapshot that holds the streams listed in `ids`, in any order and
    /// with repetitions allowed.
    pub fn from_ids(ids: &[u32]) -> (s: Snapshot)
        ensures
            s@ == ids@.to_set(),
            s@.finite(),
    {
        let mut s = Snapshot::new();
        let mut i: usize = 0;
        assert(ids@.take(0).to_set() =~= Set::<u32>::empty());
        while i < ids.len()
            invariant
                i <= ids@.len(),
                s@ == ids@.take(i as int).to_set(),
            decreases ids@.len() - i,
        {
            s.insert(ids[i]);
            proof {
                let a = ids@.take(i as int);
                assert(ids@.take(i + 1) =~= a.push(ids@[i as int]));
                a.lemma_push_to_set_commute(ids@[i as int]);
            }
            i = i + 1;
        }
        assert(ids@.take(ids@.len() as int) =~= ids@);
        s
    }

    /// The smallest identifier, if there is any stream.
    pub fn min(&self) -> (m: Option<u32>)
        ensures
            m is None <==> self@ == Set::<u32>::empty(),
            m matches Some(id) ==> self@.contains(id) && forall|o: u32|
                self@.contains(o) ==> id <= o,
    {
        let mut best: Option<u32> = None;
        let ghost mut seen: Seq<u32> = Seq::empty();
        for k in it: self.streams.keys()
            invariant
                it.seq().unref().to_set() == self@,
                seen == it.seq().unref().take(it.index()),
                it.index() == it.seq().len() ==> seen.to_set() == self@,
                best is None <==> seen.len() == 0,
                best matches Some(b) ==> seen.contains(b) && forall|j: int|
                    0 <= j < seen.len() ==> b <= seen[j],
        {
            proof {
                seen = seen.push(*k);
            }
            assert(seen =~= it.seq().unref().take(it.index() + 1));
            assert(it.index() + 1 == it.seq().len() ==> seen =~= it.seq().unref());
            best = match best {
                None => Some(*k),
                Some(b) => if *k < b {
                    Some(*k)
                } else {
                    Some(b)
                },
            };
            assert(seen[seen.len() - 1] == *k);
        }
        proof {
            if seen.len() == 0 {
                assert(seen.to_set() =~= Set::<u32>::empty());
            } else {
                assert(seen.to_set().contains(seen[0]));
            }
        }
        best
    }

    /// The identifiers in ascending order. The map keeps no order of its
    /// own, so the listing is put in order here: it depends on the streams
    /// alone, not on how the map happens to be walked.
    pub fn ids(&self) -> (v: Vec<u32>)
        ensures
            ascending(v@),
            v@.to_set() == self@,
    {
        let mut v: Vec<u32> = Vec::new();
        let ghost mut seen: Seq<u32> = Seq::empty();
        for k in it: self.streams.keys()
            invariant
                it.seq().unref().to_set() == self@,
                seen == it.seq().unref().take(it.index()),
                it.index() == it.seq().len() ==> seen.to_set() == self@,
                ascending(v@),
                v@.to_set() == seen.to_set(),
        {
            proof {
                seen.lemma_push_to_set_commute(*k);
                seen = seen.push(*k);
            }
            assert(seen =~= it.seq().unref().take(it.index() + 1));
            assert(it.index() + 1 == it.seq().len() ==> seen =~= it.seq().unref());
            place(&mut v, *k);
        }
        v
    }

    /// Whether both snapshots hold the same streams.
    pub fn same_as(&self, other: &Snapshot) -> (b: bool)
        ensures
            b == (self@ == other@),
    {
        let mine = self.ids();
        let theirs = other.ids();
        proof {
            lemma_ascending_len(mine@);
            lemma_ascending_len(theirs@);
        }
        if mine.len() != theirs.len() {
            return false;
        }
        let mut i: usize = 0;
        while i < mine.len()
            invariant
                i <= mine@.len(),
                mine@.len() == theirs@.len(),
                forall|j: int| 0 <= j < i ==> mine@[j] == theirs@[j],
                ascending(mine@),
                ascending(theirs@),
                mine@.to_set() == self@,
                theirs@.to_set() == other@,
            decreases mine@.len() - i,
        {
            if mine[i] != theirs[i] {
                proof {
                    if self@ == other@ {
                        lemma_ascending_unique(mine@, theirs@);
                    }
                }
                return false;
            }
            i = i + 1;
        }
        assert(mine@ =~= theirs@);
        true
    }
}

impl Clone for Snapshot {
    fn clone(&self) -> (s: Snapshot)
        ensures
            s@ == self@,
    {
        Snapshot { streams: self.streams.clone() }
    }
}

} // verus!
