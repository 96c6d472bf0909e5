//! Plain Hamming distance, the second way to measure how close two aligned
//! sequences are: the number of positions on which they differ, gaps counted
//! like any other symbol. Identity is the measure that the rest of the
//! library works with; the distance stands beside it with a search of its
//! own, in which a record is never its own neighbour.

use vstd::prelude::*;
use crate::nearest_neighbor::NearestNeighborError;
use crate::record::Record;

verus! {

/// Number of positions among the first `n` on which the sequences differ.
pub open spec fn differences_in(x: Seq<u8>, y: Seq<u8>, n: nat) -> nat
    decreases n,
{
    if n == 0 {
        0
    } else {
        let rest = differences_in(x, y, (n - 1) as nat);
        if x[n - 1] != y[n - 1] {
            rest + 1
        } else {
            rest
        }
    }
}

/// Hamming distance of two sequences of one length.
pub open spec fn hamming(x: Seq<u8>, y: Seq<u8>) -> nat {
    differences_in(x, y, x.len())
}

/// There are no more differences than positions.
pub proof fn lemma_differences_bounded(x: Seq<u8>, y: Seq<u8>, n: nat)
    ensures
        differences_in(x, y, n) <= n,
    decreases n,
{
    if n > 0 {
        lemma_differences_bounded(x, y, (n - 1) as nat);
    }
}

/// The distance does not depend on the order of the two sequences.
pub proof fn lemma_hamming_symmetric(x: Seq<u8>, y: Seq<u8>)
    requires
        x.len() == y.len(),
    ensures
        hamming(x, y) == hamming(y, x),
{
    lemma_differences_symmetric(x, y, x.len());
}

proof fn lemma_differences_symmetric(x: Seq<u8>, y: Seq<u8>, n: nat)
    ensures
        differences_in(x, y, n) == differences_in(y, x, n),
    decreases n,
{
    if n > 0 {
        lemma_differences_symmetric(x, y, (n - 1) as nat);
    }
}

/// Hamming distance of two records.
///
/// Records of one length give the number of positions on which they differ.
/// Records of different lengths give an error that names both.
pub fn hamming_distance(x: &Record, y: &Record) -> (r: Result<u64, NearestNeighborError>)
    ensures
        x.seq@.len() == y.seq@.len() ==> r is Ok,
        r matches Ok(dist) ==> x.seq@.len() == y.seq@.len() && dist == hamming(x.seq@, y.seq@),
        r matches Err(e) ==> {
            &&& x.seq@.len() != y.seq@.len()
            &&& e matches NearestNeighborError::HammingDistanceError(a, b)
            &&& a@ == x.id@
            &&& b@ == y.id@
        },
{
    let n = x.seq.len();
    if n != y.seq.len() {
        return Err(NearestNeighborError::HammingDistanceError(x.id.clone(), y.id.clone()));
    }
    let mut dist: u64 = 0;
    let mut i: usize = 0;
    while i < n
        invariant
            i <= n,
            n == x.seq@.len(),
            n == y.seq@.len(),
            dist == differences_in(x.seq@, y.seq@, i as nat),
        decreases n - i,
    {
        proof {
            lemma_differences_bounded(x.seq@, y.seq@, i as nat);
        }
        if x.seq[i] != y.seq[i] {
            dist = dist + 1;
        }
        i = i + 1;
    }
    Ok(dist)
}

/// A record is a candidate for a query unless it bears the query's identifier.
pub open spec fn is_candidate(query: &Record, other: &Record) -> bool {
    other.id@ != query.id@
}

/// The distance of the query to record `j` of the collection.
pub open spec fn distance(query: &Record, collection: Seq<&Record>, j: int) -> nat {
    hamming(query.seq@, collection[j].seq@)
}

/// Record `k` is the closest candidate among the first `n` records: no
/// candidate among them is closer to the query, and every later candidate
/// among them is farther. Of candidates at the same smallest distance it is
/// the last.
pub open spec fn is_closest_in(query: &Record, collection: Seq<&Record>, n: int, k: int) -> bool {
    &&& 0 <= k < n <= collection.len()
    &&& is_candidate(query, collection[k])
    &&& forall|j: int|
        0 <= j < n && is_candidate(query, #[trigger] collection[j]) ==> distance(
            query,
            collection,
            k,
        ) <= distance(query, collection, j)
    &&& forall|j: int|
        k < j < n && is_candidate(query, #[trigger] collection[j]) ==> distance(
            query,
            collection,
            k,
        ) < distance(query, collection, j)
}

/// Record `k` is the closest candidate of the whole collection.
pub open spec fn is_closest(query: &Record, collection: Seq<&Record>, k: int) -> bool {
    is_closest_in(query, collection, collection.len() as int, k)
}

/// The position of the closest candidate. Meaningful when there is a
/// candidate.
pub open spec fn closest_index(query: &Record, collection: Seq<&Record>) -> int {
    choose|k: int| is_closest(query, collection, k)
}

/// At most one record is the closest candidate.
pub proof fn lemma_closest_unique(query: &Record, collection: Seq<&Record>, k1: int, k2: int)
    requires
        is_closest(query, collection, k1),
        is_closest(query, collection, k2),
    ensures
        k1 == k2,
{
    if k1 < k2 {
        assert(is_candidate(query, collection[k2]));
        assert(is_candidate(query, collection[k1]));
    } else if k2 < k1 {
        assert(is_candidate(query, collection[k1]));
        assert(is_candidate(query, collection[k2]));
    }
}

/// The nearest neighbour of one query by Hamming distance, with the distance.
///
/// Every record of the collection is looked at once. Records that bear the
/// query's identifier are passed over. Of the others the one at the smallest
/// distance is returned; of several at that distance, the last.
pub fn nearest_by_hamming<'a>(query: &Record, collection: &'a Vec<&'a Record>) -> (r: (
    &'a Record,
    u64,
))
    requires
        exists|j: int| 0 <= j < collection@.len() && is_candidate(query, #[trigger] collection@[j]),
        forall|j: int|
            0 <= j < collection@.len() ==> (#[trigger] collection@[j]).seq@.len()
                == query.seq@.len(),
    ensures
        is_closest(query, collection@, closest_index(query, collection@)),
        r.0 == collection@[closest_index(query, collection@)],
        r.1 == hamming(query.seq@, r.0.seq@),
{
    let ghost mut k: int = 0;
    let mut best_dist: u64 = 0;
    let mut best_neighbor: Option<&'a Record> = None;
    let mut i: usize = 0;
    while i < collection.len()
        invariant
            i <= collection@.len(),
            forall|j: int|
                0 <= j < collection@.len() ==> (#[trigger] collection@[j]).seq@.len()
                    == query.seq@.len(),
            best_neighbor is None ==> forall|j: int|
                0 <= j < i ==> !is_candidate(query, #[trigger] collection@[j]),
            best_neighbor is Some ==> is_closest_in(query, collection@, i as int, k),
            best_neighbor is Some ==> best_neighbor == Some(collection@[k]),
            best_neighbor is Some ==> best_dist == distance(query, collection@, k),
        decreases collection@.len() - i,
    {
        let other: &'a Record = collection[i];
        if !(other.id == query.id) {
            let dist = hamming_distance(query, other).unwrap();
            if best_neighbor.is_none() || dist <= best_dist {
                best_dist = dist;
                best_neighbor = Some(other);
                proof {
                    k = i as int;
                }
            }
        }
        i = i + 1;
    }
    proof {
        lemma_closest_unique(query, collection@, k, closest_index(query, collection@));
    }
    (best_neighbor.unwrap(), best_dist)
}

} // verus!
