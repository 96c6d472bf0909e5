//! The search: the identity of two records, the best reference record for a
//! query, and the same for a whole list of queries.

use rayon::iter::{IntoParallelRefIterator, ParallelIterator};
use vstd::prelude::*;
use vstd::string::{to_string_from_display_ensures, StringExecFns};
use crate::identity::{
    compared, compared_in, lemma_at_least_total, lemma_at_least_transitive, lemma_counts_bounded,
    lemma_identity_exact, matched, matched_in, Identity, GAP,
};
use crate::record::{same_length, Record};
use crate::subset::{lemma_selection_members, selection, wanted};

pub use crate::subset::filter_records;

verus! {

/// What can go wrong while neighbours are computed and stored.
#[derive(Debug, PartialEq)]
pub enum NearestNeighborError {
    /// The results could not be written; the text says why.
    IOError(String),
    /// Two records of different lengths were compared; their identifiers.
    HammingDistanceError(String, String),
}

impl NearestNeighborError {
    /// The text that describes the error.
    pub open spec fn text(self) -> Seq<char> {
        match self {
            NearestNeighborError::IOError(msg) => msg@,
            NearestNeighborError::HammingDistanceError(id1, id2) => {
                "Hamming distance computation error between: "@ + id1@ + " and "@ + id2@
            },
        }
    }

    /// Describes the error for the user.
    pub fn message(&self) -> (r: String)
        ensures
            r@ == self.text(),
    {
        match self {
            NearestNeighborError::IOError(msg) => msg.clone(),
            NearestNeighborError::HammingDistanceError(id1, id2) => {
                String::from_str("Hamming distance computation error between: ").concat(
                    id1.as_str(),
                ).concat(" and ").concat(id2.as_str())
            },
        }
    }
}

impl vstd::std_specs::convert::FromSpecImpl<std::io::Error> for NearestNeighborError {
    /// The text of the result is what the error shows of itself, which is
    /// not known as a function of the error.
    open spec fn obeys_from_spec() -> bool {
        false
    }

    open spec fn from_spec(err: std::io::Error) -> NearestNeighborError {
        arbitrary()
    }
}

impl From<std::io::Error> for NearestNeighborError {
    /// A failure to write, with what the error says of itself.
    fn from(err: std::io::Error) -> (e: NearestNeighborError)
        ensures
            e matches NearestNeighborError::IOError(msg) && to_string_from_display_ensures::<
                std::io::Error,
            >(&err, msg),
    {
        NearestNeighborError::IOError(err.to_string())
    }
}

/// Gap-aware identity of two records.
///
/// Records of one length give the number of compared positions and the number
/// of matches among them. Records of different lengths give an error that
/// names both.
pub fn pct_identity(x: &Record, y: &Record) -> (r: Result<Identity, NearestNeighborError>)
    ensures
        x.seq@.len() == y.seq@.len() ==> r is Ok,
        r matches Ok(s) ==> {
            &&& x.seq@.len() == y.seq@.len()
            &&& s.matched == matched(x.seq@, y.seq@)
            &&& s.compared == compared(x.seq@, y.seq@)
            &&& s == Identity::of(x.seq@, y.seq@)
            &&& s.wf()
        },
        r matches Err(e) ==> {
            &&& x.seq@.len() != y.seq@.len()
            &&& e matches NearestNeighborError::HammingDistanceError(a, b)
            &&& a@ == x.id@
            &&& b@ == y.id@
        },
{
    let n = x.seq.len();
    if n != y.seq.len() {
        return Err(NearestNeighborError::HammingDistanceError(x.id.clone(), y.id.clone()));
    }
    let mut numer: u64 = 0;
    let mut denom: u64 = 0;
    let mut i: usize = 0;
    while i < n
        invariant
            i <= n,
            n == x.seq@.len(),
            n == y.seq@.len(),
            numer == matched_in(x.seq@, y.seq@, i as nat),
            denom == compared_in(x.seq@, y.seq@, i as nat),
        decreases n - i,
    {
        proof {
            lemma_counts_bounded(x.seq@, y.seq@, i as nat);
        }
        let xi = x.seq[i];
        let yi = y.seq[i];
        if !(xi == GAP && yi == GAP) {
            denom = denom + 1;
            if xi == yi {
                numer = numer + 1;
            }
        }
        i = i + 1;
    }
    proof {
        lemma_counts_bounded(x.seq@, y.seq@, n as nat);
    }
    Ok(Identity { matched: numer, compared: denom })
}

/// The symbols of each record that a list of borrowed records points to.
pub open spec fn ref_seqs(records: Seq<&Record>) -> Seq<Seq<u8>> {
    Seq::new(records.len(), |i: int| records[i].seq@)
}

/// The identity of the query with candidate `j`.
pub open spec fn score(query: Seq<u8>, candidates: Seq<Seq<u8>>, j: int) -> Identity {
    Identity::of(query, candidates[j])
}

/// Candidate `k` is the nearest among the first `n`: no candidate among them
/// has a higher identity with the query, and every later one among them has a
/// lower identity. Of candidates with the same highest identity it is the last.
pub open spec fn is_nearest_in(query: Seq<u8>, candidates: Seq<Seq<u8>>, n: int, k: int) -> bool {
    &&& 0 <= k < n <= candidates.len()
    &&& forall|j: int|
        0 <= j < n ==> score(query, candidates, k).at_least(#[trigger] score(query, candidates, j))
    &&& forall|j: int|
        k < j < n ==> !(#[trigger] score(query, candidates, j)).at_least(score(query, candidates, k))
}

/// Candidate `k` is the nearest of all candidates.
pub open spec fn is_nearest(query: Seq<u8>, candidates: Seq<Seq<u8>>, k: int) -> bool {
    is_nearest_in(query, candidates, candidates.len() as int, k)
}

/// The position of the nearest candidate. Meaningful when there is a candidate.
pub open spec fn nearest_index(query: Seq<u8>, candidates: Seq<Seq<u8>>) -> int {
    choose|k: int| is_nearest(query, candidates, k)
}

/// At most one candidate is the nearest.
pub proof fn lemma_nearest_unique(query: Seq<u8>, candidates: Seq<Seq<u8>>, k1: int, k2: int)
    requires
        is_nearest(query, candidates, k1),
        is_nearest(query, candidates, k2),
    ensures
        k1 == k2,
{
    if k1 < k2 {
        assert(score(query, candidates, k2).at_least(score(query, candidates, k1)));
    } else if k2 < k1 {
        assert(score(query, candidates, k1).at_least(score(query, candidates, k2)));
    }
}

/// Looking at one more candidate: it becomes the nearest when its identity
/// is at least that of the nearest so far, which else stays.
proof fn lemma_nearest_step(query: Seq<u8>, candidates: Seq<Seq<u8>>, n: int, k: int)
    requires
        0 <= n < candidates.len(),
        n > 0 ==> is_nearest_in(query, candidates, n, k),
    ensures
        n == 0 || score(query, candidates, n).at_least(score(query, candidates, k))
            ==> is_nearest_in(query, candidates, n + 1, n),
        n > 0 && !score(query, candidates, n).at_least(score(query, candidates, k))
            ==> is_nearest_in(query, candidates, n + 1, k),
{
    let new = score(query, candidates, n);
    if n == 0 {
    } else if new.at_least(score(query, candidates, k)) {
        assert forall|j: int| 0 <= j < n + 1 implies new.at_least(
            #[trigger] score(query, candidates, j),
        ) by {
            if j < n {
                lemma_at_least_transitive(
                    new,
                    score(query, candidates, k),
                    score(query, candidates, j),
                );
            }
        }
    } else {
        lemma_at_least_total(new, score(query, candidates, k));
    }
}

/// The nearest neighbour of one query among the candidates, with its identity.
///
/// Every candidate is looked at once. The one with the highest identity is
/// returned; of several with that identity, the last. The query is not left
/// out where it is among the candidates. A candidate that shares no compared
/// position with the query has identity zero.
pub fn compute_nearest_neighbors_single<'a>(
    query: &Record,
    collection: &'a Vec<&'a Record>,
) -> (r: (&'a Record, Identity))
    requires
        collection@.len() > 0,
        forall|j: int|
            0 <= j < collection@.len() ==> (#[trigger] collection@[j]).seq@.len()
                == query.seq@.len(),
    ensures
        is_neighbor(query, collection@, r),
{
    let ghost candidates = ref_seqs(collection@);
    let ghost mut k: int = 0;
    let mut best_idty = Identity::zero();
    let mut best_neighbor: Option<&'a Record> = None;
    let mut i: usize = 0;
    while i < collection.len()
        invariant
            i <= collection@.len(),
            candidates == ref_seqs(collection@),
            forall|j: int|
                0 <= j < collection@.len() ==> (#[trigger] collection@[j]).seq@.len()
                    == query.seq@.len(),
            i == 0 ==> best_idty.matched == 0 && best_idty.compared == 0,
            i > 0 ==> is_nearest_in(query.seq@, candidates, i as int, k),
            i > 0 ==> best_neighbor == Some(collection@[k]),
            i > 0 ==> best_idty == score(query.seq@, candidates, k),
        decreases collection@.len() - i,
    {
        let other: &'a Record = collection[i];
        let idty = pct_identity(query, other).unwrap();
        proof {
            lemma_nearest_step(query.seq@, candidates, i as int, k);
        }
        if idty.is_at_least(&best_idty) {
            best_idty = idty;
            best_neighbor = Some(other);
            proof {
                k = i as int;
            }
        }
        i = i + 1;
    }
    proof {
        lemma_nearest_unique(
            query.seq@,
            candidates,
            k,
            nearest_index(query.seq@, candidates),
        );
        assert(query.seq@.len() == query.seq.len());
        lemma_identity_exact(query.seq@, candidates[k]);
    }
    (best_neighbor.unwrap(), best_idty)
}

/// `result` is the nearest of the reference records to the query, with the
/// identity of the two.
pub open spec fn is_neighbor(query: &Record, db: Seq<&Record>, result: (&Record, Identity)) -> bool {
    let k = nearest_index(query.seq@, ref_seqs(db));
    &&& is_nearest(query.seq@, ref_seqs(db), k)
    &&& result.0 == db[k]
    &&& result.1 == Identity::of(query.seq@, db[k].seq@)
    &&& result.1.matched == matched(query.seq@, db[k].seq@)
    &&& result.1.compared == compared(query.seq@, db[k].seq@)
}

/// One result per query, in the queries' order: entry `i` holds the nearest
/// reference record of query `i` and their identity.
pub open spec fn is_neighbor_list(
    queries: Seq<&Record>,
    db: Seq<&Record>,
    results: Seq<(&Record, Identity)>,
) -> bool {
    &&& results.len() == queries.len()
    &&& forall|i: int|
        0 <= i < queries.len() ==> is_neighbor(queries[i], db, #[trigger] results[i])
}

/// The queries and the reference records determine the results: two lists
/// that hold, for every query in its place, the nearest reference record and
/// the identity are the same list. So every run gives the same list, with one
/// worker or with many.
pub proof fn lemma_neighbor_list_determined(
    queries: Seq<&Record>,
    db: Seq<&Record>,
    first: Seq<(&Record, Identity)>,
    second: Seq<(&Record, Identity)>,
)
    requires
        is_neighbor_list(queries, db, first),
        is_neighbor_list(queries, db, second),
    ensures
        first == second,
{
    assert forall|i: int| 0 <= i < first.len() implies first[i] == second[i] by {
        assert(is_neighbor(queries[i], db, first[i]));
        assert(is_neighbor(queries[i], db, second[i]));
    }
    assert(first =~= second);
}

/// Hands the queries to rayon's worker pool: `par_iter` on the query list,
/// `map` with one search per query, `collect` into a vector.
///
/// Assumed of rayon: collecting a mapped parallel iterator over a slice gives
/// one item per element, in the slice's order, and each item is what the
/// mapped function returned for that element. Nothing is assumed of the
/// number of workers or of the order in which they finish.
#[verifier::external_body]
fn search_in_parallel<'a>(
    query_records: &'a Vec<&'a Record>,
    db_records: &'a Vec<&'a Record>,
) -> (results: Vec<(&'a Record, Identity)>)
    requires
        forall|i: int|
            0 <= i < query_records@.len() ==> call_requires(
                compute_nearest_neighbors_single,
                (#[trigger] query_records@[i], db_records),
            ),
    ensures
        results@.len() == query_records@.len(),
        forall|i: int|
            0 <= i < results@.len() ==> call_ensures(
                compute_nearest_neighbors_single,
                (query_records@[i], db_records),
                #[trigger] results@[i],
            ),
{
    query_records.par_iter().map(|query| compute_nearest_neighbors_single(query, db_records)).collect()
}

/// The nearest neighbour of every query among the reference records.
///
/// The searches run on rayon's worker pool, each against the whole reference
/// list. The result has one entry per query, in the queries' order, whatever
/// the number of workers.
pub fn compute_nearest_neighbors<'a>(
    query_records: &'a Vec<&'a Record>,
    db_records: &'a Vec<&'a Record>,
) -> (r: Result<Vec<(&'a Record, Identity)>, NearestNeighborError>)
    requires
        query_records@.len() > 0 ==> db_records@.len() > 0,
        forall|i: int, j: int|
            0 <= i < query_records@.len() && 0 <= j < db_records@.len() ==> (
            #[trigger] db_records@[j]).seq@.len() == (#[trigger] query_records@[i]).seq@.len(),
    ensures
        r matches Ok(results) && is_neighbor_list(query_records@, db_records@, results@),
{
    let results = search_in_parallel(query_records, db_records);
    Ok(results)
}

/// What is stored for one query: its identifier, the identifier of its
/// nearest neighbour, and the identity of the two.
#[derive(Debug, Clone, PartialEq, Eq)]
pub struct NeighborResult {
    pub query_id: String,
    pub neighbor_id: String,
    pub score: Identity,
}

/// The character between the columns of a line.
pub const TAB: char = '\t';

impl NeighborResult {
    /// The line for this result: query, neighbour and score with a tab
    /// between them, without a line end.
    pub open spec fn line_text(self, score: Seq<char>) -> Seq<char> {
        self.query_id@ + seq![TAB] + self.neighbor_id@ + seq![TAB] + score
    }

    /// Writes the result as one line of the table. The caller gives the score
    /// as it is to be shown.
    pub fn line(&self, score: &str) -> (r: String)
        ensures
            r@ == self.line_text(score@),
    {
        proof {
            reveal_strlit("\t");
        }
        let r = self.query_id.clone().concat("\t").concat(self.neighbor_id.as_str()).concat(
            "\t",
        ).concat(score);
        assert("\t"@ == seq![TAB]);
        r
    }
}

/// `row` is what is stored for the query: the query's identifier, that of
/// the nearest reference record, and the identity of the two.
pub open spec fn is_row(query: &Record, db: Seq<&Record>, row: NeighborResult) -> bool {
    let k = nearest_index(query.seq@, ref_seqs(db));
    &&& is_nearest(query.seq@, ref_seqs(db), k)
    &&& row.query_id@ == query.id@
    &&& row.neighbor_id@ == db[k].id@
    &&& row.score == Identity::of(query.seq@, db[k].seq@)
    &&& row.score.matched == matched(query.seq@, db[k].seq@)
    &&& row.score.compared == compared(query.seq@, db[k].seq@)
}

/// One row per query, in the queries' order.
pub open spec fn is_row_list(queries: Seq<&Record>, db: Seq<&Record>, rows: Seq<NeighborResult>) -> bool {
    &&& rows.len() == queries.len()
    &&& forall|i: int| 0 <= i < queries.len() ==> is_row(queries[i], db, #[trigger] rows[i])
}

/// Computes what is to be stored: for every query record its nearest
/// neighbour among the reference records.
///
/// The queries are the records named in `query_ids`, the reference records
/// those named in `db_ids`; without a list, all records. The rows come in
/// the order in which the queries stand in the collection.
pub fn compute_store_nearest_neighbors(
    records: Vec<Record>,
    query_ids: Option<Vec<String>>,
    db_ids: Option<Vec<String>>,
) -> (r: Result<Vec<NeighborResult>, NearestNeighborError>)
    requires
        same_length(records@),
        selection(records@, wanted(query_ids)).len() > 0 ==> selection(
            records@,
            wanted(db_ids),
        ).len() > 0,
    ensures
        r matches Ok(rows) && is_row_list(
            selection(records@, wanted(query_ids)),
            selection(records@, wanted(db_ids)),
            rows@,
        ),
{
    let query_records: Vec<&Record> = filter_records(records.as_slice(), query_ids);
    let db_records: Vec<&Record> = filter_records(records.as_slice(), db_ids);
    proof {
        assert forall|i: int, j: int|
            0 <= i < query_records@.len() && 0 <= j < db_records@.len() implies (
        #[trigger] db_records@[j]).seq@.len() == (#[trigger] query_records@[i]).seq@.len() by {
            lemma_selection_members(records@, wanted(query_ids), i);
            lemma_selection_members(records@, wanted(db_ids), j);
        }
    }
    let results = match compute_nearest_neighbors(&query_records, &db_records) {
        Ok(results) => results,
        Err(e) => {
            return Err(e);
        },
    };
    let mut rows: Vec<NeighborResult> = Vec::new();
    let mut i: usize = 0;
    while i < query_records.len()
        invariant
            i <= query_records@.len(),
            rows@.len() == i,
            is_neighbor_list(query_records@, db_records@, results@),
            forall|j: int| 0 <= j < i ==> is_row(query_records@[j], db_records@, #[trigger] rows@[j]),
        decreases query_records@.len() - i,
    {
        let query_record = query_records[i];
        let (neighbor_record, dist) = results[i];
        rows.push(
            NeighborResult {
                query_id: query_record.id.clone(),
                neighbor_id: neighbor_record.id.clone(),
                score: dist,
            },
        );
        i = i + 1;
    }
    Ok(rows)
}

} // verus!
