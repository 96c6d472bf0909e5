//! Choosing records by identifier.

use vstd::hash_set::StringHashSet;
use vstd::prelude::*;
use crate::record::Record;

verus! {

/// The identifiers that occur in a list, as a set.
pub open spec fn id_set(ids: Seq<String>) -> Set<Seq<char>> {
    Set::new(|id: Seq<char>| exists|j: int| 0 <= j < ids.len() && (#[trigger] ids[j])@ == id)
}

/// What a caller asks for: every record, or those named in a list.
pub open spec fn wanted(id_arr: Option<Vec<String>>) -> Option<Set<Seq<char>>> {
    match id_arr {
        None => None,
        Some(ids) => Some(id_set(ids@)),
    }
}

/// A record is chosen when no identifiers are given or when its own is among
/// them.
pub open spec fn is_selected(record: &Record, ids: Option<Set<Seq<char>>>) -> bool {
    match ids {
        None => true,
        Some(set) => set.contains(record.id@),
    }
}

/// The records themselves, borrowed, in their order.
pub open spec fn borrowed<'a>(records: Seq<Record>) -> Seq<&'a Record> {
    Seq::new(records.len(), |i: int| &records[i])
}

/// The chosen records, in the order of the collection.
pub open spec fn selection<'a>(
    records: Seq<Record>,
    ids: Option<Set<Seq<char>>>,
) -> Seq<&'a Record> {
    borrowed(records).filter(|record: &Record| is_selected(record, ids))
}

/// Without identifiers the selection is the whole collection.
pub proof fn lemma_selection_of_all(records: Seq<Record>)
    ensures
        selection(records, None) == borrowed(records),
    decreases records.len(),
{
    let pred = |record: &Record| is_selected(record, None);
    if records.len() == 0 {
        assert(borrowed(records).filter(pred) == borrowed(records)) by {
            reveal(Seq::filter);
        }
    } else {
        let front = records.drop_last();
        lemma_selection_of_all(front);
        assert(borrowed(records) == borrowed(front).push(&records.last()));
        borrowed(front).lemma_filter_push(&records.last(), pred);
    }
}

/// The selection depends on the given identifiers only through those that
/// some record bears: two sets that agree on the identifiers of the
/// collection select the same records.
pub proof fn lemma_selection_by_present_ids(
    records: Seq<Record>,
    a: Set<Seq<char>>,
    b: Set<Seq<char>>,
)
    requires
        forall|i: int|
            0 <= i < records.len() ==> (a.contains((#[trigger] records[i]).id@) <==> b.contains(
                records[i].id@,
            )),
    ensures
        selection(records, Some(a)) == selection(records, Some(b)),
    decreases records.len(),
{
    let in_a = |record: &Record| is_selected(record, Some(a));
    let in_b = |record: &Record| is_selected(record, Some(b));
    if records.len() == 0 {
        assert(borrowed(records).filter(in_a) == borrowed(records).filter(in_b)) by {
            reveal(Seq::filter);
        }
    } else {
        let front = records.drop_last();
        assert forall|i: int| 0 <= i < front.len() implies (a.contains((#[trigger] front[i]).id@)
            <==> b.contains(front[i].id@)) by {
            assert(front[i] == records[i]);
        }
        lemma_selection_by_present_ids(front, a, b);
        assert(borrowed(records) == borrowed(front).push(&records.last()));
        borrowed(front).lemma_filter_push(&records.last(), in_a);
        borrowed(front).lemma_filter_push(&records.last(), in_b);
        assert(a.contains(records[records.len() - 1].id@) <==> b.contains(
            records[records.len() - 1].id@,
        ));
    }
}

/// Every selected record is a record of the collection, and one that was
/// asked for.
pub proof fn lemma_selection_members(records: Seq<Record>, ids: Option<Set<Seq<char>>>, i: int)
    requires
        0 <= i < selection(records, ids).len(),
    ensures
        is_selected(selection(records, ids)[i], ids),
        exists|j: int| 0 <= j < records.len() && selection(records, ids)[i] == &#[trigger] records[j],
{
    let pred = |record: &Record| is_selected(record, ids);
    let chosen = selection(records, ids)[i];
    borrowed(records).lemma_filter_pred(pred, i);
    assert(selection(records, ids).contains(chosen));
    borrowed(records).lemma_filter_contains_rev(pred, chosen);
    let j = choose|j: int| 0 <= j < borrowed(records).len() && borrowed(records)[j] == chosen;
    assert(chosen == &records[j]);
}

/// An identifier that no record bears changes nothing: with it or without it
/// the same records are selected.
pub proof fn lemma_absent_id_ignored(records: Seq<Record>, ids: Set<Seq<char>>, absent: Seq<char>)
    requires
        forall|i: int| 0 <= i < records.len() ==> (#[trigger] records[i]).id@ != absent,
    ensures
        selection(records, Some(ids.insert(absent))) == selection(records, Some(ids)),
{
    lemma_selection_by_present_ids(records, ids.insert(absent), ids);
}

/// The records whose identifier is in the list, or all of them when there is
/// no list, in the order of the collection.
///
/// Identifiers that no record bears select nothing, and an identifier that is
/// listed twice counts once.
pub fn filter_records<'a>(records: &'a [Record], id_arr: Option<Vec<String>>) -> (r: Vec<&'a Record>)
    ensures
        r@ == selection(records@, wanted(id_arr)),
        id_arr is None ==> r@ == borrowed(records@),
{
    let ghost ids = wanted(id_arr);
    let ghost pred = |record: &Record| is_selected(record, ids);
    let id_subset: Option<StringHashSet> = match id_arr {
        None => None,
        Some(id_list) => Some(collect_ids(id_list)),
    };
    let mut out: Vec<&'a Record> = Vec::new();
    let mut i: usize = 0;
    assert(borrowed(records@.take(0)).filter(pred) == Seq::<&Record>::empty()) by {
        reveal(Seq::filter);
    }
    while i < records.len()
        invariant
            i <= records@.len(),
            pred == |record: &Record| is_selected(record, ids),
            match id_subset {
                None => ids is None,
                Some(set) => ids == Some(set@),
            },
            out@ == borrowed(records@.take(i as int)).filter(pred),
        decreases records@.len() - i,
    {
        let record = &records[i];
        let keep = match &id_subset {
            None => true,
            Some(set) => set.contains(record.id.as_str()),
        };
        proof {
            let front = borrowed(records@.take(i as int));
            assert(borrowed(records@.take(i + 1)) == front.push(record));
            front.lemma_filter_push(record, pred);
        }
        if keep {
            out.push(record);
        }
        i = i + 1;
    }
    proof {
        assert(records@.take(records@.len() as int) == records@);
        lemma_selection_of_all(records@);
    }
    out
}

/// Gathers the listed identifiers into a hash set.
fn collect_ids(id_list: Vec<String>) -> (set: StringHashSet)
    ensures
        set@ == id_set(id_list@),
{
    let mut id_list = id_list;
    let ghost all = id_list@;
    let mut set = StringHashSet::new();
    while id_list.len() > 0
        invariant
            id_list@.len() <= all.len(),
            id_list@ == all.take(id_list@.len() as int),
            forall|id: Seq<char>|
                set@.contains(id) <==> exists|j: int|
                    id_list@.len() <= j < all.len() && (#[trigger] all[j])@ == id,
        decreases id_list@.len(),
    {
        let ghost before = set@;
        let ghost n = id_list@.len();
        let id = id_list.pop().unwrap();
        assert(id == all[n - 1]);
        set.insert(id);
        assert forall|other: Seq<char>| set@.contains(other) <==> exists|j: int|
            id_list@.len() <= j < all.len() && (#[trigger] all[j])@ == other by {
            if before.contains(other) {
                let j = choose|j: int| n <= j < all.len() && (#[trigger] all[j])@ == other;
                assert(id_list@.len() <= j < all.len() && all[j]@ == other);
            }
        }
    }
    assert(set@ =~= id_set(all));
    set
}

} // verus!
