//! Sequence records: an identifier and the aligned symbols that belong to it.

use vstd::prelude::*;
use vstd::slice::slice_to_vec;
use vstd::string::StringExecFns;

verus! {

/// One entry of an alignment.
#[derive(Debug, Clone, PartialEq, Eq)]
pub struct Record {
    /// The name by which identifier lists select the record.
    pub id: String,
    /// The aligned symbols, one byte per position.
    pub seq: Vec<u8>,
}

impl Record {
    /// Builds a record from an identifier and its symbols.
    pub fn new(id: &str, seq: &[u8]) -> (r: Record)
        ensures
            r.id@ == id@,
            r.seq@ == seq@,
    {
        Record { id: String::from_str(id), seq: slice_to_vec(seq) }
    }

    /// The record's identifier.
    pub fn id(&self) -> (r: &str)
        ensures
            r@ == self.id@,
    {
        self.id.as_str()
    }

    /// The record's symbols.
    pub fn seq(&self) -> (r: &[u8])
        ensures
            r@ == self.seq@,
    {
        self.seq.as_slice()
    }
}

/// Identifier and symbols of each record, in the records' order.
pub open spec fn record_views(records: Seq<Record>) -> Seq<(Seq<char>, Seq<u8>)> {
    Seq::new(records.len(), |i: int| (records[i].id@, records[i].seq@))
}

/// Every record has as many positions as the first.
pub open spec fn same_length(records: Seq<Record>) -> bool {
    forall|i: int|
        0 <= i < records.len() ==> (#[trigger] records[i]).seq@.len() == records[0].seq@.len()
}

} // verus!
