//! Loading an alignment: the records of a FASTA text, checked to be of one
//! length.

use vstd::prelude::*;
use vstd::string::{to_string_from_display_ensures, StringExecFns};
use crate::record::{record_views, same_length, Record};
use crate::text::{decimal, push_decimal, push_text, string_of};

verus! {

/// Why an alignment could not be loaded.
#[derive(Debug, Clone, Copy, PartialEq, Eq)]
pub enum FastaParseErrorKind {
    /// The text could not be read as FASTA.
    IOError,
    /// The text holds no record.
    EmptyFile,
    /// A record is not as long as the first.
    LengthMismatch,
}

/// An alignment that could not be loaded: the kind of failure, and a text
/// for the user.
#[derive(Debug)]
pub struct FastaParseError {
    pub message: String,
    pub kind: FastaParseErrorKind,
}

/// `std::io::Error`, carried through as it is: nothing is read from it but
/// the text that it shows.
#[verifier::external_type_specification]
#[verifier::external_body]
pub struct ExIoError(std::io::Error);

/// The records that the FASTA reader of the `bio` crate finds in a text, each
/// as its identifier and its symbols; `None` where the reader reports an error.
pub uninterp spec fn fasta_records(data: Seq<u8>) -> Option<Seq<(Seq<char>, Seq<u8>)>>;

/// Reads all records of a FASTA text with `bio::io::fasta::Reader`: `new` on
/// the bytes, `records`, and each record's `id` and `seq`.
///
/// Assumed of `bio`: what the reader returns depends on the bytes alone. The
/// reader stops at the first error and reports it; else it gives the records
/// in the order of the text. On a text of no bytes it gives no record and no
/// error.
#[verifier::external_body]
fn read_fasta(data: &[u8]) -> (r: Result<Vec<Record>, std::io::Error>)
    ensures
        r is Ok <==> fasta_records(data@) is Some,
        r matches Ok(records) ==> fasta_records(data@) == Some(record_views(records@)),
        r is Err ==> data@.len() > 0,
        r matches Ok(records) ==> (data@.len() == 0 ==> records@.len() == 0),
{
    bio::io::fasta::Reader::new(data).records().map(
        |item| item.map(|record| Record::new(record.id(), record.seq())),
    ).collect()
}

/// The text for an alignment without records.
pub open spec fn empty_message() -> Seq<char> {
    "No records found."@
}

/// The text for a record that is not as long as the first one.
pub open spec fn mismatch_message(first_len: nat, len: nat, index: nat) -> Seq<char> {
    "Record lengths don't match! FirstLen="@ + decimal(first_len) + ", got Len="@ + decimal(len)
        + " for record index "@ + decimal(index)
}

/// Every record has as many symbols as the first.
pub open spec fn lengths_agree(records: Seq<(Seq<char>, Seq<u8>)>) -> bool {
    forall|i: int| 0 <= i < records.len() ==> (#[trigger] records[i]).1.len() == records[0].1.len()
}

/// Record `k` is the first that is not as long as record 0.
pub open spec fn is_first_mismatch(records: Seq<(Seq<char>, Seq<u8>)>, k: int) -> bool {
    &&& 0 <= k < records.len()
    &&& records[k].1.len() != records[0].1.len()
    &&& forall|i: int| 0 <= i < k ==> (#[trigger] records[i]).1.len() == records[0].1.len()
}

/// The position of the first record that is not as long as record 0.
/// Meaningful when there is one.
pub open spec fn first_mismatch(records: Seq<(Seq<char>, Seq<u8>)>) -> int {
    choose|k: int| is_first_mismatch(records, k)
}

/// What loading makes of the records that were read: an error where there is
/// none, an error that names the first record of another length than record
/// 0, and else the records themselves.
pub open spec fn is_load_result(
    read: Seq<(Seq<char>, Seq<u8>)>,
    r: Result<Vec<Record>, FastaParseError>,
) -> bool {
    if read.len() == 0 {
        &&& r matches Err(e)
        &&& e.kind == FastaParseErrorKind::EmptyFile
        &&& e.message@ == empty_message()
    } else if !lengths_agree(read) {
        let k = first_mismatch(read);
        &&& is_first_mismatch(read, k)
        &&& r matches Err(e)
        &&& e.kind == FastaParseErrorKind::LengthMismatch
        &&& e.message@ == mismatch_message(read[0].1.len(), read[k].1.len(), k as nat)
    } else {
        &&& r matches Ok(records)
        &&& record_views(records@) == read
        &&& records@.len() > 0
        &&& same_length(records@)
    }
}

/// Checks what was read: there is a record, and all records have the length
/// of the first. Returns the records unchanged where both hold.
pub fn validate_records(records: Vec<Record>) -> (r: Result<Vec<Record>, FastaParseError>)
    ensures
        is_load_result(record_views(records@), r),
        r matches Ok(checked) ==> checked == records,
{
    let ghost read = record_views(records@);
    if records.len() == 0 {
        return Err(
            FastaParseError {
                message: String::from_str("No records found."),
                kind: FastaParseErrorKind::EmptyFile,
            },
        );
    }
    let first_len: usize = records[0].seq.len();
    let mut record_idx: usize = 0;
    while record_idx < records.len()
        invariant
            record_idx <= records@.len(),
            read == record_views(records@),
            first_len == records@[0].seq@.len(),
            forall|i: int| 0 <= i < record_idx ==> (#[trigger] read[i]).1.len() == first_len,
        decreases records@.len() - record_idx,
    {
        let len = records[record_idx].seq.len();
        if len != first_len {
            let mut text: Vec<char> = Vec::new();
            push_text("Record lengths don't match! FirstLen=", &mut text);
            push_decimal(first_len, &mut text);
            push_text(", got Len=", &mut text);
            push_decimal(len, &mut text);
            push_text(" for record index ", &mut text);
            push_decimal(record_idx, &mut text);
            proof {
                assert(is_first_mismatch(read, record_idx as int));
                let k = first_mismatch(read);
                assert(k == record_idx) by {
                    if k < record_idx {
                        assert(read[k].1.len() == first_len);
                    }
                }
            }
            return Err(
                FastaParseError {
                    message: string_of(text.as_slice()),
                    kind: FastaParseErrorKind::LengthMismatch,
                },
            );
        }
        record_idx = record_idx + 1;
    }
    proof {
        assert(lengths_agree(read));
        assert forall|i: int| 0 <= i < records@.len() implies (#[trigger] records@[i]).seq@.len()
            == records@[0].seq@.len() by {
            assert(read[i].1.len() == first_len);
        }
    }
    Ok(records)
}

/// The start of every text that reports a failure to read.
pub open spec fn io_prefix() -> Seq<char> {
    "IO error: "@
}

/// The error says that the text could not be read, after the fixed start of
/// such messages.
pub open spec fn is_read_failure(e: FastaParseError) -> bool {
    &&& e.kind == FastaParseErrorKind::IOError
    &&& e.message@.len() >= io_prefix().len()
    &&& e.message@.take(io_prefix().len() as int) == io_prefix()
}

impl vstd::std_specs::convert::FromSpecImpl<std::io::Error> for FastaParseError {
    /// The text of the result depends on what the error shows of itself,
    /// which is not known as a function of the error.
    open spec fn obeys_from_spec() -> bool {
        false
    }

    open spec fn from_spec(err: std::io::Error) -> FastaParseError {
        arbitrary()
    }
}

impl From<std::io::Error> for FastaParseError {
    /// A failure to read, with what the error says of itself.
    fn from(err: std::io::Error) -> (e: FastaParseError)
        ensures
            is_read_failure(e),
            exists|text: String|
                to_string_from_display_ensures::<std::io::Error>(&err, text) && e.message@
                    == io_prefix() + text@,
    {
        let text = err.to_string();
        let message = String::from_str("IO error: ").concat(text.as_str());
        assert(message@.take(io_prefix().len() as int) == io_prefix());
        FastaParseError { message, kind: FastaParseErrorKind::IOError }
    }
}

/// Loads an alignment from a FASTA text.
///
/// The text is read by the `bio` crate. Where it cannot be read the error is
/// of kind `IOError`. What was read is then checked as `validate_records`
/// does.
pub fn parse_all_records(data: &[u8]) -> (r: Result<Vec<Record>, FastaParseError>)
    ensures
        match fasta_records(data@) {
            None => r matches Err(e) && is_read_failure(e),
            Some(read) => is_load_result(read, r),
        },
        data@.len() == 0 ==> (r matches Err(e) && e.kind == FastaParseErrorKind::EmptyFile),
{
    match read_fasta(data) {
        Err(err) => Err(FastaParseError::from(err)),
        Ok(all_fasta_records) => validate_records(all_fasta_records),
    }
}

} // verus!
