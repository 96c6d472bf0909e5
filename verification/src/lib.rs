//! Nearest-neighbour search over pre-aligned sequences.
//!
//! Every record of an alignment has the same length. For each query record the
//! library finds the reference record with the highest gap-aware identity: the
//! share of positions, among those at which not both sequences have a gap, on
//! which the two sequences agree.

pub mod fasta;
pub mod hamming;
pub mod id_list;
pub mod identity;
pub mod nearest_neighbor;
pub mod record;
pub mod subset;
pub mod text;

pub use crate::fasta::{parse_all_records, FastaParseError, FastaParseErrorKind};
pub use crate::id_list::parse_record_ids;
pub use crate::identity::Identity;
pub use crate::record::Record;
