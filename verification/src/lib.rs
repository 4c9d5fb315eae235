use vstd::prelude::*;
use vstd::utf8::{decode_utf8, valid_utf8};

pub mod actual_state;
pub mod capture_laws;
pub mod conflict_copies;
pub mod counter_laws;
pub mod durability;
pub mod epoch;
pub mod error;
pub mod file_effect_laws;
pub mod file_laws;
pub mod file_metadata;
pub mod file_queries;
pub mod file_rows;
pub mod file_upsert;
pub mod file_versions;
pub mod filesystem_transaction;
pub mod fresh_id;
pub mod frontier;
pub mod handoff_lease;
pub mod identity;
pub mod index_vocabulary;
pub mod journal_effect_laws;
pub mod journal_laws;
pub mod lease_laws;
pub mod link;
pub mod link_laws;
pub mod link_recovery;
pub mod listing_laws;
pub mod local_capture;
pub mod local_commits;
pub mod local_decisions;
pub mod local_emission;
pub mod local_mutations;
pub mod model_laws;
pub mod name_laws;
pub mod operation_laws;
pub mod path_key;
pub mod phase;
pub mod pinned_directories;
pub mod read_back_laws;
pub mod recursive_operation;
pub mod recursive_part;
pub mod reservation;
pub mod root_counter;
pub mod root_recheck;
pub mod rows;
pub mod sorted_text;
pub mod soundness;
pub mod stored_rows;
pub mod text;
pub mod transaction_rows;
pub mod trash;
pub mod value_laws;
pub mod vocabulary;

verus! {

/// A value read from a column of the database.
#[derive(Debug, PartialEq, Eq)]
pub enum ColumnValue {
    Null,
    Integer(i64),
    Text(Vec<u8>),
    Blob(Vec<u8>),
}

/// Reads bytes as text by `std::str::from_utf8`, which accepts exactly valid
/// UTF-8 and gives the text it encodes.
#[verifier::external_body]
fn utf8_text(bytes: &[u8]) -> (text: Option<String>)
    ensures
        text is Some == valid_utf8(bytes@),
        text is Some ==> text->0@ == decode_utf8(bytes@),
{
    std::str::from_utf8(bytes).ok().map(str::to_owned)
}

/// The inventory operation a column names: its text, where it holds valid text,
/// and nothing otherwise.
pub fn read_inventory_operation_id(value: &ColumnValue) -> (id: Option<String>)
    ensures
        match *value {
            ColumnValue::Text(bytes) => if valid_utf8(bytes@) {
                id is Some && id->0@ == decode_utf8(bytes@)
            } else {
                id is None
            },
            _ => id is None,
        },
{
    match value {
        ColumnValue::Text(bytes) => utf8_text(bytes.as_slice()),
        _ => None,
    }
}

} // verus!
