//! Request validation, script classification and the per-request pipeline.
//!
//! A request carries a headword and its reading; both are required.  The
//! reading's first character decides which crowd-sourced supplementary
//! source is queried alongside the primary lookup, and once the store has
//! answered, the combined rows are merged, ordered, resolved against the
//! media tree and projected into the response list.

use vstd::prelude::*;

use crate::entry::{entry_models, DatabaseEntry};
use crate::kana::{is_kana_char, KanaTable};
use crate::ordering::{merge_entries, normalized_models, stable_sorted_by_rank};
use crate::resolve::{result_models, resolved_models, AudioResult};
use crate::source::AudioSource;
use crate::tree::DirTree;

verus! {

/// A request parameter the caller must supply is missing or empty.  Such a
/// request is rejected before any store access.
#[derive(Clone, Copy, Debug, PartialEq, Eq, Structural)]
pub enum ValidationError {
    /// The headword parameter is empty.
    EmptyExpression,
    /// The reading parameter is empty.
    EmptyReading,
}

/// The supplementary source selected for a reading: the kana-script crowd
/// source when the first character appears in the syllabary table, the
/// other-script crowd source otherwise.
pub open spec fn spec_supplementary_source(reading: Seq<char>) -> AudioSource
    recommends
        reading.len() > 0,
{
    if is_kana_char(reading[0]) {
        AudioSource::ForvoJp
    } else {
        AudioSource::ForvoZh
    }
}

/// Checks that both request parameters are present.
pub fn validate_request(expression: &str, reading: &str) -> (r: Result<(), ValidationError>)
    ensures
        match r {
            Result::Ok(()) => expression@.len() > 0 && reading@.len() > 0,
            Result::Err(e) => (e == ValidationError::EmptyExpression && expression@.len() == 0) || (
            e == ValidationError::EmptyReading && expression@.len() > 0 && reading@.len() == 0),
        },
{
    if expression.is_empty() {
        Result::Err(ValidationError::EmptyExpression)
    } else if reading.is_empty() {
        Result::Err(ValidationError::EmptyReading)
    } else {
        Result::Ok(())
    }
}

/// Classifies the reading's script and selects the supplementary source to
/// query: an empty reading fails classification and is rejected.
pub fn classify_reading(table: &KanaTable, reading: &str) -> (r: Result<
    AudioSource,
    ValidationError,
>)
    requires
        table.wf(),
    ensures
        match r {
            Result::Ok(s) => reading@.len() > 0 && s == spec_supplementary_source(reading@),
            Result::Err(e) => reading@.len() == 0 && e == ValidationError::EmptyReading,
        },
{
    if reading.is_empty() {
        return Result::Err(ValidationError::EmptyReading);
    }
    let first = reading.get_char(0);
    if table.contains_char(first) {
        Result::Ok(AudioSource::ForvoJp)
    } else {
        Result::Ok(AudioSource::ForvoZh)
    }
}

/// The response list for the fetched rows: the primary and supplementary
/// result sets are normalized, merged and stably ordered by source
/// priority, every row whose file the media tree holds is projected into a
/// `{name, url}` pair, and the rest are dropped.
pub fn process_entries(
    dict: Vec<DatabaseEntry>,
    forvo: Vec<DatabaseEntry>,
    order: &Vec<AudioSource>,
    root: &DirTree,
    host: &str,
) -> (r: Vec<AudioResult>)
    ensures
        result_models(r@) == resolved_models(
            stable_sorted_by_rank(
                normalized_models(entry_models(dict@)) + normalized_models(entry_models(forvo@)),
                order@,
            ),
            *root,
            host@,
        ),
{
    let merged = merge_entries(dict, forvo, order);
    AudioResult::create_list(merged.as_slice(), root, host)
}

} // verus!
