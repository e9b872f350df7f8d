//! Rows of the persisted audio-entry store and their mathematical models.

use vstd::prelude::*;

use crate::source::AudioSource;
use crate::text::{last_component, normalized};

verus! {

/// One row of the persisted store.  Rows are created by an external import
/// process and are read-only at request time.
#[derive(Debug)]
pub struct DatabaseEntry {
    /// The dictionary headword this asset belongs to.
    pub expression: String,
    /// The phonetic reading the asset was recorded for, when known.
    pub reading: Option<String>,
    /// Provenance of the asset.
    pub source: AudioSource,
    /// The individual contributor, for crowd-sourced sources.
    pub speaker: Option<String>,
    /// Human-readable disambiguator; may be empty.
    pub display: String,
    /// File name, possibly still carrying a stray directory prefix.
    pub file: String,
}

/// The mathematical value of a row: every text field as a `Seq<char>`.
#[verifier::ext_equal]
pub ghost struct EntryModel {
    pub expression: Seq<char>,
    pub reading: Option<Seq<char>>,
    pub source: AudioSource,
    pub speaker: Option<Seq<char>>,
    pub display: Seq<char>,
    pub file: Seq<char>,
}

impl View for DatabaseEntry {
    type V = EntryModel;

    open spec fn view(&self) -> EntryModel {
        EntryModel {
            expression: self.expression@,
            reading: match self.reading {
                Option::Some(r) => Option::Some(r@),
                Option::None => Option::None,
            },
            source: self.source,
            speaker: match self.speaker {
                Option::Some(s) => Option::Some(s@),
                Option::None => Option::None,
            },
            display: self.display@,
            file: self.file@,
        }
    }
}

/// The models of a sequence of rows.
pub open spec fn entry_models(s: Seq<DatabaseEntry>) -> Seq<EntryModel> {
    s.map_values(|e: DatabaseEntry| e@)
}

/// The same row with its file reference reduced to a bare file name.
pub open spec fn normalized_entry(m: EntryModel) -> EntryModel {
    EntryModel { file: normalized(m.file), ..m }
}

/// Normalization is idempotent on whole rows: stripping a row's file
/// reference twice yields the same row as stripping it once.
pub proof fn lemma_normalized_entry_idempotent(m: EntryModel)
    ensures
        normalized_entry(normalized_entry(m)) == normalized_entry(m),
{
    crate::text::lemma_normalized_idempotent(m.file);
    assert(normalized_entry(normalized_entry(m)) =~= normalized_entry(m));
}

fn clone_opt_string(o: &Option<String>) -> (r: Option<String>)
    ensures
        r == *o,
{
    match o {
        Option::Some(s) => Option::Some(s.clone()),
        Option::None => Option::None,
    }
}

impl Clone for DatabaseEntry {
    fn clone(&self) -> (r: Self)
        ensures
            r == *self,
    {
        DatabaseEntry {
            expression: self.expression.clone(),
            reading: clone_opt_string(&self.reading),
            source: self.source,
            speaker: clone_opt_string(&self.speaker),
            display: self.display.clone(),
            file: self.file.clone(),
        }
    }
}

impl DatabaseEntry {
    /// Reduces the stored file reference to its final path component.  Some
    /// source data was imported with the folder name still glued onto the
    /// file name; this cuts it out and is a no-op on a bare name.
    pub fn strip_folder_name_prefix(&mut self)
        ensures
            final(self)@ == normalized_entry(old(self)@),
    {
        let name = last_component(self.file.as_str());
        self.file = name;
        proof {
            assert(self@ =~= normalized_entry(old(self)@));
        }
    }
}

} // verus!
