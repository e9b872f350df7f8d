//! The closed vocabulary of audio provenance sources.
//!
//! Every stored row names the source it came from.  The set of known
//! identifiers is fixed; anything else is folded into the `Other` catch-all
//! so that matches over the vocabulary stay exhaustive.

use vstd::prelude::*;

use crate::text::str_eq;

verus! {

/// Provenance of an audio asset: a dictionary edition or a crowd-sourced
/// recording provider.  `Other` absorbs identifiers outside the known set.
#[derive(Clone, Copy, Debug, PartialEq, Eq, Structural)]
pub enum AudioSource {
    Daijisen,
    Nhk16,
    Shinmeikai8,
    Jpod,
    ForvoJp,
    ForvoZh,
    ForvoEs,
    Other,
}

/// The identifier under which a source's files live: its subdirectory name
/// under the media root, and the name shown to the client.
pub open spec fn spec_source_name(s: AudioSource) -> Seq<char> {
    match s {
        AudioSource::Daijisen => "daijisen"@,
        AudioSource::Nhk16 => "nhk16"@,
        AudioSource::Shinmeikai8 => "shinmeikai8"@,
        AudioSource::Jpod => "jpod"@,
        AudioSource::ForvoJp => "forvo_jp"@,
        AudioSource::ForvoZh => "forvo_zh"@,
        AudioSource::ForvoEs => "forvo_es"@,
        AudioSource::Other => "other"@,
    }
}

/// Which source a stored identifier denotes.  Total: unknown identifiers map
/// to `Other`, and `"forvo"` is accepted as a historical alias of `ForvoJp`.
pub open spec fn spec_source_of_name(name: Seq<char>) -> AudioSource {
    if name == "forvo"@ || name == "forvo_jp"@ {
        AudioSource::ForvoJp
    } else if name == "forvo_zh"@ {
        AudioSource::ForvoZh
    } else if name == "forvo_es"@ {
        AudioSource::ForvoEs
    } else if name == "shinmeikai8"@ {
        AudioSource::Shinmeikai8
    } else if name == "nhk16"@ {
        AudioSource::Nhk16
    } else if name == "daijisen"@ {
        AudioSource::Daijisen
    } else if name == "jpod"@ {
        AudioSource::Jpod
    } else {
        AudioSource::Other
    }
}

impl AudioSource {
    /// The source a stored identifier denotes.  Total: anything outside the
    /// known vocabulary becomes `Other`, so matches at the store boundary
    /// stay exhaustive.
    pub fn from_name(name: &str) -> (r: AudioSource)
        ensures
            r == spec_source_of_name(name@),
    {
        if str_eq(name, "forvo") || str_eq(name, "forvo_jp") {
            AudioSource::ForvoJp
        } else if str_eq(name, "forvo_zh") {
            AudioSource::ForvoZh
        } else if str_eq(name, "forvo_es") {
            AudioSource::ForvoEs
        } else if str_eq(name, "shinmeikai8") {
            AudioSource::Shinmeikai8
        } else if str_eq(name, "nhk16") {
            AudioSource::Nhk16
        } else if str_eq(name, "daijisen") {
            AudioSource::Daijisen
        } else if str_eq(name, "jpod") {
            AudioSource::Jpod
        } else {
            AudioSource::Other
        }
    }

    /// The source's canonical identifier, e.g. `"forvo_jp"`.
    pub fn name(&self) -> (r: &'static str)
        ensures
            r@ == spec_source_name(*self),
    {
        match self {
            AudioSource::Daijisen => "daijisen",
            AudioSource::Nhk16 => "nhk16",
            AudioSource::Shinmeikai8 => "shinmeikai8",
            AudioSource::Jpod => "jpod",
            AudioSource::ForvoJp => "forvo_jp",
            AudioSource::ForvoZh => "forvo_zh",
            AudioSource::ForvoEs => "forvo_es",
            AudioSource::Other => "other",
        }
    }

    /// Every variant, in declaration order.
    pub fn all_variants() -> (r: Vec<AudioSource>)
        ensures
            r@ == seq![
                AudioSource::Daijisen,
                AudioSource::Nhk16,
                AudioSource::Shinmeikai8,
                AudioSource::Jpod,
                AudioSource::ForvoJp,
                AudioSource::ForvoZh,
                AudioSource::ForvoEs,
                AudioSource::Other,
            ],
    {
        let mut v: Vec<AudioSource> = Vec::new();
        v.push(AudioSource::Daijisen);
        v.push(AudioSource::Nhk16);
        v.push(AudioSource::Shinmeikai8);
        v.push(AudioSource::Jpod);
        v.push(AudioSource::ForvoJp);
        v.push(AudioSource::ForvoZh);
        v.push(AudioSource::ForvoEs);
        v.push(AudioSource::Other);
        proof {
            assert(v@ =~= seq![
                AudioSource::Daijisen,
                AudioSource::Nhk16,
                AudioSource::Shinmeikai8,
                AudioSource::Jpod,
                AudioSource::ForvoJp,
                AudioSource::ForvoZh,
                AudioSource::ForvoEs,
                AudioSource::Other,
            ]);
        }
        v
    }
}

} // verus!
