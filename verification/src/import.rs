//! Types shared with the offline import tooling.
//!
//! Building the persisted store from source dictionaries is a separate
//! batch job; the library only supplies the row shape it writes and the
//! file-name split that groups audio files by their stem.

use vstd::prelude::*;


verus! {

/// One row as the import tooling writes it: the source is still a free
/// string here, validated only when rows are read back.
#[derive(Debug)]
pub struct Entry {
    pub expression: String,
    pub reading: Option<String>,
    pub source: String,
    pub speaker: Option<String>,
    pub display: Option<String>,
    pub file: String,
}

impl Default for Entry {
    fn default() -> (r: Self)
        ensures
            r.expression@.len() == 0 && r.reading is None && r.source@.len() == 0
                && r.speaker is None && r.display is None && r.file@.len() == 0,
    {
        Entry {
            expression: String::new(),
            reading: Option::None,
            source: String::new(),
            speaker: Option::None,
            display: Option::None,
            file: String::new(),
        }
    }
}

/// `s` split at its last `'.'`: the part before it and the part after it,
/// or `None` when `s` holds no `'.'`.
pub open spec fn rsplit_dot(s: Seq<char>) -> Option<(Seq<char>, Seq<char>)>
    decreases s.len(),
{
    if s.len() == 0 {
        Option::None
    } else if s.last() == '.' {
        Option::Some((s.drop_last(), Seq::empty()))
    } else {
        match rsplit_dot(s.drop_last()) {
            Option::Some((a, b)) => Option::Some((a, b.push(s.last()))),
            Option::None => Option::None,
        }
    }
}

proof fn lemma_rsplit_at(s: Seq<char>, cut: int)
    requires
        0 <= cut <= s.len(),
        forall|j: int| cut <= j < s.len() ==> #[trigger] s[j] != '.',
        cut == 0 || s[cut - 1] == '.',
    ensures
        cut == 0 ==> rsplit_dot(s) is None,
        cut > 0 ==> rsplit_dot(s) == Option::Some((s.take(cut - 1), s.skip(cut))),
    decreases s.len(),
{
    if s.len() == 0 {
    } else if cut < s.len() {
        lemma_rsplit_at(s.drop_last(), cut);
        if cut > 0 {
            assert(s.drop_last().take(cut - 1) =~= s.take(cut - 1));
            assert(s.drop_last().skip(cut).push(s.last()) =~= s.skip(cut));
        }
    } else {
        assert(s.last() == '.');
        assert(s.drop_last() =~= s.take(cut - 1));
        assert(Seq::<char>::empty() =~= s.skip(cut));
    }
}

/// Splits a file name into its stem and its extension at the last `'.'`.
pub fn split_extension(name: &str) -> (r: Option<(String, String)>)
    ensures
        match r {
            Option::Some((stem, ext)) => rsplit_dot(name@) == Option::Some((stem@, ext@)),
            Option::None => rsplit_dot(name@) is None,
        },
{
    let n = name.unicode_len();
    let mut cut: usize = n;
    while cut > 0
        invariant
            n == name@.len(),
            0 <= cut <= n,
            forall|j: int| cut <= j < n ==> #[trigger] name@[j] != '.',
        ensures
            0 <= cut <= n,
            forall|j: int| cut <= j < n ==> #[trigger] name@[j] != '.',
            cut == 0 || name@[cut as int - 1] == '.',
        decreases cut,
    {
        if name.get_char(cut - 1) == '.' {
            break;
        }
        cut -= 1;
    }
    proof {
        lemma_rsplit_at(name@, cut as int);
    }
    if cut == 0 {
        return Option::None;
    }
    let stem = name.substring_char(0, cut - 1);
    let ext = name.substring_char(cut, n);
    proof {
        assert(stem@ =~= name@.take(cut - 1));
        assert(ext@ =~= name@.skip(cut as int));
    }
    Option::Some((stem.to_owned(), ext.to_owned()))
}

} // verus!
