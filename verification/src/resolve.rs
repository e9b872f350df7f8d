//! The tiered file resolver and the result projection.
//!
//! A stored row names a file and a source; the resolver locates the file
//! inside the media tree, trying the conventional `media` folder first, then
//! a folder named after the row's display label, then a bounded recursive
//! search of the source's subtree.  A located file is projected into a
//! `{name, url}` pair; a row whose file cannot be located is dropped by the
//! caller.

use vstd::prelude::*;
use vstd::string::*;

use rayon::iter::{IntoParallelRefIterator, ParallelIterator};

use crate::entry::{DatabaseEntry, EntryModel, entry_models};
use crate::source::spec_source_name;
use crate::text::str_eq;
use crate::tree::{
    DirTree, dir_has_file, dir_has_file_exec, find_subdir, find_subdir_exec,
    lemma_find_subdir_is_member, path_in_tree, search_from,
};

verus! {

/// Resolution failure of a single row: the searched directory holds no file
/// of that name.  Carried for diagnostics only; the caller drops the row.
#[derive(Debug)]
pub enum AudioFileError {
    /// `dir` does not contain the audio file the entry names.
    MissingAudioFile { entry: DatabaseEntry, dir: String },
}

/// One element of the response list: a human-readable source name and the
/// URL under which the file is served.
#[derive(Debug)]
pub struct AudioResult {
    pub name: String,
    pub url: String,
}

/// The mathematical value of an `AudioResult`.
#[verifier::ext_equal]
pub ghost struct AudioResultModel {
    pub name: Seq<char>,
    pub url: Seq<char>,
}

impl View for AudioResult {
    type V = AudioResultModel;

    open spec fn view(&self) -> AudioResultModel {
        AudioResultModel { name: self.name@, url: self.url@ }
    }
}

/// The models of a sequence of results.
pub open spec fn result_models(s: Seq<AudioResult>) -> Seq<AudioResultModel> {
    s.map_values(|r: AudioResult| r@)
}

/// The character sequences of a path of `String` components.
pub open spec fn path_view(p: Seq<String>) -> Seq<Seq<char>> {
    p.map_values(|s: String| s@)
}

/// The components of `p`, each preceded by a `'/'`.
pub open spec fn slash_joined(p: Seq<Seq<char>>) -> Seq<char>
    decreases p.len(),
{
    if p.len() == 0 {
        Seq::empty()
    } else {
        slash_joined(p.drop_last()) + seq!['/'] + p.last()
    }
}

/// Where an entry's file lives under the media root, as the list of path
/// components below the root, or `None` when no tier locates it.
///
/// Tier 1 is `<source>/media/<file>`; tier 2 is `<source>/<display>/<file>`
/// (which collapses to `<source>/<file>` when the display label is empty);
/// tier 3 is the recursive search of the source's subtree.
pub open spec fn resolve_path(root: DirTree, m: EntryModel) -> Option<Seq<Seq<char>>> {
    let src_name = spec_source_name(m.source);
    match find_subdir(root, src_name) {
        Option::None => Option::None,
        Option::Some(srcdir) => {
            if find_subdir(srcdir, "media"@) matches Option::Some(md) && dir_has_file(md, m.file) {
                Option::Some(seq![src_name, "media"@, m.file])
            } else if m.display.len() == 0 && dir_has_file(srcdir, m.file) {
                Option::Some(seq![src_name, m.file])
            } else if m.display.len() > 0 && (find_subdir(srcdir, m.display) matches Option::Some(
                dd,
            ) && dir_has_file(dd, m.file)) {
                Option::Some(seq![src_name, m.display, m.file])
            } else {
                match search_from(srcdir, 0, m.file, m.display) {
                    Option::Some(p) => Option::Some(seq![src_name] + p),
                    Option::None => Option::None,
                }
            }
        },
    }
}

/// The display name of a resolved entry: the source identifier, extended by
/// the display label when one is present.
pub open spec fn spec_result_name(m: EntryModel) -> Seq<char> {
    if m.display.len() == 0 {
        spec_source_name(m.source)
    } else {
        spec_source_name(m.source) + seq![' '] + m.display
    }
}

/// The URL under which a resolved path is served: the configured host,
/// the fixed `audio` mount alias, then the path relative to the media root.
pub open spec fn spec_result_url(host: Seq<char>, p: Seq<Seq<char>>) -> Seq<char> {
    "http://"@ + host + "/audio"@ + slash_joined(p)
}

/// The full projection of one row: `None` when its file cannot be located.
pub open spec fn resolve_result(root: DirTree, host: Seq<char>, m: EntryModel) -> Option<
    AudioResultModel,
> {
    match resolve_path(root, m) {
        Option::None => Option::None,
        Option::Some(p) => Option::Some(
            AudioResultModel { name: spec_result_name(m), url: spec_result_url(host, p) },
        ),
    }
}

/// The projections of the rows whose files can be located, in row order.
pub open spec fn resolved_models(input: Seq<EntryModel>, root: DirTree, host: Seq<char>) -> Seq<
    AudioResultModel,
> {
    input.filter_map(|m: EntryModel| resolve_result(root, host, m))
}

/// A path accepted by the recursive search always ends with the file inside
/// a directory named after the display label, or inside the conventional
/// media folder — never inside another label's folder.
pub proof fn lemma_search_accepts_display_or_media(
    t: DirTree,
    i: int,
    file: Seq<char>,
    display: Seq<char>,
)
    ensures
        search_from(t, i, file, display) matches Option::Some(p) ==> p.len() >= 2 && p.last()
            == file && (p[p.len() - 2] == display || p[p.len() - 2] == "media"@),
    decreases t, t.subdirs@.len() - i,
{
    if 0 <= i < t.subdirs@.len() {
        let sub = t.subdirs@[i];
        if dir_has_file(sub, file) {
            if sub.name@ == display || sub.name@ == "media"@ {
            } else {
                lemma_search_accepts_display_or_media(t, i + 1, file, display);
            }
        } else {
            lemma_search_accepts_display_or_media(sub, 0, file, display);
            lemma_search_accepts_display_or_media(t, i + 1, file, display);
            match search_from(sub, 0, file, display) {
                Option::Some(p) => {
                    let q = seq![sub.name@] + p;
                    assert(q.last() == p.last());
                    assert(q[q.len() - 2] == p[p.len() - 2]);
                },
                Option::None => {},
            }
        }
    }
}

/// A resolved path always ends with the entry's file, placed in the media
/// folder, in the folder named after the entry's display label, or — only
/// when that label is empty — directly in the source's own folder.
pub proof fn lemma_resolved_parent_dir(root: DirTree, m: EntryModel)
    ensures
        resolve_path(root, m) matches Option::Some(p) ==> p.len() >= 2 && p.last() == m.file && (
        p[p.len() - 2] == "media"@ || p[p.len() - 2] == m.display || (m.display.len() == 0 && p[
            p.len() - 2
        ] == spec_source_name(m.source))),
{
    let src_name = spec_source_name(m.source);
    match find_subdir(root, src_name) {
        Option::Some(srcdir) => {
            lemma_search_accepts_display_or_media(srcdir, 0, m.file, m.display);
            match search_from(srcdir, 0, m.file, m.display) {
                Option::Some(p) => {
                    let q = seq![src_name] + p;
                    assert(q.last() == p.last());
                    assert(q[q.len() - 2] == p[p.len() - 2]);
                },
                Option::None => {},
            }
        },
        Option::None => {},
    }
}

/// Soundness of the recursive search: a returned path denotes a real file
/// below the searched directory.
pub proof fn lemma_search_sound(t: DirTree, i: int, file: Seq<char>, display: Seq<char>)
    ensures
        search_from(t, i, file, display) matches Option::Some(p) ==> path_in_tree(t, p),
    decreases t, t.subdirs@.len() - i,
{
    if 0 <= i < t.subdirs@.len() {
        let sub = t.subdirs@[i];
        if dir_has_file(sub, file) {
            if sub.name@ == display || sub.name@ == "media"@ {
                let p = seq![sub.name@, file];
                assert(p.drop_first() =~= seq![file]);
                assert(path_in_tree(sub, p.drop_first()));
            } else {
                lemma_search_sound(t, i + 1, file, display);
            }
        } else {
            lemma_search_sound(sub, 0, file, display);
            lemma_search_sound(t, i + 1, file, display);
            match search_from(sub, 0, file, display) {
                Option::Some(p) => {
                    let q = seq![sub.name@] + p;
                    assert(q.drop_first() =~= p);
                    assert(path_in_tree(sub, q.drop_first()));
                },
                Option::None => {},
            }
        }
    }
}

/// Soundness of resolution: a resolved path denotes a real file below the
/// media root.
pub proof fn lemma_resolve_sound(root: DirTree, m: EntryModel)
    ensures
        resolve_path(root, m) matches Option::Some(p) ==> path_in_tree(root, p),
{
    let src_name = spec_source_name(m.source);
    match find_subdir(root, src_name) {
        Option::Some(srcdir) => {
            lemma_find_subdir_is_member(root, src_name, 0);
            if find_subdir(srcdir, "media"@) matches Option::Some(md) && dir_has_file(
                md,
                m.file,
            ) {
                let p = seq![src_name, "media"@, m.file];
                let rest = p.drop_first();
                assert(rest =~= seq!["media"@, m.file]);
                assert(rest.drop_first() =~= seq![m.file]);
                match find_subdir(srcdir, "media"@) {
                    Option::Some(md2) => {
                        lemma_find_subdir_is_member(srcdir, "media"@, 0);
                        let w = choose|i: int|
                            0 <= i < srcdir.subdirs@.len() && #[trigger] srcdir.subdirs@[i] == md2
                                && md2.name@ == "media"@;
                        assert(path_in_tree(srcdir.subdirs@[w], rest.drop_first()));
                        assert(path_in_tree(srcdir, rest));
                    },
                    Option::None => {},
                }
            } else if m.display.len() == 0 && dir_has_file(srcdir, m.file) {
                let p = seq![src_name, m.file];
                assert(p.drop_first() =~= seq![m.file]);
                assert(path_in_tree(srcdir, p.drop_first()));
            } else if m.display.len() > 0 && (find_subdir(srcdir, m.display) matches Option::Some(
                dd,
            ) && dir_has_file(dd, m.file)) {
                let p = seq![src_name, m.display, m.file];
                let rest = p.drop_first();
                assert(rest =~= seq![m.display, m.file]);
                assert(rest.drop_first() =~= seq![m.file]);
                match find_subdir(srcdir, m.display) {
                    Option::Some(dd2) => {
                        lemma_find_subdir_is_member(srcdir, m.display, 0);
                        let w = choose|i: int|
                            0 <= i < srcdir.subdirs@.len() && #[trigger] srcdir.subdirs@[i] == dd2
                                && dd2.name@ == m.display;
                        assert(path_in_tree(srcdir.subdirs@[w], rest.drop_first()));
                        assert(path_in_tree(srcdir, rest));
                    },
                    Option::None => {},
                }
            } else {
                lemma_search_sound(srcdir, 0, m.file, m.display);
                match search_from(srcdir, 0, m.file, m.display) {
                    Option::Some(p) => {
                        let q = seq![src_name] + p;
                        assert(q.drop_first() =~= p);
                        assert(q.len() >= 2);
                        assert(path_in_tree(srcdir, q.drop_first()));
                    },
                    Option::None => {},
                }
            }
        },
        Option::None => {},
    }
}

/// The conventional layout is always honoured: when the source's `media`
/// folder holds the entry's file, resolution returns exactly that location.
pub proof fn lemma_media_location_resolves(root: DirTree, m: EntryModel)
    requires
        find_subdir(root, spec_source_name(m.source)) matches Option::Some(srcdir) && (
        find_subdir(srcdir, "media"@) matches Option::Some(md) && dir_has_file(md, m.file)),
    ensures
        resolve_path(root, m) == Option::Some(
            seq![spec_source_name(m.source), "media"@, m.file],
        ),
{
}

fn search_step(t: &DirTree, i: usize, file: &str, display: &str) -> (r: Option<Vec<String>>)
    ensures
        match r {
            Option::Some(p) => search_from(*t, i as int, file@, display@) == Option::Some(
                path_view(p@),
            ),
            Option::None => search_from(*t, i as int, file@, display@) is None,
        },
    decreases *t, t.subdirs@.len() - i,
{
    if i >= t.subdirs.len() {
        return Option::None;
    }
    let sub = &t.subdirs[i];
    if dir_has_file_exec(sub, file) {
        if str_eq(sub.name.as_str(), display) || str_eq(sub.name.as_str(), "media") {
            let mut p: Vec<String> = Vec::new();
            p.push(sub.name.clone());
            p.push(file.to_owned());
            proof {
                assert(path_view(p@) =~= seq![sub.name@, file@]);
            }
            Option::Some(p)
        } else {
            search_step(t, i + 1, file, display)
        }
    } else {
        let deeper = search_step(sub, 0, file, display);
        match deeper {
            Option::Some(p) => {
                let mut p = p;
                let ghost p0 = p@;
                p.insert(0, sub.name.clone());
                proof {
                    assert(path_view(p@) =~= seq![sub.name@] + path_view(p0));
                }
                Option::Some(p)
            },
            Option::None => search_step(t, i + 1, file, display),
        }
    }
}

impl DatabaseEntry {
    /// Recursively searches `dir` for this entry's audio file, accepting a
    /// match only inside a folder named after the entry's display label or
    /// inside the conventional media folder, and descending one level where
    /// the file is absent.  Returns the path components below `dir` down to
    /// the file.
    pub fn find_audio_file(&self, dir: &DirTree) -> (r: Result<Vec<String>, AudioFileError>)
        ensures
            match r {
                Result::Ok(p) => search_from(*dir, 0, self@.file, self@.display) == Option::Some(
                    path_view(p@),
                ),
                Result::Err(e) => search_from(*dir, 0, self@.file, self@.display) is None && (match e {
                    AudioFileError::MissingAudioFile { entry, dir: d } => entry@ == self@ && d@
                        == dir.name@,
                }),
            },
    {
        match search_step(dir, 0, self.file.as_str(), self.display.as_str()) {
            Option::Some(p) => Result::Ok(p),
            Option::None => Result::Err(
                AudioFileError::MissingAudioFile { entry: self.clone(), dir: dir.name.clone() },
            ),
        }
    }

    /// Locates this entry's file under the media root and projects it into
    /// a `{name, url}` pair, or reports that no tier could locate it.
    pub fn to_audio_result(&self, root: &DirTree, host: &str) -> (r: Result<
        AudioResult,
        AudioFileError,
    >)
        ensures
            match r {
                Result::Ok(a) => resolve_result(*root, host@, self@) == Option::Some(a@),
                Result::Err(e) => resolve_result(*root, host@, self@) is None && (match e {
                    AudioFileError::MissingAudioFile { entry, dir: d } => entry@ == self@ && d@
                        == root.name@ + seq!['/'] + spec_source_name(self@.source),
                }),
            },
    {
        let src_name = self.source.name();
        let srcdir_opt = find_subdir_exec(root, src_name);
        let srcdir = match srcdir_opt {
            Option::Some(d) => d,
            Option::None => {
                return Result::Err(self.missing_file_error(root));
            },
        };
        if let Option::Some(md) = find_subdir_exec(srcdir, "media") {
            if dir_has_file_exec(md, self.file.as_str()) {
                let mut p: Vec<String> = Vec::new();
                p.push(src_name.to_owned());
                p.push("media".to_owned());
                p.push(self.file.clone());
                proof {
                    assert(path_view(p@) =~= seq![
                        spec_source_name(self@.source),
                        "media"@,
                        self@.file,
                    ]);
                }
                return Result::Ok(self.build_result(host, &p));
            }
        }
        if self.display.as_str().is_empty() {
            if dir_has_file_exec(srcdir, self.file.as_str()) {
                let mut p: Vec<String> = Vec::new();
                p.push(src_name.to_owned());
                p.push(self.file.clone());
                proof {
                    assert(path_view(p@) =~= seq![spec_source_name(self@.source), self@.file]);
                }
                return Result::Ok(self.build_result(host, &p));
            }
        } else {
            if let Option::Some(dd) = find_subdir_exec(srcdir, self.display.as_str()) {
                if dir_has_file_exec(dd, self.file.as_str()) {
                    let mut p: Vec<String> = Vec::new();
                    p.push(src_name.to_owned());
                    p.push(self.display.clone());
                    p.push(self.file.clone());
                    proof {
                        assert(path_view(p@) =~= seq![
                            spec_source_name(self@.source),
                            self@.display,
                            self@.file,
                        ]);
                    }
                    return Result::Ok(self.build_result(host, &p));
                }
            }
        }
        match search_step(srcdir, 0, self.file.as_str(), self.display.as_str()) {
            Option::Some(p) => {
                let mut p = p;
                let ghost p0 = p@;
                p.insert(0, src_name.to_owned());
                proof {
                    assert(path_view(p@) =~= seq![spec_source_name(self@.source)] + path_view(p0));
                }
                Result::Ok(self.build_result(host, &p))
            },
            Option::None => Result::Err(self.missing_file_error(root)),
        }
    }

    /// The typed resolution failure for this entry under `root`.
    fn missing_file_error(&self, root: &DirTree) -> (e: AudioFileError)
        ensures
            match e {
                AudioFileError::MissingAudioFile { entry, dir: d } => entry@ == self@ && d@
                    == root.name@ + seq!['/'] + spec_source_name(self@.source),
            },
    {
        let mut d = root.name.clone();
        d.append("/");
        d.append(self.source.name());
        proof {
            reveal_strlit("/");
            assert(d@ =~= root.name@ + seq!['/'] + spec_source_name(self@.source));
        }
        AudioFileError::MissingAudioFile { entry: self.clone(), dir: d }
    }

    /// The `{name, url}` projection of this entry for the resolved path `p`.
    fn build_result(&self, host: &str, p: &Vec<String>) -> (a: AudioResult)
        ensures
            a@.name == spec_result_name(self@),
            a@.url == spec_result_url(host@, path_view(p@)),
    {
        let name = if self.display.as_str().is_empty() {
            self.source.name().to_owned()
        } else {
            let mut n = self.source.name().to_owned();
            n.append(" ");
            n.append(self.display.as_str());
            proof {
                reveal_strlit(" ");
                assert(n@ =~= spec_source_name(self@.source) + seq![' '] + self@.display);
            }
            n
        };
        let mut url = "http://".to_owned();
        url.append(host);
        url.append("/audio");
        let ghost base = "http://"@ + host@ + "/audio"@;
        proof {
            assert(url@ =~= base + slash_joined(path_view(p@.take(0))));
        }
        let n_comps = p.len();
        let mut j: usize = 0;
        while j < n_comps
            invariant
                n_comps == p@.len(),
                0 <= j <= n_comps,
                url@ == base + slash_joined(path_view(p@.take(j as int))),
            decreases n_comps - j,
        {
            url.append("/");
            url.append(p[j].as_str());
            proof {
                reveal_strlit("/");
                assert(path_view(p@.take(j + 1)).drop_last() =~= path_view(p@.take(j as int)));
                assert(path_view(p@.take(j + 1)).last() == p@[j as int]@);
                assert(url@ =~= base + slash_joined(path_view(p@.take(j + 1))));
            }
            j += 1;
        }
        proof {
            assert(p@.take(n_comps as int) =~= p@);
        }
        AudioResult { name, url }
    }
}

impl AudioResult {
    /// Projects every entry whose file can be located, in order, dropping
    /// the rest.
    ///
    /// Relies on rayon's parallel `filter_map` over a slice and its
    /// order-preserving `collect` into a `Vec`: each entry is mapped by the
    /// verified per-entry resolution, and the surviving results keep the
    /// entries' order.
    #[verifier::external_body]
    pub fn create_list(entries: &[DatabaseEntry], root: &DirTree, host: &str) -> (r: Vec<
        AudioResult,
    >)
        ensures
            result_models(r@) == resolved_models(entry_models(entries@), *root, host@),
    {
        entries.par_iter().filter_map(|e| e.to_audio_result(root, host).ok()).collect()
    }
}

} // verus!
