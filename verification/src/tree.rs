//! An in-memory picture of the media directory tree.
//!
//! The resolver never touches the filesystem; the surrounding process walks
//! the media root once and hands the library this value.  Resolution is then
//! ordinary verified code over the tree.

use vstd::prelude::*;

use crate::text::str_eq;

verus! {

/// One directory of the media tree: its name, the file names directly in
/// it, and its subdirectories, in the order the walk delivered them.
pub struct DirTree {
    /// Directory name.  For the root this is the media-root path itself.
    pub name: String,
    /// Names of the files directly inside this directory.
    pub files: Vec<String>,
    /// Immediate subdirectories.
    pub subdirs: Vec<DirTree>,
}

/// Whether directory `t` directly holds a file named `f`.
pub open spec fn dir_has_file(t: DirTree, f: Seq<char>) -> bool {
    exists|i: int| 0 <= i < t.files@.len() && #[trigger] t.files@[i]@ == f
}

/// The first immediate subdirectory of `t` named `name`, searching from
/// position `i` on.
pub open spec fn find_subdir_from(t: DirTree, name: Seq<char>, i: int) -> Option<DirTree>
    decreases t.subdirs@.len() - i,
{
    if i < 0 || i >= t.subdirs@.len() {
        Option::None
    } else if t.subdirs@[i].name@ == name {
        Option::Some(t.subdirs@[i])
    } else {
        find_subdir_from(t, name, i + 1)
    }
}

/// The first immediate subdirectory of `t` named `name`.
pub open spec fn find_subdir(t: DirTree, name: Seq<char>) -> Option<DirTree> {
    find_subdir_from(t, name, 0)
}

/// The recursive third-tier search, mirroring one walk position: subdirectory
/// `i` of `t` and onward.  For each subdirectory that directly holds `file`,
/// the match is accepted only when the subdirectory is named after the
/// entry's display label or is the conventional media folder; a subdirectory
/// that does not hold the file is searched one level deeper.  The first
/// accepted match wins, and the returned path lists the directory names from
/// below `t` down to the file itself.
pub open spec fn search_from(t: DirTree, i: int, file: Seq<char>, display: Seq<char>) -> Option<
    Seq<Seq<char>>,
>
    decreases t, t.subdirs@.len() - i,
{
    if i < 0 || i >= t.subdirs@.len() {
        Option::None
    } else {
        let sub = t.subdirs@[i];
        if dir_has_file(sub, file) {
            if sub.name@ == display || sub.name@ == "media"@ {
                Option::Some(seq![sub.name@, file])
            } else {
                search_from(t, i + 1, file, display)
            }
        } else {
            match search_from(sub, 0, file, display) {
                Option::Some(p) => Option::Some(seq![sub.name@] + p),
                Option::None => search_from(t, i + 1, file, display),
            }
        }
    }
}

/// Whether the component path `p` denotes a real file below `t`: each
/// component names some subdirectory of the previous one, and the last
/// component is a file directly inside the directory reached.
pub open spec fn path_in_tree(t: DirTree, p: Seq<Seq<char>>) -> bool
    decreases t,
{
    if p.len() == 0 {
        false
    } else if p.len() == 1 {
        dir_has_file(t, p[0])
    } else {
        exists|i: int|
            0 <= i < t.subdirs@.len() && (#[trigger] t.subdirs@[i]).name@ == p[0] && path_in_tree(
                t.subdirs@[i],
                p.drop_first(),
            )
    }
}

/// A directory found by name is one of the subdirectories, under that name.
pub proof fn lemma_find_subdir_is_member(t: DirTree, name: Seq<char>, j: int)
    ensures
        find_subdir_from(t, name, j) matches Option::Some(d) ==> exists|i: int|
            0 <= i < t.subdirs@.len() && #[trigger] t.subdirs@[i] == d && d.name@ == name,
    decreases t.subdirs@.len() - j,
{
    if 0 <= j < t.subdirs@.len() {
        if t.subdirs@[j].name@ == name {
            assert(t.subdirs@[j] == t.subdirs@[j]);
        } else {
            lemma_find_subdir_is_member(t, name, j + 1);
        }
    }
}

/// Whether directory `t` directly holds a file named `f`.
pub fn dir_has_file_exec(t: &DirTree, f: &str) -> (r: bool)
    ensures
        r == dir_has_file(*t, f@),
{
    let n = t.files.len();
    let mut i: usize = 0;
    while i < n
        invariant
            n == t.files@.len(),
            0 <= i <= n,
            forall|j: int| 0 <= j < i ==> #[trigger] t.files@[j]@ != f@,
        decreases n - i,
    {
        if str_eq(t.files[i].as_str(), f) {
            return true;
        }
        i += 1;
    }
    false
}

/// The first immediate subdirectory of `t` named `name`.
pub fn find_subdir_exec<'a>(t: &'a DirTree, name: &str) -> (r: Option<&'a DirTree>)
    ensures
        match r {
            Option::Some(d) => find_subdir(*t, name@) == Option::Some(*d),
            Option::None => find_subdir(*t, name@) is None,
        },
{
    let n = t.subdirs.len();
    let mut i: usize = 0;
    while i < n
        invariant
            n == t.subdirs@.len(),
            0 <= i <= n,
            find_subdir_from(*t, name@, 0) == find_subdir_from(*t, name@, i as int),
        decreases n - i,
    {
        if str_eq(t.subdirs[i].name.as_str(), name) {
            return Option::Some(&t.subdirs[i]);
        }
        i += 1;
    }
    Option::None
}

} // verus!
