//! An in-memory file tree.
//!
//! The resolution engine decides which candidate file backs a module
//! declaration purely by asking which paths exist and what text they
//! hold. Both questions are answered by a [`Vfs`]: a finite list of
//! files, each a normalized component path with its text. Callers that
//! work against a real filesystem load the reachable files into a
//! `Vfs` first; tests build one directly.

use crate::path::{is_strict_prefix, norm_seq, split_rel, FilePath};
use vstd::prelude::*;
use vstd::string::StringExecFns;

verus! {

/// One file: where it is and what it holds.
pub struct VfsFile {
    /// The file's path, stored in normalized form.
    pub path: FilePath,
    /// The file's text.
    pub text: String,
}

/// A finite in-memory file tree.
pub struct Vfs {
    files: Vec<VfsFile>,
}

impl View for Vfs {
    type V = Seq<VfsFile>;

    closed spec fn view(&self) -> Seq<VfsFile> {
        self.files@
    }
}

/// The text of the first file stored at `p`, if any.
pub open spec fn vfs_lookup(files: Seq<VfsFile>, p: Seq<Seq<char>>) -> Option<Seq<char>>
    decreases files.len(),
{
    if files.len() == 0 {
        None
    } else if files[0].path@ == p {
        Some(files[0].text@)
    } else {
        vfs_lookup(files.skip(1), p)
    }
}

/// Whether some file is stored at `p`.
pub open spec fn vfs_file_exists(files: Seq<VfsFile>, p: Seq<Seq<char>>) -> bool {
    exists|i: int| 0 <= i < files.len() && #[trigger] files[i].path@ == p
}

/// Whether `p` names a directory: some stored file lies strictly below it.
pub open spec fn vfs_dir_exists(files: Seq<VfsFile>, p: Seq<Seq<char>>) -> bool {
    exists|i: int| 0 <= i < files.len() && is_strict_prefix(p, #[trigger] files[i].path@)
}

/// Whether `p` exists in the tree, as a file or as a directory.
pub open spec fn vfs_exists(files: Seq<VfsFile>, p: Seq<Seq<char>>) -> bool {
    vfs_file_exists(files, p) || vfs_dir_exists(files, p)
}

/// The set of stored file paths.
pub open spec fn vfs_path_set(files: Seq<VfsFile>) -> Set<Seq<Seq<char>>> {
    files.map(|i: int, f: VfsFile| f.path@).to_set()
}

/// A successful lookup means the path is a stored file path.
pub proof fn lemma_lookup_exists(files: Seq<VfsFile>, p: Seq<Seq<char>>)
    requires
        vfs_lookup(files, p) is Some,
    ensures
        vfs_file_exists(files, p),
    decreases files.len(),
{
    if files.len() == 0 {
    } else if files[0].path@ == p {
        assert(files[0].path@ == p);
    } else {
        lemma_lookup_exists(files.skip(1), p);
        let i = choose|i: int| 0 <= i < files.skip(1).len() && #[trigger] files.skip(1)[i].path@ == p;
        assert(files[i + 1].path@ == p);
    }
}

/// A stored file path is in the path set.
pub proof fn lemma_file_exists_in_path_set(files: Seq<VfsFile>, p: Seq<Seq<char>>)
    requires
        vfs_file_exists(files, p),
    ensures
        vfs_path_set(files).contains(p),
{
    let i = choose|i: int| 0 <= i < files.len() && #[trigger] files[i].path@ == p;
    let mapped = files.map(|j: int, f: VfsFile| f.path@);
    assert(mapped[i] == p);
    assert(mapped.contains(p));
}

/// The path set is finite and no larger than the file list.
pub proof fn lemma_path_set_finite(files: Seq<VfsFile>)
    ensures
        vfs_path_set(files).finite(),
        vfs_path_set(files).len() <= files.len(),
{
    let mapped = files.map(|j: int, f: VfsFile| f.path@);
    broadcast use vstd::seq_lib::seq_to_set_is_finite;

    mapped.lemma_cardinality_of_set();
}

impl Vfs {
    /// An empty file tree.
    pub fn new() -> (r: Vfs)
        ensures
            r@ == Seq::<VfsFile>::empty(),
    {
        let files: Vec<VfsFile> = Vec::new();
        Vfs { files }
    }

    /// Add a file at the given relative path string; the stored path
    /// is the normalized split of the string. An earlier file at the
    /// same path shadows a later one.
    pub fn add_file(&mut self, path: &str, text: &str)
        ensures
            final(self)@.len() == old(self)@.len() + 1,
            final(self)@.take(old(self)@.len() as int) == old(self)@,
            final(self)@.last().path@ == norm_seq(split_rel(path@)),
            final(self)@.last().text@ == text@,
    {
        let p = FilePath::from_str_path(path);
        let np = p.normalize();
        let t = String::from_str(text);
        self.files.push(VfsFile { path: np, text: t });
        proof {
            assert(self@.take(old(self)@.len() as int) =~= old(self)@);
        }
    }

    /// Add a file at the given path; the stored path is its
    /// normalization. An earlier file at the same path shadows a
    /// later one.
    pub fn add_path_file(&mut self, path: &FilePath, text: String)
        ensures
            final(self)@.len() == old(self)@.len() + 1,
            final(self)@.take(old(self)@.len() as int) == old(self)@,
            final(self)@.last().path@ == norm_seq(path@),
            final(self)@.last().text@ == text@,
    {
        let np = path.normalize();
        self.files.push(VfsFile { path: np, text });
        proof {
            assert(self@.take(old(self)@.len() as int) =~= old(self)@);
        }
    }

    /// The text of the file stored at the normalization of `p`, if any.
    pub fn read(&self, p: &FilePath) -> (r: Option<&String>)
        ensures
            (r matches Some(t) ==> vfs_lookup(self@, norm_seq(p@)) == Some(t@)),
            (r is None ==> vfs_lookup(self@, norm_seq(p@)) is None),
    {
        let np = p.normalize();
        let n = self.files.len();
        let mut i: usize = 0;
        proof {
            assert(self@.skip(0) =~= self@);
        }
        while i < n
            invariant
                n == self.files.len(),
                i <= n,
                np@ == norm_seq(p@),
                vfs_lookup(self@, np@) == vfs_lookup(self@.skip(i as int), np@),
            decreases n - i,
        {
            let ghost s_i = self@.skip(i as int);
            proof {
                assert(s_i[0] == self@[i as int]);
                assert(s_i.skip(1) =~= self@.skip(i as int + 1));
            }
            if self.files[i].path.eq_path(&np) {
                return Some(&self.files[i].text);
            }
            i = i + 1;
        }
        proof {
            assert(self@.skip(n as int).len() == 0);
        }
        None
    }

    /// Whether the normalization of `p` exists in the tree, as a file
    /// or as a directory.
    pub fn path_exists(&self, p: &FilePath) -> (r: bool)
        ensures
            r == vfs_exists(self@, norm_seq(p@)),
    {
        let np = p.normalize();
        let n = self.files.len();
        let mut i: usize = 0;
        while i < n
            invariant
                n == self.files.len(),
                i <= n,
                np@ == norm_seq(p@),
                forall|j: int|
                    0 <= j < i ==> #[trigger] self@[j].path@ != np@ && !is_strict_prefix(
                        np@,
                        self@[j].path@,
                    ),
            decreases n - i,
        {
            if self.files[i].path.eq_path(&np) {
                proof {
                    assert(self@[i as int].path@ == np@);
                }
                return true;
            }
            if np.is_strict_prefix_of(&self.files[i].path) {
                proof {
                    assert(is_strict_prefix(np@, self@[i as int].path@));
                }
                return true;
            }
            i = i + 1;
        }
        proof {
            if vfs_file_exists(self@, np@) {
                let j = choose|j: int| 0 <= j < self@.len() && #[trigger] self@[j].path@ == np@;
                assert(false);
            }
            if vfs_dir_exists(self@, np@) {
                let j = choose|j: int|
                    0 <= j < self@.len() && is_strict_prefix(np@, #[trigger] self@[j].path@);
                assert(false);
            }
        }
        false
    }
}

} // verus!
