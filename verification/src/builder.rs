//! Building the complete file set of one target.
//!
//! Starting from the target's entry file, each reachable file is read
//! from the in-memory tree, its module declarations are extracted, and
//! every file-backed declaration is resolved and visited in turn. A
//! path already in the accumulator is never revisited: that bounds the
//! recursion and is the sole deduplication mechanism. Any failure in
//! any reachable file aborts the whole build; there is no partial
//! result.

use crate::parser::{
    extract_modules, extract_spec, lemma_extract_nonempty, mods_view, ComponentView,
};
use crate::path::{lemma_norm_norm, norm_seq, FilePath};
use crate::resolve::resolve_spec;
use crate::syntax::{parse_mod_events, parsed_events};
use crate::vfs::{
    lemma_file_exists_in_path_set, lemma_lookup_exists, lemma_path_set_finite, vfs_lookup,
    vfs_path_set, Vfs, VfsFile,
};
use crate::{Error, ErrorView, Target};
use vstd::prelude::*;
use vstd::set::axiom_set_remove_len;
use vstd::set_lib::lemma_len_subset;

verus! {

/// The mathematical value of a path list.
pub open spec fn paths_view(paths: Seq<FilePath>) -> Seq<Seq<Seq<char>>> {
    paths.map(|i: int, p: FilePath| p@)
}

/// The set of files belonging to one target. Built once per target;
/// the order of `paths` is the order of first insertion and carries no
/// meaning.
#[derive(Debug)]
pub struct FileSet {
    /// The member paths, each exactly once.
    pub paths: Vec<FilePath>,
}

impl View for FileSet {
    type V = Set<Seq<Seq<char>>>;

    open spec fn view(&self) -> Set<Seq<Seq<char>>> {
        paths_view(self.paths@).to_set()
    }
}

impl FileSet {
    /// Each member path appears exactly once.
    pub open spec fn wf(self) -> bool {
        paths_view(self.paths@).no_duplicates()
    }

    /// The empty file set.
    pub fn new() -> (r: FileSet)
        ensures
            r@ == Set::<Seq<Seq<char>>>::empty(),
            r.wf(),
            r.paths@.len() == 0,
    {
        let paths: Vec<FilePath> = Vec::new();
        let r = FileSet { paths };
        proof {
            assert(r@ =~= Set::<Seq<Seq<char>>>::empty());
        }
        r
    }

    /// Whether the set holds this exact path.
    pub fn contains_path(&self, p: &FilePath) -> (r: bool)
        ensures
            r == self@.contains(p@),
    {
        let n = self.paths.len();
        let mut i: usize = 0;
        while i < n
            invariant
                n == self.paths@.len(),
                i <= n,
                forall|j: int| 0 <= j < i ==> paths_view(self.paths@)[j] != p@,
            decreases n - i,
        {
            if self.paths[i].eq_path(p) {
                proof {
                    assert(paths_view(self.paths@)[i as int] == p@);
                    assert(paths_view(self.paths@).contains(p@));
                }
                return true;
            }
            proof {
                assert(paths_view(self.paths@)[i as int] == self.paths@[i as int]@);
            }
            i = i + 1;
        }
        proof {
            if paths_view(self.paths@).contains(p@) {
                let j = choose|j: int|
                    0 <= j < paths_view(self.paths@).len() && paths_view(self.paths@)[j] == p@;
                assert(false);
            }
        }
        false
    }

    /// Add a path that is not yet a member.
    pub(crate) fn insert_new(&mut self, p: FilePath)
        requires
            old(self).wf(),
            !old(self)@.contains(p@),
        ensures
            final(self).wf(),
            final(self)@ == old(self)@.insert(p@),
            final(self).paths@ == old(self).paths@.push(p),
    {
        let ghost pre = self.paths@;
        self.paths.push(p);
        proof {
            let prev = paths_view(pre);
            let cur = paths_view(self.paths@);
            assert(prev.len() == pre.len());
            assert forall|j: int| 0 <= j < cur.len() implies cur[j] == (if j < pre.len() {
                prev[j]
            } else {
                p@
            }) by {
                assert(cur[j] == self.paths@[j]@);
                if j < pre.len() {
                    assert(self.paths@[j] == pre[j]);
                    assert(prev[j] == pre[j]@);
                }
            }
            assert(cur =~= prev.push(p@));
            assert(!prev.contains(p@));
            assert(cur.no_duplicates());
            assert forall|x: Seq<Seq<char>>| cur.to_set().contains(x) <==> old(self)@.insert(
                p@,
            ).contains(x) by {
                if cur.to_set().contains(x) {
                    let j = choose|j: int| 0 <= j < cur.len() && cur[j] == x;
                    if j < pre.len() {
                        assert(prev.contains(x));
                    }
                }
                if old(self)@.insert(p@).contains(x) {
                    if x == p@ {
                        assert(cur[cur.len() - 1] == x);
                        assert(cur.contains(x));
                    } else {
                        assert(prev.contains(x));
                        let j = choose|j: int| 0 <= j < prev.len() && prev[j] == x;
                        assert(cur[j] == x);
                        assert(cur.contains(x));
                    }
                }
            }
            assert(final(self)@ =~= old(self)@.insert(p@));
        }
    }

    /// The number of member paths.
    pub fn len(&self) -> (r: usize)
        ensures
            r == self.paths@.len(),
    {
        self.paths.len()
    }
}

/// The file set reached from `path` with `acc` already visited: `path`
/// is normalized and joined to the accumulator, its text is read and
/// parsed, and each of its file-backed declarations is resolved and
/// visited in declaration order. The first failure anywhere is the
/// result.
pub open spec fn visit_spec(
    files: Seq<VfsFile>,
    root: Seq<Seq<char>>,
    path: Seq<Seq<char>>,
    acc: Set<Seq<Seq<char>>>,
) -> Result<Set<Seq<Seq<char>>>, ErrorView>
    decreases vfs_path_set(files).difference(acc).len(), 0int, 0int,
{
    let np = norm_seq(path);
    if acc.contains(np) {
        Ok(acc)
    } else {
        match vfs_lookup(files, np) {
            None => Err(ErrorView::FileError(np)),
            Some(text) => match parsed_events(text) {
                None => Err(ErrorView::ParseError),
                Some(events) => {
                    proof {
                        crate::path::lemma_norm_norm(path);
                        lemma_path_set_finite(files);
                        lemma_lookup_exists(files, np);
                        lemma_file_exists_in_path_set(files, np);
                        lemma_len_subset(
                            vfs_path_set(files).difference(acc),
                            vfs_path_set(files),
                        );
                        axiom_set_remove_len(vfs_path_set(files).difference(acc), np);
                        assert(vfs_path_set(files).difference(acc.insert(np)) =~= vfs_path_set(
                            files,
                        ).difference(acc).remove(np));
                        assert(vfs_path_set(files).difference(acc).contains(np));
                    }
                    fold_spec(files, root, np, extract_spec(events), 0, acc.insert(np))
                },
            },
        }
    }
}

/// The file set reached from the declarations `mods[i..]` of the file
/// `src`, with `acc` already visited: each declaration is resolved,
/// its canonical path is skipped if already visited and recursively
/// visited otherwise.
pub open spec fn fold_spec(
    files: Seq<VfsFile>,
    root: Seq<Seq<char>>,
    src: Seq<Seq<char>>,
    mods: Seq<Seq<ComponentView>>,
    i: int,
    acc: Set<Seq<Seq<char>>>,
) -> Result<Set<Seq<Seq<char>>>, ErrorView>
    decreases vfs_path_set(files).difference(acc).len(), 1int, mods.len() - i,
{
    if i < 0 || i >= mods.len() {
        Ok(acc)
    } else {
        match resolve_spec(files, root, src, mods[i]) {
            Err(e) => Err(e@),
            Ok(rp) => {
                let cp = norm_seq(rp);
                if acc.contains(cp) {
                    fold_spec(files, root, src, mods, i + 1, acc)
                } else {
                    match visit_spec(files, root, cp, acc) {
                        Err(e) => Err(e),
                        Ok(acc2) => {
                            let acc3 = acc2.union(acc.insert(cp));
                            proof {
                                lemma_path_set_finite(files);
                                lemma_len_subset(
                                    vfs_path_set(files).difference(acc),
                                    vfs_path_set(files),
                                );
                                lemma_len_subset(
                                    vfs_path_set(files).difference(acc3),
                                    vfs_path_set(files).difference(acc),
                                );
                            }
                            fold_spec(files, root, src, mods, i + 1, acc3)
                        },
                    }
                }
            },
        }
    }
}

/// A successful visit only ever grows the accumulator, and holds the
/// visited path.
pub proof fn lemma_visit_mono(
    files: Seq<VfsFile>,
    root: Seq<Seq<char>>,
    path: Seq<Seq<char>>,
    acc: Set<Seq<Seq<char>>>,
)
    ensures
        visit_spec(files, root, path, acc) matches Ok(a2) ==> acc.insert(
            norm_seq(path),
        ).subset_of(a2),
    decreases vfs_path_set(files).difference(acc).len(), 0int, 0int,
{
    let np = norm_seq(path);
    if acc.contains(np) {
        assert(acc.insert(np) =~= acc);
    } else {
        match vfs_lookup(files, np) {
            None => {},
            Some(text) => match parsed_events(text) {
                None => {},
                Some(events) => {
                    lemma_path_set_finite(files);
                    lemma_lookup_exists(files, np);
                    lemma_file_exists_in_path_set(files, np);
                    lemma_len_subset(vfs_path_set(files).difference(acc), vfs_path_set(files));
                    axiom_set_remove_len(vfs_path_set(files).difference(acc), np);
                    assert(vfs_path_set(files).difference(acc.insert(np)) =~= vfs_path_set(
                        files,
                    ).difference(acc).remove(np));
                    assert(vfs_path_set(files).difference(acc).contains(np));
                    lemma_fold_mono(files, root, np, extract_spec(events), 0, acc.insert(np));
                    crate::path::lemma_norm_norm(path);
                },
            },
        }
    }
}

/// A successful fold only ever grows the accumulator.
pub proof fn lemma_fold_mono(
    files: Seq<VfsFile>,
    root: Seq<Seq<char>>,
    src: Seq<Seq<char>>,
    mods: Seq<Seq<ComponentView>>,
    i: int,
    acc: Set<Seq<Seq<char>>>,
)
    ensures
        fold_spec(files, root, src, mods, i, acc) matches Ok(a2) ==> acc.subset_of(a2),
    decreases vfs_path_set(files).difference(acc).len(), 1int, mods.len() - i,
{
    if i < 0 || i >= mods.len() {
    } else {
        match resolve_spec(files, root, src, mods[i]) {
            Err(_) => {},
            Ok(rp) => {
                let cp = norm_seq(rp);
                if acc.contains(cp) {
                    lemma_fold_mono(files, root, src, mods, i + 1, acc);
                } else {
                    match visit_spec(files, root, cp, acc) {
                        Err(_) => {},
                        Ok(acc2) => {
                            let acc3 = acc2.union(acc.insert(cp));
                            lemma_path_set_finite(files);
                            lemma_len_subset(
                                vfs_path_set(files).difference(acc),
                                vfs_path_set(files),
                            );
                            lemma_len_subset(
                                vfs_path_set(files).difference(acc3),
                                vfs_path_set(files).difference(acc),
                            );
                            lemma_fold_mono(files, root, src, mods, i + 1, acc3);
                        },
                    }
                }
            },
        }
    }
}

/// Visit `path` and everything reachable from it, adding what is found
/// to `acc`; `root_path` is the target's entry file and `fs` the file
/// tree. A path already in `acc` is not revisited. The first failure
/// in any reachable file aborts the build.
pub fn extract_crate_files(root_path: &FilePath, path: &FilePath, acc: &mut FileSet, fs: &Vfs) -> (r:
    Result<(), Error>)
    requires
        old(acc).wf(),
    ensures
        final(acc).wf(),
        old(acc)@.subset_of(final(acc)@),
        (r matches Ok(u) ==> visit_spec(fs@, root_path@, path@, old(acc)@) == Ok::<
            Set<Seq<Seq<char>>>,
            ErrorView,
        >(final(acc)@)),
        (r matches Err(e) ==> visit_spec(fs@, root_path@, path@, old(acc)@) == Err::<
            Set<Seq<Seq<char>>>,
            ErrorView,
        >(e@)),
    decreases vfs_path_set(fs@).difference(old(acc)@).len(),
{
    let np = path.normalize();
    proof {
        lemma_norm_norm(path@);
    }
    if acc.contains_path(&np) {
        return Ok(());
    }
    acc.insert_new(np.clone_path());
    let text = match fs.read(&np) {
        Some(t) => t,
        None => {
            return Err(Error::FileError(np));
        },
    };
    let events = match parse_mod_events(text.as_str()) {
        Some(es) => es,
        None => {
            return Err(Error::ParseError);
        },
    };
    let mods = extract_modules(&events);
    let ghost ms = extract_spec(events@);
    proof {
        lemma_extract_nonempty(events@, events@.len() as int);
        lemma_lookup_exists(fs@, np@);
        lemma_file_exists_in_path_set(fs@, np@);
    }
    let n = mods.len();
    let mut j: usize = 0;
    while j < n
        invariant
            n == mods@.len(),
            j <= n,
            acc.wf(),
            mods_view(mods@) == ms,
            np@ == norm_seq(path@),
            norm_seq(np@) == np@,
            !old(acc)@.contains(np@),
            acc@.contains(np@),
            old(acc)@.subset_of(acc@),
            vfs_path_set(fs@).contains(np@),
            forall|k: int| 0 <= k < ms.len() ==> #[trigger] ms[k].len() > 0,
            visit_spec(fs@, root_path@, path@, old(acc)@) == fold_spec(
                fs@,
                root_path@,
                np@,
                ms,
                j as int,
                acc@,
            ),
        decreases n - j,
    {
        proof {
            assert(mods_view(mods@)[j as int] == mods@[j as int]@);
            assert(ms[j as int].len() > 0);
        }
        let rp = match mods[j].resolve(root_path, &np, fs) {
            Ok(p) => p,
            Err(e) => {
                return Err(e);
            },
        };
        let cp = rp.normalize();
        proof {
            lemma_norm_norm(rp@);
        }
        if !acc.contains_path(&cp) {
            let ghost apre = acc@;
            proof {
                lemma_path_set_finite(fs@);
                lemma_len_subset(
                    vfs_path_set(fs@).difference(old(acc)@),
                    vfs_path_set(fs@),
                );
                axiom_set_remove_len(vfs_path_set(fs@).difference(old(acc)@), np@);
                assert(vfs_path_set(fs@).difference(old(acc)@).contains(np@));
                lemma_len_subset(
                    vfs_path_set(fs@).difference(acc@),
                    vfs_path_set(fs@).difference(old(acc)@).remove(np@),
                );
            }
            match extract_crate_files(root_path, &cp, acc, fs) {
                Ok(u) => {},
                Err(e) => {
                    return Err(e);
                },
            }
            proof {
                lemma_visit_mono(fs@, root_path@, cp@, apre);
                assert(acc@ =~= acc@.union(apre.insert(cp@)));
            }
        }
        j = j + 1;
    }
    Ok(())
}

/// All source files of the given target, from the given file tree.
/// The result is a deduplicated set holding the target's entry path
/// and every file transitively reachable from it through file-backed
/// declarations; the first failure in any reachable file is the
/// result instead.
pub fn get_target_files(target: &Target, fs: &Vfs) -> (r: Result<FileSet, Error>)
    ensures
        (r matches Ok(s) ==> s.wf() && visit_spec(
            fs@,
            norm_seq(target.path@),
            norm_seq(target.path@),
            Set::empty(),
        ) == Ok::<Set<Seq<Seq<char>>>, ErrorView>(s@) && s@.contains(norm_seq(target.path@))),
        (r matches Err(e) ==> visit_spec(
            fs@,
            norm_seq(target.path@),
            norm_seq(target.path@),
            Set::empty(),
        ) == Err::<Set<Seq<Seq<char>>>, ErrorView>(e@)),
{
    let root = target.path.normalize();
    let mut acc = FileSet::new();
    match extract_crate_files(&root, &root, &mut acc, fs) {
        Ok(u) => {
            proof {
                lemma_visit_mono(fs@, root@, root@, Set::empty());
                lemma_norm_norm(target.path@);
            }
            Ok(acc)
        },
        Err(e) => Err(e),
    }
}

/// Law: a successful build always holds the target's own entry path.
pub proof fn lemma_build_contains_entry(files: Seq<VfsFile>, entry: Seq<Seq<char>>)
    ensures
        visit_spec(files, norm_seq(entry), norm_seq(entry), Set::empty()) matches Ok(s)
            ==> s.contains(norm_seq(entry)),
{
    lemma_visit_mono(files, norm_seq(entry), norm_seq(entry), Set::empty());
    lemma_norm_norm(entry);
}

/// Law: building a target's file set is a function of the file tree
/// and the target's entry path alone, so two builds over an unchanged
/// tree yield identical sets.
pub proof fn lemma_build_idempotent(
    files: Seq<VfsFile>,
    entry: Seq<Seq<char>>,
    s1: Set<Seq<Seq<char>>>,
    s2: Set<Seq<Seq<char>>>,
)
    requires
        visit_spec(files, norm_seq(entry), norm_seq(entry), Set::empty()) == Ok::<
            Set<Seq<Seq<char>>>,
            ErrorView,
        >(s1),
        visit_spec(files, norm_seq(entry), norm_seq(entry), Set::empty()) == Ok::<
            Set<Seq<Seq<char>>>,
            ErrorView,
        >(s2),
    ensures
        s1 == s2,
{
}

} // verus!
