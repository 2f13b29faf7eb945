//! Resolving one module declaration to the file that backs it.
//!
//! The containing file is first classified: the target's own entry
//! file, and any file whose stem is the marker stem `mod`, resolve
//! their children next to themselves; every other file resolves them
//! one directory level down, in a sibling directory named after its
//! own stem. The declaration chain is then walked: an override on the
//! outermost component replaces the whole base and is anchored at the
//! containing file's directory, an override on a deeper component is
//! appended, and a plain component appends its name. The final
//! component either follows its override (which must exist), or tries
//! the flat candidate `<name>.rs` and then the directory-marker
//! candidate `<name>/mod.rs`.

use crate::parser::{ComponentView, Module};
use crate::path::{norm_seq, path_stem, split_rel, FilePath};
use crate::vfs::{vfs_exists, Vfs, VfsFile};
use crate::Error;
use vstd::prelude::*;
use vstd::string::StringExecFns;

verus! {

/// The marker stem: a file named `mod.rs` resolves its children next
/// to itself.
pub open spec fn mod_marker_stem() -> Seq<char> {
    seq!['m', 'o', 'd']
}

/// The file extension of a flat candidate.
pub open spec fn rs_ext() -> Seq<char> {
    seq!['.', 'r', 's']
}

/// The directory-marker file name.
pub open spec fn mod_rs_name() -> Seq<char> {
    seq!['m', 'o', 'd', '.', 'r', 's']
}

/// The base resolution directory for the children of `src`: its own
/// directory if `src` is the target's entry file or a marker file,
/// one level into a sibling directory named after its stem otherwise.
pub open spec fn base_resolution_spec(root: Seq<Seq<char>>, src: Seq<Seq<char>>) -> Result<
    Seq<Seq<char>>,
    Error,
> {
    match path_stem(src) {
        None => Err(Error::NoStem),
        Some(stem) => {
            let dir = src.drop_last();
            if root == src || stem == mod_marker_stem() {
                Ok(dir)
            } else {
                Ok(dir.push(stem))
            }
        },
    }
}

/// The directory reached after walking the parent components of a
/// declaration chain: an override on the outermost component replaces
/// the base and is anchored at the containing file's directory
/// `src_dir`; an override on a deeper component is appended; a plain
/// component appends its name.
pub open spec fn walk_head(
    src_dir: Seq<Seq<char>>,
    base0: Seq<Seq<char>>,
    head: Seq<ComponentView>,
) -> Seq<Seq<char>>
    decreases head.len(),
{
    if head.len() == 0 {
        base0
    } else {
        let prefix = walk_head(src_dir, base0, head.drop_last());
        let c = head.last();
        match c.path {
            Some(p) => if head.len() == 1 {
                src_dir + split_rel(p)
            } else {
                prefix + split_rel(p)
            },
            None => prefix.push(c.name),
        }
    }
}

/// The file backing the declaration chain `parts` found in `src`, or
/// the error resolving it: the rules above, followed by the final
/// component's override-or-candidates step, with every existence
/// question asked of the in-memory tree `files`.
pub open spec fn resolve_spec(
    files: Seq<VfsFile>,
    root: Seq<Seq<char>>,
    src: Seq<Seq<char>>,
    parts: Seq<ComponentView>,
) -> Result<Seq<Seq<char>>, Error>
    recommends
        parts.len() > 0,
{
    if src.len() == 0 {
        Err(Error::NoParent)
    } else {
        let src_dir = src.drop_last();
        match base_resolution_spec(root, src) {
            Err(e) => Err(e),
            Ok(base0) => {
                let head = parts.drop_last();
                let base = walk_head(src_dir, base0, head);
                let fin = parts.last();
                match fin.path {
                    Some(p) => {
                        let target = if head.len() == 0 {
                            src_dir + split_rel(p)
                        } else {
                            base + split_rel(p)
                        };
                        if vfs_exists(files, norm_seq(target)) {
                            Ok(target)
                        } else {
                            Err(Error::ModuleNotFound)
                        }
                    },
                    None => {
                        let flat = base.push(fin.name + rs_ext());
                        if vfs_exists(files, norm_seq(flat)) {
                            Ok(flat)
                        } else {
                            let marker = base.push(fin.name).push(mod_rs_name());
                            if vfs_exists(files, norm_seq(marker)) {
                                Ok(marker)
                            } else {
                                Err(Error::ModuleNotFound)
                            }
                        }
                    },
                }
            },
        }
    }
}

/// The accumulated base directory a declaration chain resolves its
/// final component against, assuming the base resolution step
/// succeeded.
pub open spec fn final_base(
    root: Seq<Seq<char>>,
    src: Seq<Seq<char>>,
    parts: Seq<ComponentView>,
) -> Seq<Seq<char>>
    recommends
        src.len() > 0,
        base_resolution_spec(root, src) is Ok,
{
    walk_head(src.drop_last(), base_resolution_spec(root, src)->Ok_0, parts.drop_last())
}

/// The flat candidate of a declaration chain without a final
/// override: `<base>/<name>.rs`.
pub open spec fn flat_candidate(
    root: Seq<Seq<char>>,
    src: Seq<Seq<char>>,
    parts: Seq<ComponentView>,
) -> Seq<Seq<char>> {
    final_base(root, src, parts).push(parts.last().name + rs_ext())
}

/// The directory-marker candidate of a declaration chain without a
/// final override: `<base>/<name>/mod.rs`.
pub open spec fn marker_candidate(
    root: Seq<Seq<char>>,
    src: Seq<Seq<char>>,
    parts: Seq<ComponentView>,
) -> Seq<Seq<char>> {
    final_base(root, src, parts).push(parts.last().name).push(mod_rs_name())
}

/// Law: a file-backed declaration with no override, whose flat
/// candidate and directory-marker candidate both do not exist, always
/// fails to resolve with `ModuleNotFound`.
pub proof fn lemma_missing_candidates_not_found(
    files: Seq<VfsFile>,
    root: Seq<Seq<char>>,
    src: Seq<Seq<char>>,
    parts: Seq<ComponentView>,
)
    requires
        src.len() > 0,
        parts.len() > 0,
        parts.last().path is None,
        base_resolution_spec(root, src) is Ok,
        !vfs_exists(files, norm_seq(flat_candidate(root, src, parts))),
        !vfs_exists(files, norm_seq(marker_candidate(root, src, parts))),
    ensures
        resolve_spec(files, root, src, parts) == Err::<Seq<Seq<char>>, Error>(
            Error::ModuleNotFound,
        ),
{
}

/// Law, at the level of the head walk: as soon as the outermost
/// component of the chain carries an override, the walked base is
/// anchored at the containing file's directory alone — the base
/// resolution directory it started from is irrelevant.
pub proof fn lemma_outermost_override_anchor(
    src_dir: Seq<Seq<char>>,
    base_a: Seq<Seq<char>>,
    base_b: Seq<Seq<char>>,
    head: Seq<ComponentView>,
)
    requires
        head.len() >= 1,
        head[0].path is Some,
    ensures
        walk_head(src_dir, base_a, head) == walk_head(src_dir, base_b, head),
    decreases head.len(),
{
    if head.len() == 1 {
    } else {
        assert(head.drop_last()[0] == head[0]);
        lemma_outermost_override_anchor(src_dir, base_a, base_b, head.drop_last());
    }
}

/// Law: for a declaration chain of depth at least two whose outermost
/// component carries an override, resolution does not depend on which
/// file is the target's entry file — the override is resolved
/// relative to the containing file's directory, never relative to the
/// accumulated nested base.
pub proof fn lemma_outermost_override_ignores_base(
    files: Seq<VfsFile>,
    root_a: Seq<Seq<char>>,
    root_b: Seq<Seq<char>>,
    src: Seq<Seq<char>>,
    parts: Seq<ComponentView>,
)
    requires
        parts.len() >= 2,
        parts[0].path is Some,
    ensures
        resolve_spec(files, root_a, src, parts) == resolve_spec(files, root_b, src, parts),
{
    if src.len() == 0 {
        // Both fail with the missing parent.
    } else if path_stem(src) is None {
        // The base step fails identically: it reads the entry file
        // only to classify marker files, never to reject.
    } else {
        let head = parts.drop_last();
        assert(head[0] == parts[0]);
        lemma_outermost_override_anchor(
            src.drop_last(),
            base_resolution_spec(root_a, src)->Ok_0,
            base_resolution_spec(root_b, src)->Ok_0,
            head,
        );
    }
}

/// The base resolution directory for the children declared in
/// `source_file_path`, with `root_path` the target's entry file.
pub fn resolve_base_resolution_path(root_path: &FilePath, source_file_path: &FilePath) -> (r:
    Result<FilePath, Error>)
    ensures
        (r matches Ok(p) ==> base_resolution_spec(root_path@, source_file_path@) == Ok::<Seq<Seq<char>>, Error>(p@)),
        (r matches Err(e) ==> base_resolution_spec(root_path@, source_file_path@) == Err::<Seq<Seq<char>>, Error>(e)),
{
    let stem = match source_file_path.file_stem() {
        Ok(s) => s,
        Err(e) => {
            return Err(e);
        },
    };
    let marker = String::from_str("mod");
    proof {
        reveal_strlit("mod");
        assert(marker@ =~= mod_marker_stem());
    }
    let is_mod_rs = root_path.eq_path(source_file_path) || stem == marker;
    let mut dir = match source_file_path.parent() {
        Ok(d) => d,
        Err(e) => {
            return Err(e);
        },
    };
    if !is_mod_rs {
        dir.push_part(stem);
    }
    Ok(dir)
}

impl Module {
    /// The file backing this declaration, found in
    /// `source_file_path`, with `root_path` the target's entry file
    /// and `fs` the file tree that answers existence questions.
    pub fn resolve(&self, root_path: &FilePath, source_file_path: &FilePath, fs: &Vfs) -> (r:
        Result<FilePath, Error>)
        requires
            self@.len() > 0,
        ensures
            (r matches Ok(p) ==> resolve_spec(fs@, root_path@, source_file_path@, self@) == Ok::<
                Seq<Seq<char>>,
                Error,
            >(p@)),
            (r matches Err(e) ==> resolve_spec(fs@, root_path@, source_file_path@, self@) == Err::<
                Seq<Seq<char>>,
                Error,
            >(e)),
    {
        proof {
            assert(self@.len() == self.parts@.len());
            assert(source_file_path@.len() == source_file_path.parts@.len());
        }
        let source_file_directory = match source_file_path.parent() {
            Ok(d) => d,
            Err(e) => {
                return Err(e);
            },
        };
        let mut base = match resolve_base_resolution_path(root_path, source_file_path) {
            Ok(b) => b,
            Err(e) => {
                return Err(e);
            },
        };
        let ghost src_dir = source_file_path@.drop_last();
        let ghost base0 = base@;
        let ghost head = self@.drop_last();
        let n = self.parts.len();
        let mut i: usize = 0;
        proof {
            assert(head.take(0) =~= Seq::<ComponentView>::empty());
        }
        while i < n - 1
            invariant
                n == self.parts@.len(),
                self@.len() == n,
                1 <= n,
                i <= n - 1,
                head == self@.drop_last(),
                source_file_directory@ == src_dir,
                base@ == walk_head(src_dir, base0, head.take(i as int)),
            decreases n - i,
        {
            proof {
                assert(head.len() == n - 1);
                assert(head.take(i as int + 1).drop_last() =~= head.take(i as int));
                assert(head.take(i as int + 1).last() == head[i as int]);
                assert(head[i as int] == self@[i as int]);
                assert(self@[i as int] == self.parts@[i as int]@);
            }
            match &self.parts[i].path {
                Some(p) => {
                    if i == 0 {
                        let mut nb = source_file_directory.clone_path();
                        nb.push_rel(p.as_str());
                        base = nb;
                        proof {
                            assert(head.take(1).len() == 1);
                        }
                    } else {
                        base.push_rel(p.as_str());
                    }
                },
                None => {
                    let name = self.parts[i].name.clone();
                    base.push_part(name);
                },
            }
            i = i + 1;
        }
        proof {
            assert(head.take(n - 1 as int) =~= head);
        }
        let fin = &self.parts[n - 1];
        proof {
            assert(self@.last() == self.parts@[n - 1]@);
        }
        match &fin.path {
            Some(p) => {
                let mut target = if n == 1 {
                    proof {
                        assert(head.len() == 0);
                    }
                    source_file_directory
                } else {
                    base
                };
                target.push_rel(p.as_str());
                if fs.path_exists(&target) {
                    Ok(target)
                } else {
                    Err(Error::ModuleNotFound)
                }
            },
            None => {
                let flat_name = fin.name.clone().concat(".rs");
                proof {
                    reveal_strlit(".rs");
                    assert(flat_name@ =~= self@.last().name + rs_ext());
                }
                let mut flat = base.clone_path();
                flat.push_part(flat_name);
                if fs.path_exists(&flat) {
                    return Ok(flat);
                }
                let mod_rs = String::from_str("mod.rs");
                proof {
                    reveal_strlit("mod.rs");
                    assert(mod_rs@ =~= mod_rs_name());
                }
                let mut marker = base;
                marker.push_part(fin.name.clone());
                marker.push_part(mod_rs);
                if fs.path_exists(&marker) {
                    Ok(marker)
                } else {
                    Err(Error::ModuleNotFound)
                }
            },
        }
    }
}

} // verus!
