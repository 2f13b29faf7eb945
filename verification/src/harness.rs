//! A small description language for crate layouts.
//!
//! A [`DirTree`] describes a directory tree of source files; each
//! file is described by the module declarations it should contain,
//! each a [`Module`] with an optional `path` override and optional
//! inline children. [`DirTree::dirs`] flattens the tree into a list
//! of directories with their files, and [`render_module`] turns one
//! described module into module-declaration source text. Together
//! they let a caller materialize a described layout into an in-memory
//! file tree and hold the engine's output against it.

use vstd::prelude::*;
use vstd::string::StringExecFns;

verus! {

/// One described module declaration.
pub struct Module {
    /// The declared module name.
    pub name: String,
    /// The `path` override to attach, if any.
    pub path: Option<String>,
    /// `Some` for an inline block with the given children, `None`
    /// for a file-backed declaration.
    pub children: Option<Vec<Module>>,
}

/// A described file: its name and the modules it declares.
pub struct File {
    /// The file name, extension included.
    pub name: String,
    /// The module declarations the file holds.
    pub modules: Vec<Module>,
}

/// A directory drawn from a flattened tree: its component path and
/// its files.
pub struct Dir {
    /// The directory's path components, outermost first.
    pub path: Vec<String>,
    /// The files directly in the directory.
    pub files: Vec<File>,
}

/// One entry of a described directory: a file, or a subdirectory.
pub enum DirTreeEntry {
    /// A file in the directory.
    File(File),
    /// A named subdirectory.
    Directory(DirTree),
}

/// A described directory tree: named directories, each holding files
/// and subdirectories.
pub struct DirTree(pub Vec<(String, Vec<DirTreeEntry>)>);

/// The mathematical value of a described module.
pub ghost struct ModuleView {
    /// The declared module name.
    pub name: Seq<char>,
    /// The `path` override, if any.
    pub path: Option<Seq<char>>,
    /// The inline children, or `None` for a file-backed declaration.
    pub children: Option<Seq<ModuleView>>,
}

/// The mathematical value of a described file.
pub ghost struct FileView {
    /// The file name.
    pub name: Seq<char>,
    /// The modules the file declares.
    pub modules: Seq<ModuleView>,
}

/// The mathematical value of a flattened directory.
pub ghost struct DirView {
    /// The directory's path components.
    pub path: Seq<Seq<char>>,
    /// The files directly in it.
    pub files: Seq<FileView>,
}

/// The mathematical value of one described module.
pub open spec fn module_view(m: Module) -> ModuleView
    decreases m, 0int,
{
    ModuleView {
        name: m.name@,
        path: match m.path {
            Some(p) => Some(p@),
            None => None,
        },
        children: match m.children {
            Some(cs) => Some(modules_view(cs@)),
            None => None,
        },
    }
}

/// The mathematical value of a module list.
pub open spec fn modules_view(ms: Seq<Module>) -> Seq<ModuleView>
    decreases ms, 1int,
{
    if ms.len() == 0 {
        Seq::empty()
    } else {
        modules_view(ms.drop_last()).push(module_view(ms.last()))
    }
}

/// A module list's value is the value of each module, in order.
pub proof fn lemma_modules_view_index(ms: Seq<Module>, j: int)
    requires
        0 <= j < ms.len(),
    ensures
        modules_view(ms).len() == ms.len(),
        modules_view(ms)[j] == module_view(ms[j]),
    decreases ms.len(),
{
    lemma_modules_view_len(ms);
    if j == ms.len() - 1 {
    } else {
        lemma_modules_view_index(ms.drop_last(), j);
        assert(ms.drop_last()[j] == ms[j]);
    }
}

/// A module list's value has one element per module.
pub proof fn lemma_modules_view_len(ms: Seq<Module>)
    ensures
        modules_view(ms).len() == ms.len(),
    decreases ms.len(),
{
    if ms.len() > 0 {
        lemma_modules_view_len(ms.drop_last());
    }
}

/// The mathematical value of a described file.
pub open spec fn file_view(f: File) -> FileView {
    FileView { name: f.name@, modules: modules_view(f.modules@) }
}

/// The mathematical value of a flattened directory.
pub open spec fn dir_view(d: Dir) -> DirView {
    DirView { path: d.path.deep_view(), files: d.files@.map(|i: int, f: File| file_view(f)) }
}

/// The mathematical value of a directory list.
pub open spec fn dirs_view(ds: Seq<Dir>) -> Seq<DirView> {
    ds.map(|i: int, d: Dir| dir_view(d))
}

/// The files directly among a directory's entries, in order.
pub open spec fn entries_files(es: Seq<DirTreeEntry>) -> Seq<FileView>
    decreases es, 0int,
{
    if es.len() == 0 {
        Seq::empty()
    } else {
        let prefix = entries_files(es.drop_last());
        match es.last() {
            DirTreeEntry::File(f) => prefix.push(file_view(f)),
            DirTreeEntry::Directory(t) => prefix,
        }
    }
}

/// Each directory of a list, with one component prepended to its
/// path.
pub open spec fn prepend_dirs(folder: Seq<char>, ds: Seq<DirView>) -> Seq<DirView> {
    ds.map(|i: int, d: DirView| DirView { path: seq![folder] + d.path, files: d.files })
}

/// The directories contributed by a directory's subdirectory
/// entries, in order.
pub open spec fn entries_dirs(es: Seq<DirTreeEntry>) -> Seq<DirView>
    decreases es, 0int, 0int,
{
    if es.len() == 0 {
        Seq::empty()
    } else {
        let prefix = entries_dirs(es.drop_last());
        match es.last() {
            DirTreeEntry::File(f) => prefix,
            DirTreeEntry::Directory(t) => prefix + dirs_spec(t),
        }
    }
}

/// The directories of one named folder: the folder itself with its
/// files, then its subdirectories with the folder's name prepended.
pub open spec fn folder_spec(entry: (String, Vec<DirTreeEntry>)) -> Seq<DirView>
    decreases entry, 1int, 0int,
{
    seq![DirView { path: seq![entry.0@], files: entries_files(entry.1@) }] + prepend_dirs(
        entry.0@,
        entries_dirs(entry.1@),
    )
}

/// The directories of a folder list, in order.
pub open spec fn folders_spec(fs: Seq<(String, Vec<DirTreeEntry>)>) -> Seq<DirView>
    decreases fs, 2int, 0int,
{
    if fs.len() == 0 {
        Seq::empty()
    } else {
        folders_spec(fs.drop_last()) + folder_spec(fs.last())
    }
}

/// The flattened directory list of a whole described tree.
pub open spec fn dirs_spec(t: DirTree) -> Seq<DirView>
    decreases t, 3int, 0int,
{
    folders_spec(t.0@)
}

/// The text of a `path` override attribute, or nothing.
pub open spec fn attr_text(p: Option<Seq<char>>) -> Seq<char> {
    match p {
        Some(s) => seq!['#', '[', 'p', 'a', 't', 'h', ' ', '=', ' ', '"'] + s + seq![
            '"',
            ']',
            '\n',
        ],
        None => Seq::empty(),
    }
}

/// The source text of one described module declaration: its override
/// attribute if any, then `mod <name>;` for a file-backed declaration
/// or `mod <name> { ... }` with its rendered children for an inline
/// one.
pub open spec fn render_spec(m: ModuleView) -> Seq<char>
    decreases m, 0int,
{
    let head = attr_text(m.path) + seq!['m', 'o', 'd', ' '] + m.name;
    match m.children {
        Some(cs) => head + seq![' ', '{', '\n'] + render_join(cs) + seq!['\n', '}'],
        None => head + seq![';'],
    }
}

/// The rendered texts of a module list, joined by line breaks.
pub open spec fn render_join(ms: Seq<ModuleView>) -> Seq<char>
    decreases ms, 1int,
{
    if ms.len() == 0 {
        Seq::empty()
    } else if ms.len() == 1 {
        render_spec(ms[0])
    } else {
        render_join(ms.drop_last()) + seq!['\n'] + render_spec(ms.last())
    }
}

/// An identical, independently owned described module.
#[verifier::loop_isolation(false)]
fn clone_module(m: &Module) -> (r: Module)
    ensures
        module_view(r) == module_view(*m),
    decreases *m,
{
    let name = m.name.clone();
    let path = match &m.path {
        Some(p) => Some(p.clone()),
        None => None,
    };
    let children = match &m.children {
        Some(cs) => {
            let n = cs.len();
            let mut v: Vec<Module> = Vec::new();
            let mut j: usize = 0;
            proof {
                assert(modules_view(v@) =~= modules_view(cs@.take(0)));
            }
            while j < n
                invariant
                    n == cs@.len(),
                    j <= n,
                    modules_view(v@) == modules_view(cs@.take(j as int)),
                decreases n - j,
            {
                proof {
                    assert(decreases_to!(*m => m.children));
                    assert(decreases_to!(m.children => m.children->Some_0));
                    assert(decreases_to!(m.children->Some_0 => cs@));
                    assert(decreases_to!(cs@ => cs@[j as int]));
                }
                let c = clone_module(&cs[j]);
                let ghost vpre = v@;
                v.push(c);
                proof {
                    assert(v@.drop_last() =~= vpre);
                    assert(cs@.take(j as int + 1).drop_last() =~= cs@.take(j as int));
                    assert(cs@.take(j as int + 1).last() == cs@[j as int]);
                }
                j = j + 1;
            }
            proof {
                assert(cs@.take(n as int) =~= cs@);
            }
            Some(v)
        },
        None => None,
    };
    Module { name, path, children }
}

/// An identical, independently owned described file.
#[verifier::loop_isolation(false)]
fn clone_file(f: &File) -> (r: File)
    ensures
        file_view(r) == file_view(*f),
{
    let name = f.name.clone();
    let n = f.modules.len();
    let mut v: Vec<Module> = Vec::new();
    let mut j: usize = 0;
    proof {
        assert(modules_view(v@) =~= modules_view(f.modules@.take(0)));
    }
    while j < n
        invariant
            n == f.modules@.len(),
            j <= n,
            modules_view(v@) == modules_view(f.modules@.take(j as int)),
        decreases n - j,
    {
        let c = clone_module(&f.modules[j]);
        let ghost vpre = v@;
        v.push(c);
        proof {
            assert(v@.drop_last() =~= vpre);
            assert(f.modules@.take(j as int + 1).drop_last() =~= f.modules@.take(j as int));
            assert(f.modules@.take(j as int + 1).last() == f.modules@[j as int]);
        }
        j = j + 1;
    }
    proof {
        assert(f.modules@.take(n as int) =~= f.modules@);
    }
    File { name, modules: v }
}

/// The source text of one described module declaration.
#[verifier::loop_isolation(false)]
pub fn render_module(module: &Module) -> (r: String)
    ensures
        r@ == render_spec(module_view(*module)),
    decreases *module,
{
    let mut s = String::new();
    match &module.path {
        Some(p) => {
            s.append("#[path = \"");
            s.append(p.as_str());
            s.append("\"]\n");
            proof {
                reveal_strlit("#[path = \"");
                reveal_strlit("\"]\n");
                assert(s@ =~= attr_text(module_view(*module).path));
            }
        },
        None => {
            proof {
                assert(s@ =~= attr_text(module_view(*module).path));
            }
        },
    }
    s.append("mod ");
    s.append(module.name.as_str());
    let ghost head = attr_text(module_view(*module).path) + seq!['m', 'o', 'd', ' ']
        + module.name@;
    proof {
        reveal_strlit("mod ");
        assert(s@ =~= head);
    }
    match &module.children {
        Some(cs) => {
            s.append(" {\n");
            let ghost open = head + seq![' ', '{', '\n'];
            proof {
                reveal_strlit(" {\n");
                lemma_modules_view_len(cs@);
                assert(s@ =~= open);
                assert(modules_view(cs@).take(0) =~= Seq::<ModuleView>::empty());
                assert(s@ =~= open + render_join(modules_view(cs@).take(0)));
            }
            let n = cs.len();
            let mut j: usize = 0;
            while j < n
                invariant
                    n == cs@.len(),
                    j <= n,
                    modules_view(cs@).len() == n,
                    open == head + seq![' ', '{', '\n'],
                    s@ == open + render_join(modules_view(cs@).take(j as int)),
                decreases n - j,
            {
                proof {
                    lemma_modules_view_len(cs@);
                    lemma_modules_view_index(cs@, j as int);
                    assert(decreases_to!(*module => module.children));
                    assert(decreases_to!(module.children => module.children->Some_0));
                    assert(decreases_to!(module.children->Some_0 => cs@));
                    assert(decreases_to!(cs@ => cs@[j as int]));
                }
                if j > 0 {
                    s.append("\n");
                    proof {
                        reveal_strlit("\n");
                    }
                }
                let child = render_module(&cs[j]);
                s.append(child.as_str());
                proof {
                    let mv = modules_view(cs@);
                    assert(mv.take(j as int + 1).drop_last() =~= mv.take(j as int));
                    assert(mv.take(j as int + 1).last() == mv[j as int]);
                    assert(mv[j as int] == module_view(cs@[j as int]));
                    if j == 0 {
                        assert(mv.take(1).len() == 1);
                        assert(mv.take(1)[0] == mv[0]);
                        assert(s@ =~= open + render_join(mv.take(1)));
                    } else {
                        assert(mv.take(j as int + 1).len() >= 2);
                        assert(s@ =~= open + render_join(mv.take(j as int + 1)));
                    }
                }
                j = j + 1;
            }
            s.append("\n}");
            proof {
                reveal_strlit("\n}");
                assert(modules_view(cs@).take(n as int) =~= modules_view(cs@));
                assert(s@ =~= render_spec(module_view(*module)));
            }
        },
        None => {
            s.append(";");
            proof {
                reveal_strlit(";");
                assert(s@ =~= render_spec(module_view(*module)));
            }
        },
    }
    s
}

impl DirTree {
    /// Flatten the tree into `acc`: each named directory contributes
    /// itself with its files, then its subdirectories with its name
    /// prepended to their paths.
    #[verifier::loop_isolation(false)]
    pub fn dirs(&self, acc: &mut Vec<Dir>)
        ensures
            dirs_view(final(acc)@) == dirs_view(old(acc)@) + dirs_spec(*self),
        decreases *self,
    {
        let n = self.0.len();
        let mut k: usize = 0;
        proof {
            assert(dirs_view(acc@) =~= dirs_view(old(acc)@) + folders_spec(self.0@.take(0)));
        }
        while k < n
            invariant
                n == self.0@.len(),
                k <= n,
                dirs_view(acc@) == dirs_view(old(acc)@) + folders_spec(self.0@.take(k as int)),
            decreases n - k,
        {
            let pair = &self.0[k];
            let ghost folder_v = pair.0@;
            let ghost es = pair.1@;
            let mut files: Vec<File> = Vec::new();
            let mut buf: Vec<Dir> = Vec::new();
            let m = pair.1.len();
            let mut j: usize = 0;
            proof {
                assert(files@.map(|i: int, f: File| file_view(f)) =~= entries_files(es.take(0)));
                assert(dirs_view(buf@) =~= entries_dirs(es.take(0)));
            }
            while j < m
                invariant
                    m == pair.1@.len(),
                    j <= m,
                    es == pair.1@,
                    files@.map(|i: int, f: File| file_view(f)) == entries_files(es.take(j as int)),
                    dirs_view(buf@) == entries_dirs(es.take(j as int)),
                decreases m - j,
            {
                proof {
                    assert(es.take(j as int + 1).drop_last() =~= es.take(j as int));
                    assert(es.take(j as int + 1).last() == es[j as int]);
                }
                match &pair.1[j] {
                    DirTreeEntry::File(f) => {
                        let c = clone_file(f);
                        let ghost fpre = files@;
                        files.push(c);
                        proof {
                            let fv = |i: int, x: File| file_view(x);
                            assert forall|i: int| 0 <= i < files@.len() implies files@.map(fv)[i]
                                == entries_files(es.take(j as int + 1))[i] by {
                                if i < fpre.len() {
                                    assert(files@[i] == fpre[i]);
                                    assert(fpre.map(fv)[i] == file_view(fpre[i]));
                                }
                            }
                            assert(files@.map(fv) =~= entries_files(es.take(j as int + 1)));
                        }
                    },
                    DirTreeEntry::Directory(t) => {
                        proof {
                            assert(decreases_to!(*self => self.0));
                            assert(decreases_to!(self.0 => self.0@));
                            assert(decreases_to!(self.0@ => self.0@[k as int]));
                            assert(decreases_to!(self.0@[k as int] => self.0@[k as int].1));
                            assert(decreases_to!(self.0@[k as int].1 => self.0@[k as int].1@));
                            assert(decreases_to!(self.0@[k as int].1@ => es[j as int]));
                            assert(decreases_to!(es[j as int] => *t));
                        }
                        let ghost bpre = buf@;
                        t.dirs(&mut buf);
                        proof {
                            assert(dirs_view(buf@) =~= entries_dirs(es.take(j as int + 1)));
                        }
                    },
                }
                j = j + 1;
            }
            proof {
                assert(es.take(m as int) =~= es);
            }
            let mut pv: Vec<String> = Vec::new();
            pv.push(pair.0.clone());
            let current = Dir { path: pv, files };
            let ghost apre = acc@;
            let ghost target = dirs_view(old(acc)@) + folders_spec(self.0@.take(k as int))
                + folder_spec(self.0@[k as int]);
            acc.push(current);
            proof {
                assert(current.path.deep_view() =~= seq![folder_v]);
                assert(dir_view(current) == (DirView { path: seq![folder_v], files: entries_files(es) }));
                assert forall|i: int| 0 <= i < acc@.len() implies dirs_view(acc@)[i] == (
                if i < apre.len() {
                    dirs_view(apre)[i]
                } else {
                    dir_view(current)
                }) by {
                    if i < apre.len() {
                        assert(acc@[i] == apre[i]);
                    }
                }
                assert(dirs_view(acc@) + prepend_dirs(folder_v, dirs_view(buf@)) =~= target);
            }
            while buf.len() > 0
                invariant
                    folder_v == pair.0@,
                    dirs_view(acc@) + prepend_dirs(folder_v, dirs_view(buf@)) == target,
                decreases buf.len(),
            {
                let ghost bpre = buf@;
                let ghost apre2 = acc@;
                let mut d = buf.remove(0);
                let ghost dpre = d;
                d.path.insert(0, pair.0.clone());
                acc.push(d);
                proof {
                    assert(d.path@ == dpre.path@.insert(0, pair.0));
                    assert forall|i: int| 0 <= i < d.path@.len() implies d.path.deep_view()[i] == (
                    seq![folder_v] + dpre.path.deep_view())[i] by {
                        assert(d.path.deep_view()[i] == d.path@[i]@);
                        if i > 0 {
                            assert(d.path@[i] == dpre.path@[i - 1]);
                            assert(dpre.path.deep_view()[i - 1] == dpre.path@[i - 1]@);
                        }
                    }
                    assert(d.path.deep_view() =~= seq![folder_v] + dpre.path.deep_view());
                    assert(d.files@ == dpre.files@);
                    assert(dir_view(d) == (DirView {
                        path: seq![folder_v] + dir_view(dpre).path,
                        files: dir_view(dpre).files,
                    }));
                    assert forall|i: int| 0 <= i < acc@.len() implies dirs_view(acc@)[i] == (
                    if i < apre2.len() {
                        dirs_view(apre2)[i]
                    } else {
                        dir_view(d)
                    }) by {
                        if i < apre2.len() {
                            assert(acc@[i] == apre2[i]);
                        }
                    }
                    assert(dirs_view(acc@) =~= dirs_view(apre2).push(dir_view(d)));
                    assert forall|i: int| 0 <= i < buf@.len() implies dirs_view(buf@)[i]
                        == dirs_view(bpre)[i + 1] by {
                        assert(buf@[i] == bpre[i + 1]);
                    }
                    assert(dirs_view(bpre)[0] == dir_view(bpre[0]));
                    assert(bpre[0] == dpre);
                    assert(prepend_dirs(folder_v, dirs_view(bpre))[0] == dir_view(d));
                    assert forall|i: int| 0 <= i < dirs_view(bpre).len() - 1 implies prepend_dirs(
                        folder_v,
                        dirs_view(buf@),
                    )[i] == prepend_dirs(folder_v, dirs_view(bpre))[i + 1] by {
                        assert(dirs_view(buf@)[i] == dirs_view(bpre)[i + 1]);
                    }
                    assert(dirs_view(apre2).push(dir_view(d)) + prepend_dirs(
                        folder_v,
                        dirs_view(buf@),
                    ) =~= dirs_view(apre2) + prepend_dirs(folder_v, dirs_view(bpre)));
                }
            }
            proof {
                assert(dirs_view(buf@).len() == 0);
                assert(prepend_dirs(folder_v, dirs_view(buf@)) =~= Seq::<DirView>::empty());
                assert(dirs_view(acc@) =~= target);
                assert(self.0@.take(k as int + 1).drop_last() =~= self.0@.take(k as int));
                assert(self.0@.take(k as int + 1).last() == self.0@[k as int]);
                assert(dirs_view(acc@) =~= dirs_view(old(acc)@) + folders_spec(
                    self.0@.take(k as int + 1),
                ));
            }
            k = k + 1;
        }
        proof {
            assert(self.0@.take(n as int) =~= self.0@);
        }
    }
}

} // verus!
