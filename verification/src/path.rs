//! A filesystem path modeled as a sequence of plain components.
//!
//! The resolution engine never touches the host filesystem directly; it
//! works on these component lists and on an in-memory file tree. A path
//! such as `src/detail/mod.rs` is the component list
//! `["src", "detail", "mod.rs"]`. `.` and `..` components are permitted
//! in a component list and are resolved away by [`FilePath::normalize`];
//! two declarations reach the same file exactly when their normalized
//! component lists are equal, which is the identity used for
//! deduplication.

use crate::Error;
use vstd::prelude::*;
use vstd::string::StrSliceExecFns;
use vstd::string::StringExecFns;

verus! {

/// Relies on `String::push`: appends one character to the string.
#[verifier::external_body]
fn push_char(s: &mut String, c: char)
    ensures
        final(s)@ == old(s)@.push(c),
{
    s.push(c)
}

/// The component `.`.
pub open spec fn dot_part() -> Seq<char> {
    seq!['.']
}

/// The component `..`.
pub open spec fn dotdot_part() -> Seq<char> {
    seq!['.', '.']
}

/// Splitting a relative path string on `/`, dropping empty segments:
/// the trailing segment still being accumulated is `cur`.
pub open spec fn split_rel_acc(s: Seq<char>, cur: Seq<char>) -> Seq<Seq<char>>
    decreases s.len(),
{
    if s.len() == 0 {
        if cur.len() == 0 {
            seq![]
        } else {
            seq![cur]
        }
    } else if s[0] == '/' {
        if cur.len() == 0 {
            split_rel_acc(s.skip(1), Seq::empty())
        } else {
            seq![cur] + split_rel_acc(s.skip(1), Seq::empty())
        }
    } else {
        split_rel_acc(s.skip(1), cur.push(s[0]))
    }
}

/// The components of a relative path string: split on `/`, empty
/// segments dropped.
pub open spec fn split_rel(s: Seq<char>) -> Seq<Seq<char>> {
    split_rel_acc(s, Seq::empty())
}

/// One step of normalization: resolve a trailing `.` or `..` against
/// the already-normalized prefix.
pub open spec fn norm_seq(parts: Seq<Seq<char>>) -> Seq<Seq<char>>
    decreases parts.len(),
{
    if parts.len() == 0 {
        seq![]
    } else {
        let prefix = norm_seq(parts.drop_last());
        if parts.last() == dot_part() {
            prefix
        } else if parts.last() == dotdot_part() {
            if prefix.len() == 0 {
                prefix
            } else {
                prefix.drop_last()
            }
        } else {
            prefix.push(parts.last())
        }
    }
}

/// The index of the last `.` in a name, or `-1` if it has none.
pub open spec fn rfind_dot(name: Seq<char>) -> int
    decreases name.len(),
{
    if name.len() == 0 {
        -1
    } else if name.last() == '.' {
        name.len() - 1
    } else {
        rfind_dot(name.drop_last())
    }
}

/// The stem of one file name: the portion before the final `.`, except
/// that a name whose only `.` is its first character keeps the whole
/// name (`.rs` has stem `.rs`, `a.rs` has stem `a`, `a` has stem `a`).
pub open spec fn stem_of(name: Seq<char>) -> Seq<char> {
    let k = rfind_dot(name);
    if k <= 0 {
        name
    } else {
        name.take(k)
    }
}

/// The stem of a path's final component, or `None` where the path has
/// no final component to take a stem of (it is empty, or ends in a
/// `.` or `..` component).
pub open spec fn path_stem(parts: Seq<Seq<char>>) -> Option<Seq<char>> {
    if parts.len() == 0 {
        None
    } else if parts.last() == dot_part() || parts.last() == dotdot_part() {
        None
    } else {
        Some(stem_of(parts.last()))
    }
}

/// Whether `p` is a strict prefix of `q`: `p` names a directory on the
/// way to `q`.
pub open spec fn is_strict_prefix(p: Seq<Seq<char>>, q: Seq<Seq<char>>) -> bool {
    p.len() < q.len() && p == q.take(p.len() as int)
}

/// A path view free of `.` and `..` components.
pub open spec fn no_dots(parts: Seq<Seq<char>>) -> bool {
    forall|i: int|
        0 <= i < parts.len() ==> #[trigger] parts[i] != dot_part() && parts[i] != dotdot_part()
}

/// Normalization never leaves a `.` or `..` component behind.
pub proof fn lemma_norm_no_dots(parts: Seq<Seq<char>>)
    ensures
        no_dots(norm_seq(parts)),
    decreases parts.len(),
{
    if parts.len() == 0 {
    } else {
        lemma_norm_no_dots(parts.drop_last());
        let prefix = norm_seq(parts.drop_last());
        if parts.last() == dot_part() {
        } else if parts.last() == dotdot_part() {
            if prefix.len() > 0 {
                assert forall|i: int| 0 <= i < prefix.drop_last().len() implies #[trigger] prefix.drop_last()[i] != dot_part() && prefix.drop_last()[i] != dotdot_part() by {
                    assert(prefix.drop_last()[i] == prefix[i]);
                }
            }
        } else {
        }
    }
}

/// Normalization leaves a dot-free path unchanged.
pub proof fn lemma_norm_id(parts: Seq<Seq<char>>)
    requires
        no_dots(parts),
    ensures
        norm_seq(parts) == parts,
    decreases parts.len(),
{
    if parts.len() == 0 {
        assert(norm_seq(parts) =~= parts);
    } else {
        assert forall|i: int| 0 <= i < parts.drop_last().len() implies #[trigger] parts.drop_last()[i] != dot_part() && parts.drop_last()[i] != dotdot_part() by {
            assert(parts.drop_last()[i] == parts[i]);
        }
        lemma_norm_id(parts.drop_last());
        assert(parts.last() == parts[parts.len() - 1]);
        assert(norm_seq(parts) =~= parts);
    }
}

/// Normalization is idempotent.
pub proof fn lemma_norm_norm(parts: Seq<Seq<char>>)
    ensures
        norm_seq(norm_seq(parts)) == norm_seq(parts),
{
    lemma_norm_no_dots(parts);
    lemma_norm_id(norm_seq(parts));
}

/// If a name has a `.` at `k` and none later, the last `.` is at `k`.
proof fn lemma_rfind_found(name: Seq<char>, k: int)
    requires
        0 <= k < name.len(),
        name[k] == '.',
        forall|p: int| k < p < name.len() ==> name[p] != '.',
    ensures
        rfind_dot(name) == k,
    decreases name.len(),
{
    if name.len() - 1 == k {
    } else {
        assert(name.last() != '.');
        assert forall|p: int| k < p < name.drop_last().len() implies name.drop_last()[p] != '.' by {
            assert(name.drop_last()[p] == name[p]);
        }
        lemma_rfind_found(name.drop_last(), k);
    }
}

/// A name with no `.` at all has no last `.`.
proof fn lemma_rfind_none(name: Seq<char>)
    requires
        forall|p: int| 0 <= p < name.len() ==> name[p] != '.',
    ensures
        rfind_dot(name) == -1,
    decreases name.len(),
{
    if name.len() == 0 {
    } else {
        assert(name.last() != '.');
        assert forall|p: int| 0 <= p < name.drop_last().len() implies name.drop_last()[p] != '.' by {
            assert(name.drop_last()[p] == name[p]);
        }
        lemma_rfind_none(name.drop_last());
    }
}

/// A filesystem path as an ordered list of plain components.
#[derive(Debug)]
pub struct FilePath {
    /// The components, outermost directory first.
    pub parts: Vec<String>,
}

impl View for FilePath {
    type V = Seq<Seq<char>>;

    open spec fn view(&self) -> Seq<Seq<char>> {
        self.parts.deep_view()
    }
}

impl FilePath {
    /// The empty path (the base directory itself).
    pub fn empty() -> (r: FilePath)
        ensures
            r@ == Seq::<Seq<char>>::empty(),
    {
        let parts: Vec<String> = Vec::new();
        FilePath { parts }
    }

    /// An identical, independently owned path.
    pub fn clone_path(&self) -> (r: FilePath)
        ensures
            r@ == self@,
    {
        let mut parts: Vec<String> = Vec::new();
        let n = self.parts.len();
        let mut i: usize = 0;
        proof {
            assert(parts.deep_view() =~= self@.take(0));
        }
        while i < n
            invariant
                n == self.parts.len(),
                i <= n,
                parts.deep_view() == self@.take(i as int),
            decreases n - i,
        {
            let ghost pre = parts@;
            let ghost pred = parts.deep_view();
            let c = self.parts[i].clone();
            assert(c == self.parts@[i as int]);
            parts.push(c);
            proof {
                assert(pre.len() == pred.len());
                assert(pred.len() == i);
                assert(parts@ == pre.push(c));
                assert forall|j: int| 0 <= j < i + 1 implies parts.deep_view()[j] == self@.take(
                    i as int + 1,
                )[j] by {
                    assert(parts.deep_view()[j] == parts@[j].deep_view());
                    if j < i {
                        assert(parts@[j] == pre[j]);
                        assert(pred[j] == pre[j].deep_view());
                        assert(pred[j] == self@.take(i as int)[j]);
                    } else {
                        assert(parts@[j] == c);
                    }
                }
                assert(parts.deep_view() =~= self@.take(i as int + 1));
            }
            i = i + 1;
        }
        proof {
            assert(self@.take(n as int) =~= self@);
        }
        FilePath { parts }
    }

    /// Append one already-split component.
    pub fn push_part(&mut self, part: String)
        ensures
            final(self)@ == old(self)@.push(part@),
    {
        self.parts.push(part);
        proof {
            assert(self@ =~= old(self)@.push(part@));
        }
    }

    /// Append the components of a relative path string, splitting it
    /// on `/` and dropping empty segments.
    pub fn push_rel(&mut self, rel: &str)
        ensures
            final(self)@ == old(self)@ + split_rel(rel@),
    {
        let n = rel.unicode_len();
        let mut i: usize = 0;
        let mut cur = String::new();
        proof {
            assert(rel@.skip(0) =~= rel@);
            assert(old(self)@ + split_rel(rel@) =~= self@ + split_rel_acc(rel@.skip(0), cur@));
        }
        while i < n
            invariant
                n == rel@.len(),
                i <= n,
                old(self)@ + split_rel(rel@) == self@ + split_rel_acc(rel@.skip(i as int), cur@),
            decreases n - i,
        {
            let ghost s_i = rel@.skip(i as int);
            proof {
                assert(s_i.len() == n - i);
                assert(s_i[0] == rel@[i as int]);
                assert(s_i.skip(1) =~= rel@.skip(i as int + 1));
            }
            let c = rel.get_char(i);
            if c == '/' {
                let done = cur;
                cur = String::new();
                if !done.as_str().is_empty() {
                    let ghost pre = self@;
                    self.push_part(done);
                    proof {
                        assert(self@ + split_rel_acc(rel@.skip(i as int + 1), cur@) =~= pre + (
                        seq![done@] + split_rel_acc(rel@.skip(i as int + 1), Seq::empty())));
                    }
                } else {
                    proof {
                        assert(done@ =~= Seq::<char>::empty());
                    }
                }
            } else {
                push_char(&mut cur, c);
            }
            i = i + 1;
        }
        proof {
            assert(rel@.skip(n as int).len() == 0);
        }
        if !cur.as_str().is_empty() {
            let ghost pre = self@;
            let ghost curv = cur@;
            proof {
                assert(split_rel_acc(rel@.skip(n as int), curv) =~= seq![curv]);
            }
            self.push_part(cur);
            proof {
                assert(self@ =~= pre + seq![curv]);
            }
        } else {
            proof {
                assert(split_rel_acc(rel@.skip(n as int), cur@) =~= Seq::<Seq<char>>::empty());
                assert(self@ + Seq::<Seq<char>>::empty() =~= self@);
            }
        }
    }

    /// The path whose components are those of a relative path string.
    pub fn from_str_path(s: &str) -> (r: FilePath)
        ensures
            r@ == split_rel(s@),
    {
        let mut r = FilePath::empty();
        r.push_rel(s);
        proof {
            assert(r@ =~= split_rel(s@));
        }
        r
    }

    /// The normalized form of the path: `.` components dropped and
    /// `..` components resolved against what precedes them.
    pub fn normalize(&self) -> (r: FilePath)
        ensures
            r@ == norm_seq(self@),
    {
        let dot = String::from_str(".");
        let dotdot = String::from_str("..");
        proof {
            reveal_strlit(".");
            reveal_strlit("..");
            assert(dot@ =~= dot_part());
            assert(dotdot@ =~= dotdot_part());
        }
        let mut r = FilePath::empty();
        let n = self.parts.len();
        let mut i: usize = 0;
        proof {
            assert(self@.take(0) =~= Seq::<Seq<char>>::empty());
        }
        while i < n
            invariant
                n == self.parts.len(),
                self@.len() == n,
                i <= n,
                dot@ == dot_part(),
                dotdot@ == dotdot_part(),
                r@ == norm_seq(self@.take(i as int)),
            decreases n - i,
        {
            proof {
                assert(self@.take(i as int + 1).drop_last() =~= self@.take(i as int));
                assert(self@.take(i as int + 1).last() == self@[i as int]);
                assert(self@[i as int] == self.parts@[i as int]@);
            }
            proof {
                assert(r@.len() == r.parts@.len());
            }
            if self.parts[i] == dot {
                // dropped
            } else if self.parts[i] == dotdot {
                if r.parts.len() > 0 {
                    let ghost rv = r@;
                    let ghost rparts = r.parts@;
                    r.parts.pop();
                    proof {
                        assert forall|j: int| 0 <= j < r.parts@.len() implies r@[j] == rv[j] by {
                            assert(r.parts@[j] == rparts[j]);
                        }
                        assert(r@ =~= rv.drop_last());
                    }
                }
            } else {
                let c = self.parts[i].clone();
                r.push_part(c);
            }
            i = i + 1;
        }
        proof {
            assert(self@.take(n as int) =~= self@);
        }
        r
    }

    /// The path without its final component, or `NoParent` where it
    /// has none.
    pub fn parent(&self) -> (r: Result<FilePath, Error>)
        ensures
            self@.len() == 0 ==> (r matches Err(e) && e == Error::NoParent),
            self@.len() > 0 ==> (r matches Ok(p) && p@ == self@.drop_last()),
    {
        if self.parts.len() == 0 {
            proof {
                assert(self@.len() == 0);
            }
            return Err(Error::NoParent);
        }
        let mut p = self.clone_path();
        let ghost pv = p@;
        let ghost pparts = p.parts@;
        p.parts.pop();
        proof {
            assert forall|j: int| 0 <= j < p.parts@.len() implies p@[j] == pv[j] by {
                assert(p.parts@[j] == pparts[j]);
            }
            assert(p@ =~= self@.drop_last());
        }
        Ok(p)
    }

    /// The stem of the path's final component, or `NoStem` where the
    /// path has none.
    pub fn file_stem(&self) -> (r: Result<String, Error>)
        ensures
            (path_stem(self@) matches Some(s) ==> (r matches Ok(v) && v@ == s)),
            (path_stem(self@) is None ==> (r matches Err(e) && e == Error::NoStem)),
    {
        let n = self.parts.len();
        if n == 0 {
            proof {
                assert(self@.len() == 0);
            }
            return Err(Error::NoStem);
        }
        let dot = String::from_str(".");
        let dotdot = String::from_str("..");
        proof {
            reveal_strlit(".");
            reveal_strlit("..");
            assert(dot@ =~= dot_part());
            assert(dotdot@ =~= dotdot_part());
            assert(self@.last() == self.parts@[n - 1]@);
        }
        let last = &self.parts[n - 1];
        if *last == dot || *last == dotdot {
            return Err(Error::NoStem);
        }
        let name: &str = last.as_str();
        let m = name.unicode_len();
        let mut j = m;
        let mut k: usize = 0;
        let mut found = false;
        while j > 0 && !found
            invariant
                m == name@.len(),
                j <= m,
                !found ==> (forall|p: int| j <= p < m ==> name@[p] != '.'),
                found ==> j <= k < m && name@[k as int] == '.' && (forall|p: int|
                    k < p < m ==> name@[p] != '.'),
            decreases j + (if found { 0int } else { 1int }),
        {
            let jj = j - 1;
            let c = name.get_char(jj);
            if c == '.' {
                found = true;
                k = jj;
            }
            j = jj;
        }
        if found && k > 0 {
            proof {
                lemma_rfind_found(name@, k as int);
            }
            let stem = name.substring_char(0, k);
            let r = stem.to_owned();
            proof {
                assert(r@ =~= name@.take(k as int));
            }
            Ok(r)
        } else {
            proof {
                if found {
                    lemma_rfind_found(name@, k as int);
                } else {
                    lemma_rfind_none(name@);
                }
            }
            Ok(last.clone())
        }
    }

    /// Whether this path is a strict prefix of `other`.
    pub fn is_strict_prefix_of(&self, other: &FilePath) -> (r: bool)
        ensures
            r == is_strict_prefix(self@, other@),
    {
        proof {
            assert(self@.len() == self.parts.len());
            assert(other@.len() == other.parts.len());
        }
        if self.parts.len() >= other.parts.len() {
            return false;
        }
        let n = self.parts.len();
        let mut i: usize = 0;
        while i < n
            invariant
                n == self.parts.len() < other.parts.len(),
                self@.len() == n,
                other@.len() == other.parts.len(),
                i <= n,
                forall|j: int| 0 <= j < i ==> self@[j] == other@[j],
            decreases n - i,
        {
            proof {
                assert(self@[i as int] == self.parts@[i as int]@);
                assert(other@[i as int] == other.parts@[i as int]@);
            }
            if !(self.parts[i] == other.parts[i]) {
                proof {
                    assert(other@.take(n as int)[i as int] == other@[i as int]);
                }
                return false;
            }
            i = i + 1;
        }
        proof {
            assert(self@ =~= other@.take(n as int));
        }
        true
    }

    /// Whether two paths have equal component lists.
    pub fn eq_path(&self, other: &FilePath) -> (r: bool)
        ensures
            r == (self@ == other@),
    {
        proof {
            assert(self@.len() == self.parts.len());
            assert(other@.len() == other.parts.len());
        }
        if self.parts.len() != other.parts.len() {
            return false;
        }
        let n = self.parts.len();
        let mut i: usize = 0;
        while i < n
            invariant
                n == self.parts.len() == other.parts.len(),
                self@.len() == n == other@.len(),
                i <= n,
                forall|j: int| 0 <= j < i ==> self@[j] == other@[j],
            decreases n - i,
        {
            proof {
                assert(self@[i as int] == self.parts@[i as int]@);
                assert(other@[i as int] == other.parts@[i as int]@);
            }
            if !(self.parts[i] == other.parts[i]) {
                return false;
            }
            i = i + 1;
        }
        proof {
            assert(self@ =~= other@);
        }
        true
    }
}

} // verus!
