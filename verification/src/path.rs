//! Paths as text.
//!
//! A path is handled lexically: its parent is what stands before its last
//! `/`. On a path in normal form this is the parent that `std::path::Path`
//! gives. A path is in normal form where it holds no empty component and no
//! component `.` behind a `/`, and ends in `/` only where it is the root.
//! An absolute path in normal form starts with `/` as well.

use vstd::prelude::*;
use vstd::string::StringExecFns;
use crate::text::{chars_of, last_index_of, lemma_last_index_of, rfind_char, slice_text};

verus! {

/// The text of the root directory.
pub open spec fn root() -> Seq<char> {
    seq!['/']
}

/// The slash at `i` is followed by an empty component or by the component
/// `.`.
pub open spec fn breaks_at(p: Seq<char>, i: int) -> bool {
    p[i] == '/' && (p[i + 1] == '/' || (p[i + 1] == '.' && (i + 2 == p.len() || p[i + 2] == '/')))
}

/// `p` is a path in normal form.
pub open spec fn is_plain_path(p: Seq<char>) -> bool {
    &&& p.len() > 1 ==> p.last() != '/'
    &&& forall|i: int| 0 <= i < p.len() - 1 ==> !#[trigger] breaks_at(p, i)
}

/// `p` is an absolute path in normal form.
pub open spec fn is_abs_path(p: Seq<char>) -> bool {
    &&& p.len() > 0
    &&& p[0] == '/'
    &&& is_plain_path(p)
}

/// The path without its last component. The root and the empty path have no
/// parent; a single relative component has the empty path as its parent.
pub open spec fn parent_of(p: Seq<char>) -> Option<Seq<char>> {
    match last_index_of(p, '/') {
        None => if p.len() == 0 {
            None
        } else {
            Some(Seq::<char>::empty())
        },
        Some(i) => if p.len() == 1 {
            None
        } else if i == 0 {
            Some(root())
        } else {
            Some(p.subrange(0, i))
        },
    }
}

/// The last component of the path: what follows its last `/`.
pub open spec fn base_name(p: Seq<char>) -> Seq<char> {
    match last_index_of(p, '/') {
        None => p,
        Some(i) => p.subrange(i + 1, p.len() as int),
    }
}

/// The path of the child `name` of the directory `dir`.
pub open spec fn join(dir: Seq<char>, name: Seq<char>) -> Seq<char> {
    if dir.len() > 0 && dir.last() == '/' {
        dir + name
    } else {
        dir + seq!['/'] + name
    }
}

/// The path, its parent, the parent of that, and so on up to the last one
/// that has no parent.
pub open spec fn ancestors(p: Seq<char>) -> Seq<Seq<char>>
    decreases p.len(),
{
    match parent_of(p) {
        Some(q) => if q.len() < p.len() {
            seq![p] + ancestors(q)
        } else {
            seq![p]
        },
        None => seq![p],
    }
}

/// A parent is shorter than its child.
pub proof fn lemma_parent_shorter(p: Seq<char>)
    ensures
        parent_of(p) matches Some(q) ==> q.len() < p.len(),
{
    lemma_last_index_of(p, '/');
}

/// The parent of a path in normal form is in normal form.
pub proof fn lemma_parent_plain(p: Seq<char>)
    requires
        is_plain_path(p),
    ensures
        parent_of(p) matches Some(q) ==> is_plain_path(q) && q.len() < p.len(),
{
    lemma_last_index_of(p, '/');
    if last_index_of(p, '/') is Some && p.len() > 1 {
        let i = last_index_of(p, '/')->0;
        if i > 0 {
            let q = p.subrange(0, i);
            assert(q.last() == p[i - 1]);
            assert(!breaks_at(p, i - 1));
            assert forall|k: int| 0 <= k < q.len() - 1 implies !#[trigger] breaks_at(q, k) by {
                assert(!breaks_at(p, k));
                assert(q[k] == p[k] && q[k + 1] == p[k + 1]);
                if k + 2 < q.len() {
                    assert(q[k + 2] == p[k + 2]);
                }
            }
        }
    }
}

/// The parent of an absolute path is an absolute path, and only the root has
/// none.
pub proof fn lemma_parent_abs(p: Seq<char>)
    requires
        is_abs_path(p),
    ensures
        parent_of(p) is None <==> p == root(),
        parent_of(p) matches Some(q) ==> is_abs_path(q) && q.len() < p.len(),
{
    lemma_last_index_of(p, '/');
    lemma_parent_plain(p);
    if p.len() == 1 {
        assert(p =~= root());
    } else {
        let i = last_index_of(p, '/')->0;
        if i > 0 {
            assert(p.subrange(0, i)[0] == p[0]);
        }
    }
}

/// The ancestors of an absolute path are absolute paths; the first is the
/// path itself and the last is the root.
pub proof fn lemma_ancestors_abs(p: Seq<char>)
    requires
        is_abs_path(p),
    ensures
        ancestors(p).len() >= 1,
        ancestors(p)[0] == p,
        ancestors(p).last() == root(),
        forall|k: int| 0 <= k < ancestors(p).len() ==> is_abs_path(#[trigger] ancestors(p)[k]),
    decreases p.len(),
{
    lemma_parent_abs(p);
    match parent_of(p) {
        Some(q) => {
            lemma_ancestors_abs(q);
            let rest = ancestors(q);
            assert(ancestors(p) =~= seq![p] + rest);
            assert forall|k: int| 0 <= k < ancestors(p).len() implies is_abs_path(
                #[trigger] ancestors(p)[k],
            ) by {
                if k > 0 {
                    assert(ancestors(p)[k] == rest[k - 1]);
                }
            }
        },
        None => {},
    }
}

/// The ancestors of a path are pairwise different.
pub proof fn lemma_ancestors_distinct(p: Seq<char>)
    ensures
        forall|k: int| 0 <= k < ancestors(p).len() ==> (#[trigger] ancestors(p)[k]).len()
            <= p.len(),
        forall|i: int, j: int|
            0 <= i < j < ancestors(p).len()
                ==> #[trigger] ancestors(p)[i] != #[trigger] ancestors(p)[j],
    decreases p.len(),
{
    lemma_parent_shorter(p);
    match parent_of(p) {
        Some(q) => {
            lemma_ancestors_distinct(q);
            let rest = ancestors(q);
            assert(ancestors(p) =~= seq![p] + rest);
            assert forall|k: int| 0 <= k < ancestors(p).len()
                implies (#[trigger] ancestors(p)[k]).len() <= p.len() by {
                if k > 0 {
                    assert(ancestors(p)[k] == rest[k - 1]);
                }
            }
            assert forall|i: int, j: int| 0 <= i < j < ancestors(p).len()
                implies #[trigger] ancestors(p)[i] != #[trigger] ancestors(p)[j] by {
                assert(ancestors(p)[j] == rest[j - 1]);
                if i > 0 {
                    assert(ancestors(p)[i] == rest[i - 1]);
                } else {
                    assert(rest[j - 1].len() <= q.len());
                }
            }
        },
        None => {},
    }
}

/// Whether `p` is a path in normal form.
pub fn is_plain(p: &str) -> (r: bool)
    ensures
        r == is_plain_path(p@),
{
    let chars = chars_of(p);
    let n = chars.len();
    if n > 1 && chars[n - 1] == '/' {
        return false;
    }
    if n == 0 {
        return true;
    }
    let mut i: usize = 0;
    while i + 1 < n
        invariant
            n == chars.len(),
            chars@ == p@,
            i + 1 <= n,
            forall|k: int| 0 <= k < i ==> !#[trigger] breaks_at(chars@, k),
        decreases n - i,
    {
        if chars[i] == '/' {
            if chars[i + 1] == '/' {
                assert(breaks_at(chars@, i as int));
                return false;
            }
            if chars[i + 1] == '.' && (i + 2 == n || chars[i + 2] == '/') {
                assert(breaks_at(chars@, i as int));
                return false;
            }
        }
        i += 1;
    }
    true
}

/// Whether `p` is an absolute path in normal form.
pub fn is_absolute(p: &str) -> (r: bool)
    ensures
        r == is_abs_path(p@),
{
    let chars = chars_of(p);
    chars.len() > 0 && chars[0] == '/' && is_plain(p)
}

/// The parent of `p`, where it has one.
pub fn parent(p: &str) -> (r: Option<String>)
    ensures
        match r {
            Some(q) => parent_of(p@) == Some(q@),
            None => parent_of(p@) is None,
        },
{
    let chars = chars_of(p);
    proof {
        lemma_last_index_of(p@, '/');
    }
    match rfind_char(&chars, '/') {
        None => {
            if chars.len() == 0 {
                None
            } else {
                Some(String::new())
            }
        },
        Some(i) => {
            if chars.len() == 1 {
                None
            } else if i == 0 {
                let r = slice_text(p, 0, 1);
                assert(r@ =~= root());
                Some(r)
            } else {
                Some(slice_text(p, 0, i))
            }
        },
    }
}

/// The last component of `p`.
pub fn file_name_of(p: &str) -> (r: String)
    ensures
        r@ == base_name(p@),
{
    let chars = chars_of(p);
    proof {
        lemma_last_index_of(p@, '/');
    }
    match rfind_char(&chars, '/') {
        None => {
            let r = slice_text(p, 0, chars.len());
            assert(r@ =~= p@);
            r
        },
        Some(i) => slice_text(p, i + 1, chars.len()),
    }
}

/// The path of the child `name` of the directory `dir`.
pub fn join_path(dir: &str, name: &str) -> (r: String)
    ensures
        r@ == join(dir@, name@),
{
    let chars = chars_of(dir);
    let mut out = dir.to_owned();
    if !(chars.len() > 0 && chars[chars.len() - 1] == '/') {
        proof {
            reveal_strlit("/");
        }
        out.append("/");
        assert(out@ =~= dir@ + seq!['/']);
    }
    out.append(name);
    out
}

/// The path and all that lies above it, nearest first.
pub fn ancestors_of(p: &str) -> (out: Vec<String>)
    ensures
        out.len() == ancestors(p@).len(),
        forall|k: int| 0 <= k < out.len() ==> (#[trigger] out[k])@ == ancestors(p@)[k],
{
    let mut out: Vec<String> = Vec::new();
    let mut cur: String = p.to_owned();
    loop
        invariant
            cur@.len() <= p@.len(),
            ancestors(p@) =~= Seq::new(out.len() as nat, |k: int| out[k]@) + ancestors(cur@),
        decreases cur@.len(),
    {
        let next = parent(cur.as_str());
        proof {
            lemma_parent_shorter(cur@);
        }
        let ghost before = Seq::new(out.len() as nat, |k: int| out[k]@);
        let ghost cur_text = cur@;
        out.push(cur);
        assert(Seq::new(out.len() as nat, |k: int| out[k]@) =~= before.push(cur_text));
        match next {
            Some(q) => {
                assert(ancestors(cur_text) =~= seq![cur_text] + ancestors(q@));
                cur = q;
            },
            None => {
                assert(ancestors(cur_text) =~= seq![cur_text]);
                assert(ancestors(p@) =~= Seq::new(out.len() as nat, |k: int| out[k]@));
                return out;
            },
        }
    }
}

} // verus!
