//! A plain-string model of filesystem paths.
//!
//! A path is a sequence of characters; `'/'` separates components. Child
//! paths are formed by appending a separator and a plain name (non-empty,
//! free of separators). A path has a parent exactly when it contains a
//! separator after its first character: the parent is everything before the
//! last separator. Under that rule a top-level entry such as `/root` — whose
//! only separator is the leading one — has no parent, so ascending stops
//! there rather than at the bare root.

use vstd::prelude::*;

verus! {

/// A single path component: non-empty and free of separators.
pub open spec fn plain_name(n: Seq<char>) -> bool {
    n.len() > 0 && forall|i: int| 0 <= i < n.len() ==> n[i] != '/'
}

/// The child path for entry `n` of directory `d`.
pub open spec fn join_path(d: Seq<char>, n: Seq<char>) -> Seq<char> {
    d + seq!['/'] + n
}

/// Whether `p` is an immediate child path of the directory `dir`.
pub open spec fn child_of(dir: Seq<char>, p: Seq<char>) -> bool {
    exists|n: Seq<char>| plain_name(n) && p == #[trigger] join_path(dir, n)
}

/// The index of the last separator in `p`, or `-1` if there is none.
pub open spec fn last_sep(p: Seq<char>) -> int
    decreases p.len(),
{
    if p.len() == 0 {
        -1
    } else if p[p.len() - 1] == '/' {
        p.len() - 1
    } else {
        last_sep(p.drop_last())
    }
}

/// The parent directory of `p`: the prefix before the last separator,
/// provided that separator is not the leading character.
pub open spec fn parent_of(p: Seq<char>) -> Option<Seq<char>> {
    if last_sep(p) >= 1 {
        Some(p.subrange(0, last_sep(p)))
    } else {
        None
    }
}

/// A separator with nothing but plain characters after it is the last one.
pub proof fn lemma_last_sep_at(p: Seq<char>, i: int)
    requires
        0 <= i < p.len(),
        p[i] == '/',
        forall|j: int| i < j < p.len() ==> p[j] != '/',
    ensures
        last_sep(p) == i,
    decreases p.len(),
{
    if i < p.len() - 1 {
        lemma_last_sep_at(p.drop_last(), i);
    }
}

/// A path without separators has no last separator.
pub proof fn lemma_last_sep_none(p: Seq<char>)
    requires
        forall|j: int| 0 <= j < p.len() ==> p[j] != '/',
    ensures
        last_sep(p) == -1,
    decreases p.len(),
{
    if p.len() > 0 {
        lemma_last_sep_none(p.drop_last());
    }
}

/// Joining a plain name onto a non-empty directory and taking the parent
/// gives the directory back: the appended separator is the last one.
pub proof fn lemma_parent_of_join(d: Seq<char>, n: Seq<char>)
    requires
        d.len() >= 1,
        plain_name(n),
    ensures
        parent_of(join_path(d, n)) == Some(d),
{
    let p = join_path(d, n);
    assert(p[d.len() as int] == '/');
    assert forall|j: int| d.len() < j < p.len() implies p[j] != '/' by {
        assert(p[j] == n[j - d.len() - 1]);
    }
    lemma_last_sep_at(p, d.len() as int);
    assert(p.subrange(0, d.len() as int) =~= d);
}

/// Builds the child path `dir/name`.
pub fn join(dir: &str, name: &str) -> (r: String)
    ensures
        r@ == join_path(dir@, name@),
{
    let mut r = dir.to_owned();
    r.append("/");
    r.append(name);
    proof {
        reveal_strlit("/");
        assert("/"@ =~= seq!['/']);
        assert(r@ =~= join_path(dir@, name@));
    }
    r
}

/// Decides whether `n` is a plain component name.
pub fn is_plain_name(n: &str) -> (r: bool)
    ensures
        r == plain_name(n@),
{
    let len = n.unicode_len();
    if len == 0 {
        return false;
    }
    let mut i: usize = 0;
    while i < len
        invariant
            i <= len,
            len == n@.len(),
            forall|j: int| 0 <= j < i ==> n@[j] != '/',
        decreases len - i,
    {
        if n.get_char(i) == '/' {
            return false;
        }
        i += 1;
    }
    true
}

/// Computes the parent directory of `p`, or `None` where the rule above
/// gives it none.
pub fn parent_dir(p: &str) -> (r: Option<String>)
    ensures
        match r {
            Some(q) => parent_of(p@) == Some(q@),
            None => parent_of(p@) is None,
        },
{
    let len = p.unicode_len();
    let mut i: usize = len;
    while i > 0
        invariant
            i <= len,
            len == p@.len(),
            forall|j: int| i <= j < len ==> p@[j] != '/',
        decreases i,
    {
        let c = p.get_char(i - 1);
        if c == '/' {
            proof {
                lemma_last_sep_at(p@, i - 1);
            }
            if i - 1 >= 1 {
                let q = p.substring_char(0, i - 1);
                return Some(q.to_owned());
            } else {
                return None;
            }
        }
        i -= 1;
    }
    proof {
        lemma_last_sep_none(p@);
    }
    None
}

} // verus!
