//! Textual path handling. Paths are plain text here: the parent of a path
//! is what stands before its last `'/'`, and joining appends one `'/'`
//! between the pieces. This matches how the filesystem reads the joined
//! path for ordinary file names.

use vstd::prelude::*;

verus! {

/// The index of the last `'/'` in `s`, or `-1` if there is none.
pub open spec fn last_slash(s: Seq<char>) -> int
    decreases s.len(),
{
    if s.len() == 0 {
        -1
    } else if s.last() == '/' {
        s.len() - 1
    } else {
        last_slash(s.drop_last())
    }
}

/// An index with `'/'` at it and nowhere after it is where [`last_slash`]
/// points; `-1` fits when `s` has no `'/'` at all.
pub proof fn lemma_last_slash_at(s: Seq<char>, k: int)
    requires
        -1 <= k < s.len(),
        forall|j: int| k < j < s.len() ==> s[j] != '/',
        k >= 0 ==> s[k] == '/',
    ensures
        last_slash(s) == k,
    decreases s.len(),
{
    if s.len() == 0 {
    } else if k == s.len() - 1 {
    } else {
        assert(s.last() != '/');
        lemma_last_slash_at(s.drop_last(), k);
    }
}

/// The textual parent directory of a path: the text before the last `'/'`,
/// the root `"/"` alone when the last `'/'` comes first, and empty when the
/// path has no `'/'`.
pub open spec fn parent_spec(path: Seq<char>) -> Seq<char> {
    let k = last_slash(path);
    if k < 0 {
        Seq::empty()
    } else if k == 0 {
        seq!['/']
    } else {
        path.take(k)
    }
}

/// The path a directive argument names: the argument itself when it is
/// absolute, otherwise the includer's parent directory joined with it.
pub open spec fn resolve_spec(cur: Seq<char>, arg: Seq<char>) -> Seq<char> {
    if arg.len() > 0 && arg[0] == '/' {
        arg
    } else {
        let p = parent_spec(cur);
        if p.len() == 0 {
            arg
        } else if p == seq!['/'] {
            p + arg
        } else {
            p + seq!['/'] + arg
        }
    }
}

/// Joins the includer's directory with the argument, as [`resolve_spec`]
/// describes.
pub fn resolve(cur: &str, arg: &str) -> (r: String)
    ensures
        r@ == resolve_spec(cur@, arg@),
{
    let an = arg.unicode_len();
    if an > 0 && arg.get_char(0) == '/' {
        return arg.to_owned();
    }
    let n = cur.unicode_len();
    let mut e: usize = n;
    while e > 0 && cur.get_char(e - 1) != '/'
        invariant
            e <= n,
            n == cur@.len(),
            forall|j: int| e <= j < n ==> cur@[j] != '/',
        decreases e,
    {
        e = e - 1;
    }
    proof {
        lemma_last_slash_at(cur@, e - 1);
    }
    let p: &str = if e == 0 {
        ""
    } else if e == 1 {
        cur.substring_char(0, 1)
    } else {
        cur.substring_char(0, e - 1)
    };
    proof {
        reveal_strlit("");
        if e == 0 {
            assert(""@ =~= Seq::<char>::empty());
        } else if e == 1 {
            assert(cur@.subrange(0, 1) =~= seq!['/']);
        }
        assert(p@ == parent_spec(cur@));
    }
    if p.unicode_len() == 0 {
        arg.to_owned()
    } else if p.unicode_len() == 1 && p.get_char(0) == '/' {
        proof {
            assert(p@ =~= seq!['/']);
        }
        let mut out = p.to_owned();
        out.append(arg);
        out
    } else {
        proof {
            reveal_strlit("/");
            assert("/"@ =~= seq!['/']);
        }
        let mut out = p.to_owned();
        out.append("/");
        out.append(arg);
        out
    }
}

} // verus!
