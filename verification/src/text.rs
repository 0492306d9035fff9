//! Plain text operations the preprocessor is built on: whitespace
//! trimming and line splitting, with their mathematical models.

use vstd::prelude::*;

verus! {

/// The Unicode white-space characters, the set that line trimming removes.
pub open spec fn is_space(c: char) -> bool {
    let u = c as u32;
    (0x09 <= u && u <= 0x0D) || u == 0x20 || u == 0x85 || u == 0xA0 || u == 0x1680 || (0x2000
        <= u && u <= 0x200A) || u == 0x2028 || u == 0x2029 || u == 0x202F || u == 0x205F || u
        == 0x3000
}

/// Decides [`is_space`] at run time.
pub fn check_space(c: char) -> (r: bool)
    ensures
        r == is_space(c),
{
    let u = c as u32;
    (0x09 <= u && u <= 0x0D) || u == 0x20 || u == 0x85 || u == 0xA0 || u == 0x1680 || (0x2000
        <= u && u <= 0x200A) || u == 0x2028 || u == 0x2029 || u == 0x202F || u == 0x205F || u
        == 0x3000
}

/// `s` without its leading white space.
pub open spec fn trim_start_spec(s: Seq<char>) -> Seq<char>
    decreases s.len(),
{
    if s.len() > 0 && is_space(s[0]) {
        trim_start_spec(s.drop_first())
    } else {
        s
    }
}

/// `s` without its trailing white space.
pub open spec fn trim_end_spec(s: Seq<char>) -> Seq<char>
    decreases s.len(),
{
    if s.len() > 0 && is_space(s.last()) {
        trim_end_spec(s.drop_last())
    } else {
        s
    }
}

/// `s` without leading and trailing white space.
pub open spec fn trim_spec(s: Seq<char>) -> Seq<char> {
    trim_end_spec(trim_start_spec(s))
}

proof fn lemma_trim_start_skip(s: Seq<char>, i: int)
    requires
        0 <= i <= s.len(),
        forall|j: int| 0 <= j < i ==> is_space(s[j]),
    ensures
        trim_start_spec(s) == trim_start_spec(s.skip(i)),
    decreases i,
{
    if i > 0 {
        assert(s.drop_first() =~= s.skip(1));
        lemma_trim_start_skip(s.skip(1), i - 1);
        assert(s.skip(1).skip(i - 1) =~= s.skip(i));
    } else {
        assert(s.skip(0) =~= s);
    }
}

/// Leading white space ends exactly at `i`, so that is where `s` is cut.
proof fn lemma_trim_start_at(s: Seq<char>, i: int)
    requires
        0 <= i <= s.len(),
        forall|j: int| 0 <= j < i ==> is_space(s[j]),
        i < s.len() ==> !is_space(s[i]),
    ensures
        trim_start_spec(s) == s.skip(i),
{
    lemma_trim_start_skip(s, i);
}

/// Trailing white space starts exactly at `k`, so that is where `s` is cut.
proof fn lemma_trim_end_take(s: Seq<char>, k: int)
    requires
        0 <= k <= s.len(),
        forall|j: int| k <= j < s.len() ==> is_space(s[j]),
        k > 0 ==> !is_space(s[k - 1]),
    ensures
        trim_end_spec(s) == s.take(k),
    decreases s.len() - k,
{
    if k == s.len() {
        assert(s.take(k) =~= s);
    } else {
        assert(is_space(s.last()));
        assert(s.drop_last() =~= s.take(s.len() - 1));
        lemma_trim_end_take(s.drop_last(), k);
        assert(s.drop_last().take(k) =~= s.take(k));
    }
}

/// Removes leading and trailing white space, as [`trim_spec`] describes.
pub fn trim(s: &str) -> (r: &str)
    ensures
        r@ == trim_spec(s@),
{
    let n = s.unicode_len();
    let mut a: usize = 0;
    while a < n && check_space(s.get_char(a))
        invariant
            a <= n,
            n == s@.len(),
            forall|j: int| 0 <= j < a ==> is_space(s@[j]),
        decreases n - a,
    {
        a = a + 1;
    }
    let mut b: usize = n;
    while b > a && check_space(s.get_char(b - 1))
        invariant
            a <= b <= n,
            n == s@.len(),
            forall|j: int| b <= j < n ==> is_space(s@[j]),
        decreases b,
    {
        b = b - 1;
    }
    let r = s.substring_char(a, b);
    proof {
        lemma_trim_start_at(s@, a as int);
        let t = s@.skip(a as int);
        assert forall|j: int| b - a <= j < t.len() implies is_space(t[j]) by {
            assert(t[j] == s@[j + a]);
        }
        lemma_trim_end_take(t, b - a);
        assert(t.take(b - a) =~= s@.subrange(a as int, b as int));
    }
    r
}

proof fn lemma_trim_start_first(s: Seq<char>)
    ensures
        trim_start_spec(s).len() > 0 ==> !is_space(trim_start_spec(s)[0]),
    decreases s.len(),
{
    if s.len() > 0 && is_space(s[0]) {
        lemma_trim_start_first(s.drop_first());
    }
}

proof fn lemma_trim_end_prefix(s: Seq<char>)
    ensures
        trim_end_spec(s).len() <= s.len(),
        trim_end_spec(s) == s.take(trim_end_spec(s).len() as int),
        trim_end_spec(s).len() > 0 ==> !is_space(trim_end_spec(s).last()),
    decreases s.len(),
{
    if s.len() > 0 && is_space(s.last()) {
        lemma_trim_end_prefix(s.drop_last());
        assert(s.drop_last().take(trim_end_spec(s).len() as int) =~= s.take(
            trim_end_spec(s).len() as int,
        ));
    } else {
        assert(s.take(s.len() as int) =~= s);
    }
}

proof fn lemma_trim_start_no_char(s: Seq<char>, c: char)
    requires
        forall|j: int| 0 <= j < s.len() ==> s[j] != c,
    ensures
        forall|j: int| 0 <= j < trim_start_spec(s).len() ==> trim_start_spec(s)[j] != c,
    decreases s.len(),
{
    if s.len() > 0 && is_space(s[0]) {
        assert forall|j: int| 0 <= j < s.drop_first().len() implies s.drop_first()[j] != c by {
            assert(s.drop_first()[j] == s[j + 1]);
        }
        lemma_trim_start_no_char(s.drop_first(), c);
        assert(trim_start_spec(s) == trim_start_spec(s.drop_first()));
    } else {
        assert(trim_start_spec(s) == s);
    }
    assert forall|j: int| 0 <= j < trim_start_spec(s).len() implies trim_start_spec(s)[j]
        != c by {
        if s.len() > 0 && is_space(s[0]) {
            assert(trim_start_spec(s.drop_first())[j] != c);
        } else {
            assert(s[j] != c);
        }
    }
}

proof fn lemma_trim_end_no_char(s: Seq<char>, c: char)
    requires
        forall|j: int| 0 <= j < s.len() ==> s[j] != c,
    ensures
        forall|j: int| 0 <= j < trim_end_spec(s).len() ==> trim_end_spec(s)[j] != c,
    decreases s.len(),
{
    if s.len() > 0 && is_space(s.last()) {
        assert forall|j: int| 0 <= j < s.drop_last().len() implies s.drop_last()[j] != c by {
            assert(s.drop_last()[j] == s[j]);
        }
        lemma_trim_end_no_char(s.drop_last(), c);
        assert(trim_end_spec(s) == trim_end_spec(s.drop_last()));
    } else {
        assert(trim_end_spec(s) == s);
    }
    assert forall|j: int| 0 <= j < trim_end_spec(s).len() implies trim_end_spec(s)[j] != c by {
        if s.len() > 0 && is_space(s.last()) {
            assert(trim_end_spec(s.drop_last())[j] != c);
        } else {
            assert(s[j] != c);
        }
    }
}

/// Trimming brings in no character: what is absent from a line is absent
/// from its trimmed form.
pub proof fn lemma_trim_no_char(s: Seq<char>, c: char)
    requires
        forall|j: int| 0 <= j < s.len() ==> s[j] != c,
    ensures
        forall|j: int| 0 <= j < trim_spec(s).len() ==> trim_spec(s)[j] != c,
{
    lemma_trim_start_no_char(s, c);
    lemma_trim_end_no_char(trim_start_spec(s), c);
}

/// Trimming is idempotent: a trimmed line trims to itself.
pub proof fn lemma_trim_idempotent(s: Seq<char>)
    ensures
        trim_spec(trim_spec(s)) == trim_spec(s),
{
    let x = trim_start_spec(s);
    let y = trim_end_spec(x);
    lemma_trim_start_first(s);
    lemma_trim_end_prefix(x);
    if y.len() > 0 {
        assert(y[0] == x.take(y.len() as int)[0]);
    }
    assert(trim_start_spec(y) == y);
    assert(trim_end_spec(y) == y);
}

/// The index of the first occurrence of `c` in `s`, or `s.len()` if there
/// is none.
pub open spec fn find_char(s: Seq<char>, c: char) -> nat
    decreases s.len(),
{
    if s.len() == 0 {
        0
    } else if s[0] == c {
        0
    } else {
        1 + find_char(s.drop_first(), c)
    }
}

/// What [`find_char`] returns: nothing before it is `c`, and it is either
/// `c` itself or the end of `s`.
pub proof fn lemma_find_char_props(s: Seq<char>, c: char)
    ensures
        find_char(s, c) <= s.len(),
        forall|j: int| 0 <= j < find_char(s, c) ==> s[j] != c,
        find_char(s, c) < s.len() ==> s[find_char(s, c) as int] == c,
    decreases s.len(),
{
    if s.len() > 0 && s[0] != c {
        lemma_find_char_props(s.drop_first(), c);
        assert forall|j: int| 0 <= j < find_char(s, c) implies s[j] != c by {
            if j > 0 {
                assert(s.drop_first()[j - 1] == s[j]);
            }
        }
        if find_char(s, c) < s.len() {
            assert(s.drop_first()[find_char(s, c) - 1] == s[find_char(s, c) as int]);
        }
    }
}

/// An index with `c` nowhere before it, and `c` or the end of `s` at it,
/// is where [`find_char`] points.
pub proof fn lemma_find_char_at(s: Seq<char>, c: char, k: int)
    requires
        0 <= k <= s.len(),
        forall|j: int| 0 <= j < k ==> s[j] != c,
        k < s.len() ==> s[k] == c,
    ensures
        find_char(s, c) == k,
    decreases k,
{
    if k == 0 {
        if s.len() > 0 && s[0] != c {
            lemma_find_char_props(s, c);
        }
    } else {
        lemma_find_char_at(s.drop_first(), c, k - 1);
    }
}

/// `s` cut into lines at each `'\n'`; a final line break closes the last
/// line rather than opening an empty one.
pub open spec fn split_lines_spec(s: Seq<char>) -> Seq<Seq<char>>
    decreases s.len(),
{
    if s.len() == 0 {
        Seq::empty()
    } else {
        let k = find_char(s, '\n') as int;
        if k >= s.len() {
            seq![s]
        } else {
            seq![s.take(k)] + split_lines_spec(s.skip(k + 1))
        }
    }
}

/// A break-free line, a break, then more text split into that line
/// followed by the rest's lines.
pub proof fn lemma_split_lines_cons(l: Seq<char>, rest: Seq<char>)
    requires
        forall|j: int| 0 <= j < l.len() ==> l[j] != '\n',
    ensures
        split_lines_spec(l + seq!['\n'] + rest) == seq![l] + split_lines_spec(rest),
{
    let s = l + seq!['\n'] + rest;
    assert(s[l.len() as int] == '\n');
    lemma_find_char_at(s, '\n', l.len() as int);
    assert(s.take(l.len() as int) =~= l);
    assert(s.skip(l.len() as int + 1) =~= rest);
    assert(split_lines_spec(s) =~= seq![l] + split_lines_spec(rest));
}

/// No line that splitting yields contains a line break.
pub proof fn lemma_split_lines_no_newline(s: Seq<char>)
    ensures
        forall|i: int, j: int|
            0 <= i < split_lines_spec(s).len() && 0 <= j < split_lines_spec(s)[i].len()
                ==> split_lines_spec(s)[i][j] != '\n',
    decreases s.len(),
{
    if s.len() > 0 {
        lemma_find_char_props(s, '\n');
        let k = find_char(s, '\n') as int;
        if k < s.len() {
            lemma_split_lines_no_newline(s.skip(k + 1));
            let ls = split_lines_spec(s);
            assert forall|i: int, j: int|
                0 <= i < ls.len() && 0 <= j < ls[i].len() implies ls[i][j] != '\n' by {
                if i > 0 {
                    assert(ls[i] == split_lines_spec(s.skip(k + 1))[i - 1]);
                } else {
                    assert(ls[0] == s.take(k));
                }
            }
        }
    }
}

/// Cuts `s` into lines, as [`split_lines_spec`] describes.
pub fn split_lines(s: &str) -> (r: Vec<String>)
    ensures
        r.deep_view() == split_lines_spec(s@),
{
    let n = s.unicode_len();
    let mut r: Vec<String> = Vec::new();
    let mut i: usize = 0;
    proof {
        assert(s@.skip(0) =~= s@);
        assert(r.deep_view() =~= Seq::<Seq<char>>::empty());
        assert(Seq::<Seq<char>>::empty() + split_lines_spec(s@) =~= split_lines_spec(s@));
    }
    while i < n
        invariant
            i <= n,
            n == s@.len(),
            split_lines_spec(s@) == r.deep_view() + split_lines_spec(s@.skip(i as int)),
        decreases n - i,
    {
        let ghost old_r = r.deep_view();
        let mut k: usize = i;
        while k < n && s.get_char(k) != '\n'
            invariant
                i <= k <= n,
                n == s@.len(),
                forall|j: int| i <= j < k ==> s@[j] != '\n',
            decreases n - k,
        {
            k = k + 1;
        }
        let piece = s.substring_char(i, k).to_owned();
        r.push(piece);
        proof {
            let t = s@.skip(i as int);
            assert forall|j: int| 0 <= j < k - i implies t[j] != '\n' by {
                assert(t[j] == s@[j + i]);
            }
            if k < n {
                assert(t[k - i] == s@[k as int]);
            }
            lemma_find_char_at(t, '\n', k - i);
            assert(piece@ =~= t.take(k - i));
            assert(r.deep_view() =~= old_r.push(piece@));
            if k == n {
                assert(t.take(k - i) =~= t);
                assert(split_lines_spec(t) == seq![t]);
                assert(r.deep_view() =~= old_r + seq![t]);
            } else {
                assert(t.skip(k - i + 1) =~= s@.skip(k + 1));
                assert(split_lines_spec(t) == seq![t.take(k - i)] + split_lines_spec(
                    s@.skip(k + 1),
                ));
                assert(r.deep_view() + split_lines_spec(s@.skip(k + 1)) =~= old_r + (seq![
                    t.take(k - i),
                ] + split_lines_spec(s@.skip(k + 1))));
            }
        }
        if k < n {
            i = k + 1;
        } else {
            proof {
                assert(s@.skip(n as int) =~= Seq::<char>::empty());
                assert(r.deep_view() + split_lines_spec(s@.skip(n as int)) =~= r.deep_view());
            }
            i = n;
        }
    }
    proof {
        assert(s@.skip(n as int) =~= Seq::<char>::empty());
        assert(r.deep_view() + Seq::<Seq<char>>::empty() =~= r.deep_view());
    }
    r
}

/// Character-for-character string comparison.
pub fn str_eq(a: &str, b: &str) -> (r: bool)
    ensures
        r == (a@ == b@),
{
    let na = a.unicode_len();
    let nb = b.unicode_len();
    if na != nb {
        return false;
    }
    let mut i: usize = 0;
    while i < na
        invariant
            i <= na,
            na == a@.len(),
            na == b@.len(),
            forall|j: int| 0 <= j < i ==> a@[j] == b@[j],
        decreases na - i,
    {
        if a.get_char(i) != b.get_char(i) {
            return false;
        }
        i = i + 1;
    }
    proof {
        assert(a@ =~= b@);
    }
    true
}

} // verus!
