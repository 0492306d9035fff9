//! What the preprocessor guarantees, stated and proved as laws over
//! [`expand`]: plain files pass through trimmed, one include stands in
//! place of its directive line, nesting composes, resolution follows the
//! includer's directory, and each error carries exactly its payload.

use vstd::prelude::*;
use crate::directive::{directive_arg, is_directive};
use crate::paths::{lemma_last_slash_at, parent_spec, resolve_spec};
use crate::shader::{expand, expand_lines, ErrView, OutcomeView};
use crate::text::{
    lemma_split_lines_cons, lemma_split_lines_no_newline, lemma_trim_idempotent, lemma_trim_no_char,
    split_lines_spec, trim_spec,
};
use crate::vfs::FileView;

verus! {

/// Every line trimmed, one line break after each.
pub open spec fn flatten_trimmed(lines: Seq<Seq<char>>) -> Seq<char>
    decreases lines.len(),
{
    if lines.len() == 0 {
        Seq::empty()
    } else {
        trim_spec(lines[0]) + seq!['\n'] + flatten_trimmed(lines.drop_first())
    }
}

/// No line is a directive once trimmed.
pub open spec fn no_directives(lines: Seq<Seq<char>>) -> bool {
    forall|i: int| 0 <= i < lines.len() ==> !is_directive(trim_spec(lines[i]))
}

/// Lines without directives pass through trimmed, ahead of whatever the
/// lines after them come to.
pub proof fn lemma_plain_prefix(
    fs: Map<Seq<char>, FileView>,
    pre: Seq<Seq<char>>,
    rest: Seq<Seq<char>>,
    cur: Seq<char>,
    fuel: nat,
)
    requires
        no_directives(pre),
    ensures
        expand_lines(fs, pre + rest, cur, fuel) == (match expand_lines(fs, rest, cur, fuel) {
            OutcomeView::Done(r) => OutcomeView::Done(flatten_trimmed(pre) + r),
            o => o,
        }),
    decreases pre.len(),
{
    if pre.len() == 0 {
        assert(pre + rest =~= rest);
        match expand_lines(fs, rest, cur, fuel) {
            OutcomeView::Done(r) => {
                assert(flatten_trimmed(pre) + r =~= r);
            },
            _ => {},
        }
    } else {
        let all = pre + rest;
        assert(all[0] == pre[0]);
        assert(all.drop_first() =~= pre.drop_first() + rest);
        assert(no_directives(pre.drop_first())) by {
            assert(forall|i: int|
                0 <= i < pre.drop_first().len() ==> pre.drop_first()[i] == pre[i + 1]);
        }
        lemma_plain_prefix(fs, pre.drop_first(), rest, cur, fuel);
        match expand_lines(fs, rest, cur, fuel) {
            OutcomeView::Done(r) => {
                assert(trim_spec(pre[0]) + seq!['\n'] + (flatten_trimmed(pre.drop_first()) + r)
                    =~= flatten_trimmed(pre) + r);
            },
            _ => {},
        }
    }
}

/// A file with no directive lines expands to exactly its lines trimmed,
/// one line break after each.
pub proof fn lemma_no_directives_expands_plainly(
    fs: Map<Seq<char>, FileView>,
    path: Seq<char>,
    t: Seq<char>,
    fuel: nat,
)
    requires
        fuel >= 1,
        fs.dom().contains(path),
        fs[path] == FileView::Text(t),
        no_directives(split_lines_spec(t)),
    ensures
        expand(fs, path, fuel) == OutcomeView::Done(flatten_trimmed(split_lines_spec(t))),
{
    let lines = split_lines_spec(t);
    lemma_plain_prefix(fs, lines, Seq::empty(), path, (fuel - 1) as nat);
    assert(lines + Seq::<Seq<char>>::empty() =~= lines);
    assert(flatten_trimmed(lines) + Seq::<char>::empty() =~= flatten_trimmed(lines));
}

/// A file of plain lines around one directive line expands to the plain
/// lines trimmed, with the included file's expansion and one more line
/// break standing in place of the directive line.
pub proof fn lemma_include_line(
    fs: Map<Seq<char>, FileView>,
    path: Seq<char>,
    t: Seq<char>,
    pre: Seq<Seq<char>>,
    d: Seq<char>,
    post: Seq<Seq<char>>,
    arg: Seq<char>,
    inc: Seq<char>,
    fuel: nat,
)
    requires
        fuel >= 1,
        fs.dom().contains(path),
        fs[path] == FileView::Text(t),
        split_lines_spec(t) == pre + seq![d] + post,
        no_directives(pre),
        no_directives(post),
        is_directive(trim_spec(d)),
        directive_arg(trim_spec(d)) == Some(arg),
        fs.dom().contains(resolve_spec(path, arg)),
        !(fs[resolve_spec(path, arg)] is Absent),
        expand(fs, resolve_spec(path, arg), (fuel - 1) as nat) == OutcomeView::Done(inc),
    ensures
        expand(fs, path, fuel) == OutcomeView::Done(
            flatten_trimmed(pre) + (inc + seq!['\n']) + flatten_trimmed(post),
        ),
{
    let f1 = (fuel - 1) as nat;
    let tail = seq![d] + post;
    assert(pre + seq![d] + post =~= pre + tail);
    lemma_plain_prefix(fs, pre, tail, path, f1);
    assert(tail[0] == d);
    assert(tail.drop_first() =~= post);
    lemma_plain_prefix(fs, post, Seq::empty(), path, f1);
    assert(post + Seq::<Seq<char>>::empty() =~= post);
    assert(flatten_trimmed(post) + Seq::<char>::empty() =~= flatten_trimmed(post));
    assert(expand_lines(fs, tail, path, f1) == OutcomeView::Done(
        inc + seq!['\n'] + flatten_trimmed(post),
    ));
    assert(flatten_trimmed(pre) + (inc + seq!['\n'] + flatten_trimmed(post)) =~= flatten_trimmed(
        pre,
    ) + (inc + seq!['\n']) + flatten_trimmed(post));
}

/// One include of a directive-free file: the output is the surrounding
/// lines trimmed, with the included file's trimmed lines and one extra
/// blank line in place of the directive line.
pub proof fn lemma_single_include(
    fs: Map<Seq<char>, FileView>,
    path: Seq<char>,
    t: Seq<char>,
    pre: Seq<Seq<char>>,
    d: Seq<char>,
    post: Seq<Seq<char>>,
    arg: Seq<char>,
    b: Seq<char>,
    fuel: nat,
)
    requires
        fuel >= 2,
        fs.dom().contains(path),
        fs[path] == FileView::Text(t),
        split_lines_spec(t) == pre + seq![d] + post,
        no_directives(pre),
        no_directives(post),
        is_directive(trim_spec(d)),
        directive_arg(trim_spec(d)) == Some(arg),
        fs.dom().contains(resolve_spec(path, arg)),
        fs[resolve_spec(path, arg)] == FileView::Text(b),
        no_directives(split_lines_spec(b)),
    ensures
        expand(fs, path, fuel) == OutcomeView::Done(
            flatten_trimmed(pre) + (flatten_trimmed(split_lines_spec(b)) + seq!['\n'])
                + flatten_trimmed(post),
        ),
{
    lemma_no_directives_expands_plainly(fs, resolve_spec(path, arg), b, (fuel - 1) as nat);
    lemma_include_line(
        fs,
        path,
        t,
        pre,
        d,
        post,
        arg,
        flatten_trimmed(split_lines_spec(b)),
        fuel,
    );
}

/// Nested includes expand transitively: when the first file includes a
/// second and the second includes a third, the third file's expansion
/// stands inside the second's, which stands inside the first's.
pub proof fn lemma_nested_include(
    fs: Map<Seq<char>, FileView>,
    path_a: Seq<char>,
    ta: Seq<char>,
    pre_a: Seq<Seq<char>>,
    da: Seq<char>,
    post_a: Seq<Seq<char>>,
    arg_a: Seq<char>,
    tb: Seq<char>,
    pre_b: Seq<Seq<char>>,
    db: Seq<char>,
    post_b: Seq<Seq<char>>,
    arg_b: Seq<char>,
    tc: Seq<char>,
    fuel: nat,
)
    requires
        fuel >= 3,
        fs.dom().contains(path_a),
        fs[path_a] == FileView::Text(ta),
        split_lines_spec(ta) == pre_a + seq![da] + post_a,
        no_directives(pre_a),
        no_directives(post_a),
        is_directive(trim_spec(da)),
        directive_arg(trim_spec(da)) == Some(arg_a),
        fs.dom().contains(resolve_spec(path_a, arg_a)),
        fs[resolve_spec(path_a, arg_a)] == FileView::Text(tb),
        split_lines_spec(tb) == pre_b + seq![db] + post_b,
        no_directives(pre_b),
        no_directives(post_b),
        is_directive(trim_spec(db)),
        directive_arg(trim_spec(db)) == Some(arg_b),
        fs.dom().contains(resolve_spec(resolve_spec(path_a, arg_a), arg_b)),
        fs[resolve_spec(resolve_spec(path_a, arg_a), arg_b)] == FileView::Text(tc),
        no_directives(split_lines_spec(tc)),
    ensures
        expand(fs, path_a, fuel) == OutcomeView::Done(
            flatten_trimmed(pre_a) + ((flatten_trimmed(pre_b) + ((flatten_trimmed(
                split_lines_spec(tc),
            ) + seq!['\n']) + flatten_trimmed(post_b)) + seq!['\n']) + flatten_trimmed(post_a)),
        ),
{
    let path_b = resolve_spec(path_a, arg_a);
    let inc_b = flatten_trimmed(pre_b) + (flatten_trimmed(split_lines_spec(tc)) + seq!['\n'])
        + flatten_trimmed(post_b);
    lemma_single_include(
        fs,
        path_b,
        tb,
        pre_b,
        db,
        post_b,
        arg_b,
        tc,
        (fuel - 1) as nat,
    );
    lemma_include_line(fs, path_a, ta, pre_a, da, post_a, arg_a, inc_b, fuel);
    assert(flatten_trimmed(pre_a) + (inc_b + seq!['\n']) + flatten_trimmed(post_a)
        =~= flatten_trimmed(pre_a) + ((flatten_trimmed(pre_b) + ((flatten_trimmed(
        split_lines_spec(tc),
    ) + seq!['\n']) + flatten_trimmed(post_b)) + seq!['\n']) + flatten_trimmed(post_a)));
}

/// Resolution is relative to the includer's directory, not to any working
/// directory: a file directly under `dir` resolves its argument under
/// `dir` as well.
pub proof fn lemma_resolution_relative(dir: Seq<char>, name: Seq<char>, arg: Seq<char>)
    requires
        forall|j: int| 0 <= j < name.len() ==> name[j] != '/',
        arg.len() > 0 ==> arg[0] != '/',
        dir != seq!['/'],
    ensures
        resolve_spec(dir + seq!['/'] + name, arg) == dir + seq!['/'] + arg,
{
    let cur = dir + seq!['/'] + name;
    assert(cur[dir.len() as int] == '/');
    assert forall|j: int| dir.len() < j < cur.len() implies cur[j] != '/' by {
        assert(cur[j] == name[j - dir.len() - 1]);
    }
    lemma_last_slash_at(cur, dir.len() as int);
    if dir.len() == 0 {
        assert(parent_spec(cur) == seq!['/']);
        assert(seq!['/'] + arg =~= dir + seq!['/'] + arg);
    } else {
        assert(cur.take(dir.len() as int) =~= dir);
        assert(parent_spec(cur) == dir);
        assert(dir + seq!['/'] + arg == parent_spec(cur) + seq!['/'] + arg);
    }
}

/// A directive line with fewer than two double quotes fails with a syntax
/// error carrying exactly the trimmed line text.
pub proof fn lemma_syntax_error_payload(
    fs: Map<Seq<char>, FileView>,
    path: Seq<char>,
    t: Seq<char>,
    pre: Seq<Seq<char>>,
    d: Seq<char>,
    post: Seq<Seq<char>>,
    fuel: nat,
)
    requires
        fuel >= 1,
        fs.dom().contains(path),
        fs[path] == FileView::Text(t),
        split_lines_spec(t) == pre + seq![d] + post,
        no_directives(pre),
        is_directive(trim_spec(d)),
        directive_arg(trim_spec(d)) is None,
    ensures
        expand(fs, path, fuel) == OutcomeView::Failed(
            ErrView::InvalidIncludeSyntax(trim_spec(d)),
        ),
{
    let f1 = (fuel - 1) as nat;
    let tail = seq![d] + post;
    assert(pre + seq![d] + post =~= pre + tail);
    lemma_plain_prefix(fs, pre, tail, path, f1);
    assert(tail[0] == d);
}

/// A well-formed directive naming an absent file fails with a not-found
/// error carrying exactly the argument as written, not the resolved path.
pub proof fn lemma_not_found_payload(
    fs: Map<Seq<char>, FileView>,
    path: Seq<char>,
    t: Seq<char>,
    pre: Seq<Seq<char>>,
    d: Seq<char>,
    post: Seq<Seq<char>>,
    arg: Seq<char>,
    fuel: nat,
)
    requires
        fuel >= 1,
        fs.dom().contains(path),
        fs[path] == FileView::Text(t),
        split_lines_spec(t) == pre + seq![d] + post,
        no_directives(pre),
        is_directive(trim_spec(d)),
        directive_arg(trim_spec(d)) == Some(arg),
        fs.dom().contains(resolve_spec(path, arg)),
        fs[resolve_spec(path, arg)] == FileView::Absent,
    ensures
        expand(fs, path, fuel) == OutcomeView::Failed(ErrView::IncludeNotFound(arg)),
{
    let f1 = (fuel - 1) as nat;
    let tail = seq![d] + post;
    assert(pre + seq![d] + post =~= pre + tail);
    lemma_plain_prefix(fs, pre, tail, path, f1);
    assert(tail[0] == d);
}

/// Every line trimmed.
pub open spec fn trim_all(lines: Seq<Seq<char>>) -> Seq<Seq<char>> {
    Seq::new(lines.len(), |i: int| trim_spec(lines[i]))
}

/// Splitting a flattened output recovers exactly the trimmed lines.
proof fn lemma_split_flatten(ls: Seq<Seq<char>>)
    requires
        forall|i: int, j: int| 0 <= i < ls.len() && 0 <= j < ls[i].len() ==> ls[i][j] != '\n',
    ensures
        split_lines_spec(flatten_trimmed(ls)) == trim_all(ls),
    decreases ls.len(),
{
    if ls.len() == 0 {
        assert(trim_all(ls) =~= Seq::<Seq<char>>::empty());
    } else {
        let l = trim_spec(ls[0]);
        lemma_trim_no_char(ls[0], '\n');
        lemma_split_lines_cons(l, flatten_trimmed(ls.drop_first()));
        assert(forall|i: int, j: int|
            0 <= i < ls.drop_first().len() && 0 <= j < ls.drop_first()[i].len()
                ==> ls.drop_first()[i][j] != '\n');
        lemma_split_flatten(ls.drop_first());
        assert(trim_all(ls) =~= seq![l] + trim_all(ls.drop_first()));
    }
}

/// Re-trimming already-trimmed lines changes nothing in the flattening.
proof fn lemma_flatten_trim_all(ls: Seq<Seq<char>>)
    ensures
        flatten_trimmed(trim_all(ls)) == flatten_trimmed(ls),
    decreases ls.len(),
{
    if ls.len() > 0 {
        lemma_trim_idempotent(ls[0]);
        assert(trim_all(ls)[0] == trim_spec(ls[0]));
        assert(trim_all(ls).drop_first() =~= trim_all(ls.drop_first()));
        lemma_flatten_trim_all(ls.drop_first());
    }
}

/// Preprocessing a directive-free file is idempotent: handing its output
/// back as a file of its own expands to that same output, the lines being
/// already trimmed.
pub proof fn lemma_expand_idempotent(
    fs: Map<Seq<char>, FileView>,
    path: Seq<char>,
    t: Seq<char>,
    fs2: Map<Seq<char>, FileView>,
    path2: Seq<char>,
    fuel: nat,
    fuel2: nat,
)
    requires
        fuel >= 1,
        fuel2 >= 1,
        fs.dom().contains(path),
        fs[path] == FileView::Text(t),
        no_directives(split_lines_spec(t)),
        fs2.dom().contains(path2),
        fs2[path2] == FileView::Text(flatten_trimmed(split_lines_spec(t))),
    ensures
        expand(fs, path, fuel) == OutcomeView::Done(flatten_trimmed(split_lines_spec(t))),
        expand(fs2, path2, fuel2) == expand(fs, path, fuel),
{
    let ls = split_lines_spec(t);
    lemma_no_directives_expands_plainly(fs, path, t, fuel);
    lemma_split_lines_no_newline(t);
    lemma_split_flatten(ls);
    assert(no_directives(trim_all(ls))) by {
        assert forall|i: int| 0 <= i < trim_all(ls).len() implies !is_directive(
            trim_spec(trim_all(ls)[i]),
        ) by {
            lemma_trim_idempotent(ls[i]);
        }
    }
    lemma_flatten_trim_all(ls);
    lemma_no_directives_expands_plainly(fs2, path2, flatten_trimmed(ls), fuel2);
}

/// Fuel only cuts runs short, never changes them: a run that does not end
/// in [`OutcomeView::DepthExceeded`] comes to the same outcome with any
/// more fuel. So a deep-enough cap is canonical, and exceeding one can
/// only mean the expansion never bottoms out.
pub proof fn lemma_expand_fuel_monotone(
    fs: Map<Seq<char>, FileView>,
    path: Seq<char>,
    f1: nat,
    f2: nat,
)
    requires
        f1 <= f2,
        !(expand(fs, path, f1) is DepthExceeded),
    ensures
        expand(fs, path, f2) == expand(fs, path, f1),
    decreases f1, 0int,
{
    if fs.dom().contains(path) {
        match fs[path] {
            FileView::Text(t) => {
                lemma_expand_lines_fuel_monotone(
                    fs,
                    split_lines_spec(t),
                    path,
                    (f1 - 1) as nat,
                    (f2 - 1) as nat,
                );
            },
            _ => {},
        }
    }
}

/// As [`lemma_expand_fuel_monotone`], for the lines of one file.
pub proof fn lemma_expand_lines_fuel_monotone(
    fs: Map<Seq<char>, FileView>,
    lines: Seq<Seq<char>>,
    cur: Seq<char>,
    f1: nat,
    f2: nat,
)
    requires
        f1 <= f2,
        !(expand_lines(fs, lines, cur, f1) is DepthExceeded),
    ensures
        expand_lines(fs, lines, cur, f2) == expand_lines(fs, lines, cur, f1),
    decreases f1, lines.len() + 1,
{
    if lines.len() > 0 {
        let l = trim_spec(lines[0]);
        if !is_directive(l) {
            lemma_expand_lines_fuel_monotone(fs, lines.drop_first(), cur, f1, f2);
        } else {
            match directive_arg(l) {
                None => {},
                Some(arg) => {
                    let full = resolve_spec(cur, arg);
                    if fs.dom().contains(full) && !(fs[full] is Absent) {
                        lemma_expand_fuel_monotone(fs, full, f1, f2);
                        match expand(fs, full, f1) {
                            OutcomeView::Done(inc) => {
                                lemma_expand_lines_fuel_monotone(
                                    fs,
                                    lines.drop_first(),
                                    cur,
                                    f1,
                                    f2,
                                );
                            },
                            _ => {},
                        }
                    }
                },
            }
        }
    }
}

} // verus!
