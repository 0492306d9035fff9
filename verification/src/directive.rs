//! Recognising the `#insert` directive and extracting its quoted argument.

use vstd::prelude::*;
use crate::text::{find_char, lemma_find_char_at};

verus! {

/// The keyword that opens an include directive.
pub open spec fn insert_keyword() -> Seq<char> {
    seq!['#', 'i', 'n', 's', 'e', 'r', 't']
}

/// A trimmed line is a directive when it starts with the keyword.
pub open spec fn is_directive(line: Seq<char>) -> bool {
    line.len() >= 7 && line.take(7) == insert_keyword()
}

/// Decides [`is_directive`] at run time.
pub fn check_directive(line: &str) -> (r: bool)
    ensures
        r == is_directive(line@),
{
    let n = line.unicode_len();
    if n < 7 {
        return false;
    }
    let r = line.get_char(0) == '#' && line.get_char(1) == 'i' && line.get_char(2) == 'n'
        && line.get_char(3) == 's' && line.get_char(4) == 'e' && line.get_char(5) == 'r'
        && line.get_char(6) == 't';
    proof {
        assert(forall|j: int| 0 <= j < 7 ==> line@.take(7)[j] == line@[j]);
        if r {
            assert(line@.take(7) =~= insert_keyword());
        } else if line@.take(7) == insert_keyword() {
            assert(line@[0] == insert_keyword()[0]);
            assert(line@[1] == insert_keyword()[1]);
            assert(line@[2] == insert_keyword()[2]);
            assert(line@[3] == insert_keyword()[3]);
            assert(line@[4] == insert_keyword()[4]);
            assert(line@[5] == insert_keyword()[5]);
            assert(line@[6] == insert_keyword()[6]);
            assert(false);
        }
    }
    r
}

/// The text strictly between the first two double quotes of `line`, or
/// `None` when the line has fewer than two quotes.
pub open spec fn directive_arg(line: Seq<char>) -> Option<Seq<char>> {
    let q1 = find_char(line, '"') as int;
    if q1 >= line.len() {
        None
    } else {
        let rest = line.skip(q1 + 1);
        let q2 = find_char(rest, '"') as int;
        if q2 >= rest.len() {
            None
        } else {
            Some(rest.take(q2))
        }
    }
}

/// Extracts the quoted argument, as [`directive_arg`] describes.
pub fn parse_directive_arg(line: &str) -> (r: Option<String>)
    ensures
        r.deep_view() == directive_arg(line@),
{
    let n = line.unicode_len();
    let mut q1: usize = 0;
    while q1 < n && line.get_char(q1) != '"'
        invariant
            q1 <= n,
            n == line@.len(),
            forall|j: int| 0 <= j < q1 ==> line@[j] != '"',
        decreases n - q1,
    {
        q1 = q1 + 1;
    }
    proof {
        lemma_find_char_at(line@, '"', q1 as int);
    }
    if q1 >= n {
        return None;
    }
    let mut q2: usize = q1 + 1;
    while q2 < n && line.get_char(q2) != '"'
        invariant
            q1 + 1 <= q2 <= n,
            n == line@.len(),
            forall|j: int| q1 + 1 <= j < q2 ==> line@[j] != '"',
        decreases n - q2,
    {
        q2 = q2 + 1;
    }
    proof {
        let rest = line@.skip(q1 + 1);
        assert forall|j: int| 0 <= j < q2 - q1 - 1 implies rest[j] != '"' by {
            assert(rest[j] == line@[j + q1 + 1]);
        }
        if q2 < n {
            assert(rest[q2 - q1 - 1] == line@[q2 as int]);
        }
        lemma_find_char_at(rest, '"', q2 - q1 - 1);
    }
    if q2 >= n {
        return None;
    }
    let arg = line.substring_char(q1 + 1, q2).to_owned();
    proof {
        assert(arg@ =~= line@.skip(q1 + 1).take(q2 - q1 - 1));
    }
    Some(arg)
}

} // verus!
