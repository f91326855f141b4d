//! The `NAME=VALUE` arguments that bind variables on the command line.
use vstd::prelude::*;
use crate::text::{chars_to_string, lit, str_chars};
use crate::grammar::{is_whitespace_char, whitespace};

verus! {

broadcast use vstd::string::group_string_axioms;

/// The text without its leading whitespace.
pub open spec fn trim_start(s: Seq<char>) -> Seq<char>
    decreases s.len(),
{
    if s.len() > 0 && whitespace(s[0]) {
        trim_start(s.drop_first())
    } else {
        s
    }
}

/// The text without its trailing whitespace.
pub open spec fn trim_end(s: Seq<char>) -> Seq<char>
    decreases s.len(),
{
    if s.len() > 0 && whitespace(s.last()) {
        trim_end(s.drop_last())
    } else {
        s
    }
}

/// The text without whitespace at either end, as `str::trim` gives it.
pub open spec fn trim(s: Seq<char>) -> Seq<char> {
    trim_end(trim_start(s))
}

/// The position of the first `=`, if any.
pub open spec fn first_eq(s: Seq<char>) -> Option<int>
    decreases s.len(),
{
    if s.len() == 0 {
        None
    } else if s[0] == '=' {
        Some(0)
    } else {
        match first_eq(s.drop_first()) {
            Some(i) => Some(i + 1),
            None => None,
        }
    }
}

/// A `NAME=VALUE` argument: the text before the first `=` and the text
/// after it, each trimmed; without `=` the value is missing.
pub open spec fn var_arg_spec(s: Seq<char>) -> Result<(Seq<char>, Seq<char>), Seq<char>> {
    match first_eq(s) {
        None => Err("Missing variable value"@),
        Some(i) => Ok((trim(s.subrange(0, i)), trim(s.subrange(i + 1, s.len() as int)))),
    }
}

proof fn lemma_first_eq(s: Seq<char>, i: int)
    requires
        0 <= i <= s.len(),
        forall|j: int| 0 <= j < i ==> s[j] != '=',
    ensures
        i < s.len() && s[i] == '=' ==> first_eq(s) == Some(i),
        i == s.len() ==> first_eq(s) is None,
    decreases i,
{
    if i > 0 {
        lemma_first_eq(s.drop_first(), i - 1);
    }
}

proof fn lemma_trim_start_skip(s: Seq<char>, a: int)
    requires
        0 <= a <= s.len(),
        forall|j: int| 0 <= j < a ==> whitespace(#[trigger] s[j]),
    ensures
        trim_start(s) == trim_start(s.subrange(a, s.len() as int)),
    decreases a,
{
    if a > 0 {
        assert(s.drop_first().subrange(a - 1, s.drop_first().len() as int) =~= s.subrange(a, s.len() as int));
        lemma_trim_start_skip(s.drop_first(), a - 1);
    } else {
        assert(s.subrange(0, s.len() as int) =~= s);
    }
}

proof fn lemma_trim_end_cut(s: Seq<char>, b: int)
    requires
        0 <= b <= s.len(),
        forall|j: int| b <= j < s.len() ==> whitespace(#[trigger] s[j]),
    ensures
        trim_end(s) == trim_end(s.subrange(0, b)),
    decreases s.len() - b,
{
    if b < s.len() {
        assert(s.drop_last().subrange(0, b) =~= s.subrange(0, b));
        lemma_trim_end_cut(s.drop_last(), b);
    } else {
        assert(s.subrange(0, b) =~= s);
    }
}

/// `s[from..to]` without whitespace at either end.
fn trimmed(s: &Vec<char>, from: usize, to: usize) -> (r: String)
    requires
        from <= to <= s@.len(),
    ensures
        r@ == trim(s@.subrange(from as int, to as int)),
{
    let ghost t = s@.subrange(from as int, to as int);
    let mut a = from;
    while a < to && is_whitespace_char(s[a])
        invariant
            from <= a <= to <= s@.len(),
            t == s@.subrange(from as int, to as int),
            forall|j: int| from <= j < a ==> whitespace(#[trigger] s@[j]),
        decreases to - a,
    {
        a = a + 1;
    }
    let mut b = to;
    while b > a && is_whitespace_char(s[b - 1])
        invariant
            from <= a <= b <= to <= s@.len(),
            forall|j: int| b <= j < to ==> whitespace(#[trigger] s@[j]),
        decreases b - a,
    {
        b = b - 1;
    }
    proof {
        let u = t.subrange(a - from, t.len() as int);
        assert forall|j: int| 0 <= j < a - from implies whitespace(#[trigger] t[j]) by {
            assert(t[j] == s@[from + j]);
        }
        lemma_trim_start_skip(t, a - from);
        assert(u =~= s@.subrange(a as int, to as int));
        if a < to {
            assert(u[0] == s@[a as int]);
        }
        assert(trim_start(u) == u);
        assert forall|j: int| b - a <= j < u.len() implies whitespace(#[trigger] u[j]) by {
            assert(u[j] == s@[a + j]);
        }
        lemma_trim_end_cut(u, b - a);
        let w = u.subrange(0, b - a);
        assert(w =~= s@.subrange(a as int, b as int));
        if b > a {
            assert(w.last() == s@[b - 1]);
        }
        assert(trim_end(w) == w);
    }
    chars_to_string(s, a, b)
}

/// Reads a `NAME=VALUE` argument: the trimmed name and value, or why the
/// argument is not one.
pub fn parse_var_arg(arg: &str) -> (r: Result<(String, String), String>)
    ensures
        match var_arg_spec(arg@) {
            Ok((n, v)) => r matches Ok((x, y)) && x@ == n && y@ == v,
            Err(e) => r matches Err(x) && x@ == e,
        },
{
    let s = str_chars(arg);
    let mut i: usize = 0;
    while i < s.len() && s[i] != '='
        invariant
            i <= s@.len(),
            s@ == arg@,
            forall|j: int| 0 <= j < i ==> s@[j] != '=',
        decreases s@.len() - i,
    {
        i = i + 1;
    }
    proof {
        lemma_first_eq(s@, i as int);
    }
    if i == s.len() {
        return Err(lit("Missing variable value"));
    }
    let name = trimmed(&s, 0, i);
    let value = trimmed(&s, i + 1, s.len());
    Ok((name, value))
}

} // verus!
