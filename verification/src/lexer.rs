//! The tokens of expressions: spaces, names, numbers, strings, literals
//! and variable accesses, read from the characters of the text.
use vstd::prelude::*;
use crate::text::{all_digits, chars_to_string, digits_to_u64, digits_value, is_digit, lit, parse_i64, push_char};
use crate::value::{SValue, Value};
use crate::errors::ErrorKind;
use crate::float::FloatSupport;
use crate::var::{SVarName, VarAccess, VarName};
use crate::grammar::{
    PErr, alnum_end, alpha_end, char_at, digit_end, index_overflows, is_alnum, is_keyword, is_space, p_double,
    p_index, p_integer, p_literal, p_name, p_quoted, p_string, p_var, p_var_item, p_var_rest, quoted_end,
    sign_end, some_digit_start, some_index_overflows, space_end, tag_at, unescape, var_names, white_end,
    whitespace, alphabetic, is_alphabetic_char, is_whitespace_char,
};

verus! {

broadcast use vstd::string::group_string_axioms;

/// A failure of parsing.
#[derive(Debug)]
pub enum ParseFail {
    Error(usize, ErrorKind),
    Stop,
}

impl View for ParseFail {
    type V = PErr;

    open spec fn view(&self) -> PErr {
        match *self {
            ParseFail::Error(i, k) => PErr::Error(i as int, k),
            ParseFail::Stop => PErr::Stop,
        }
    }
}

/// The first position at or after `i` that does not hold a space.
pub fn space_end_exec(s: &Vec<char>, i: usize) -> (r: usize)
    requires
        i <= s@.len(),
    ensures
        r == space_end(s@, i as int),
        i <= r <= s@.len(),
{
    let mut j = i;
    while j < s.len() && (s[j] == ' ' || s[j] == '\t' || s[j] == '\r' || s[j] == '\n')
        invariant
            i <= j <= s@.len(),
            space_end(s@, i as int) == space_end(s@, j as int),
        decreases s@.len() - j,
    {
        j = j + 1;
    }
    j
}

/// The first position at or after `i` that does not hold whitespace.
pub fn white_end_exec(s: &Vec<char>, i: usize) -> (r: usize)
    requires
        i <= s@.len(),
    ensures
        r == white_end(s@, i as int),
        i <= r <= s@.len(),
{
    let mut j = i;
    while j < s.len() && is_whitespace_char(s[j])
        invariant
            i <= j <= s@.len(),
            white_end(s@, i as int) == white_end(s@, j as int),
        decreases s@.len() - j,
    {
        j = j + 1;
    }
    j
}

/// The first position at or after `i` that does not hold an ASCII letter or
/// digit.
pub fn alnum_end_exec(s: &Vec<char>, i: usize) -> (r: usize)
    requires
        i <= s@.len(),
    ensures
        r == alnum_end(s@, i as int),
        i <= r <= s@.len(),
{
    let mut j = i;
    while j < s.len() && (('a' <= s[j] && s[j] <= 'z') || ('A' <= s[j] && s[j] <= 'Z') || ('0' <= s[j] && s[j] <= '9'))
        invariant
            i <= j <= s@.len(),
            alnum_end(s@, i as int) == alnum_end(s@, j as int),
        decreases s@.len() - j,
    {
        j = j + 1;
    }
    j
}

/// The first position at or after `i` that does not hold a letter.
pub fn alpha_end_exec(s: &Vec<char>, i: usize) -> (r: usize)
    requires
        i <= s@.len(),
    ensures
        r == alpha_end(s@, i as int),
        i <= r <= s@.len(),
{
    let mut j = i;
    while j < s.len() && is_alphabetic_char(s[j])
        invariant
            i <= j <= s@.len(),
            alpha_end(s@, i as int) == alpha_end(s@, j as int),
        decreases s@.len() - j,
    {
        j = j + 1;
    }
    j
}

/// The first position at or after `i` that does not hold an ASCII digit.
pub fn digit_end_exec(s: &Vec<char>, i: usize) -> (r: usize)
    requires
        i <= s@.len(),
    ensures
        r == digit_end(s@, i as int),
        i <= r <= s@.len(),
        all_digits(s@.subrange(i as int, r as int)),
{
    let mut j = i;
    while j < s.len() && ('0' <= s[j] && s[j] <= '9')
        invariant
            i <= j <= s@.len(),
            digit_end(s@, i as int) == digit_end(s@, j as int),
            all_digits(s@.subrange(i as int, j as int)),
        decreases s@.len() - j,
    {
        proof {
            assert(s@.subrange(i as int, j + 1) =~= s@.subrange(i as int, j as int).push(s@[j as int]));
        }
        j = j + 1;
    }
    j
}

/// Whether `s` holds `c` at `i`.
pub fn char_at_exec(s: &Vec<char>, i: usize, c: char) -> (r: bool)
    ensures
        r == char_at(s@, i as int, c),
{
    i < s.len() && s[i] == c
}

/// Whether `s` holds the characters of `t` at `i`.
pub fn tag_at_exec(s: &Vec<char>, i: usize, t: &str) -> (r: bool)
    ensures
        r == tag_at(s@, i as int, t@),
{
    let tc = crate::text::str_chars(t);
    let n = s.len();
    if i > n || tc.len() > n - i {
        return false;
    }
    let mut j: usize = 0;
    while j < tc.len()
        invariant
            j <= tc@.len(),
            tc@ == t@,
            i + tc@.len() <= s@.len(),
            n == s@.len(),
            forall|k: int| 0 <= k < j ==> s@[i + k] == tc@[k],
        decreases tc@.len() - j,
    {
        if s[i + j] != tc[j] {
            proof {
                assert(s@.subrange(i as int, i + tc@.len())[j as int] != tc@[j as int]);
            }
            return false;
        }
        j = j + 1;
    }
    proof {
        assert(s@.subrange(i as int, i + tc@.len()) =~= tc@);
    }
    true
}

/// The position after an optional sign.
fn sign_end_exec(s: &Vec<char>, i: usize) -> (r: usize)
    requires
        i <= s@.len(),
    ensures
        r == sign_end(s@, i as int),
        i <= r <= s@.len(),
{
    let n = s.len();
    if char_at_exec(s, i, '+') || char_at_exec(s, i, '-') {
        i + 1
    } else {
        i
    }
}

/// A decimal number with a fraction.
fn p_double_exec<P, T, D, I>(s: &Vec<char>, i: usize, fs: &FloatSupport<P, T, D, I>) -> (r: Result<(Value, usize), ParseFail>) where
    P: Fn(&str) -> Option<u64>,
    T: Fn(u64) -> String,
    D: Fn(u64) -> String,
    I: Fn(i64) -> u64,

    requires
        fs.wf(),
        i <= s@.len(),
    ensures
        match p_double(s@, i as int, fs.spec().parse) {
            Ok((v, j)) => r matches Ok((x, k)) && x@ == v && k == j && k <= s@.len(),
            Err(e) => r matches Err(f) && f@ == e,
        },
{
    let n = s.len();
    let a = sign_end_exec(s, i);
    let b = digit_end_exec(s, a);
    if b == a {
        return Err(ParseFail::Error(a, ErrorKind::Digit));
    }
    if !char_at_exec(s, b, '.') {
        return Err(ParseFail::Error(b, ErrorKind::Tag));
    }
    let c = digit_end_exec(s, b + 1);
    if c == b + 1 {
        return Err(ParseFail::Error(b + 1, ErrorKind::Digit));
    }
    let text = chars_to_string(s, i, c);
    match fs.parse_float(text.as_str()) {
        Some(f) => Ok((Value::Float(f), space_end_exec(s, c))),
        None => Err(ParseFail::Error(i, ErrorKind::MapRes)),
    }
}

/// An integer.
fn p_integer_exec(s: &Vec<char>, i: usize) -> (r: Result<(Value, usize), ParseFail>)
    requires
        i <= s@.len(),
    ensures
        match p_integer(s@, i as int) {
            Ok((v, j)) => r matches Ok((x, k)) && x@ == v && k == j && k <= s@.len(),
            Err(e) => r matches Err(f) && f@ == e,
        },
{
    let a = sign_end_exec(s, i);
    let b = digit_end_exec(s, a);
    if b == a {
        return Err(ParseFail::Error(a, ErrorKind::Digit));
    }
    let text = chars_to_string(s, i, b);
    match parse_i64(text.as_str()) {
        Some(v) => Ok((Value::Int(v), space_end_exec(s, b))),
        None => Err(ParseFail::Error(i, ErrorKind::MapRes)),
    }
}

/// The end of the content of a string quoted by `q`.
fn quoted_end_exec(s: &Vec<char>, j: usize, q: char) -> (r: Option<usize>)
    requires
        j <= s@.len(),
    ensures
        match quoted_end(s@, j as int, q) {
            Some(k) => r == Some(k as usize) && j <= k <= s@.len(),
            None => r is None,
        },
{
    let mut k = j;
    while k < s.len() && s[k] != q
        invariant
            j <= k <= s@.len(),
            quoted_end(s@, j as int, q) == quoted_end(s@, k as int, q),
        decreases s@.len() - k,
    {
        if s[k] == '\\' {
            if k + 1 >= s.len() {
                return None;
            }
            if s[k + 1] == q {
                k = k + 2;
            } else {
                return None;
            }
        } else {
            k = k + 1;
        }
    }
    Some(k)
}

/// The content `s[from..to]` with escaped quotes unescaped.
fn unescape_exec(s: &Vec<char>, from: usize, to: usize, q: char) -> (r: String)
    requires
        from <= to <= s@.len(),
    ensures
        r@ == unescape(s@.subrange(from as int, to as int), q),
{
    let mut out = String::new();
    let mut k = from;
    while k < to
        invariant
            from <= k <= to <= s@.len(),
            unescape(s@.subrange(from as int, to as int), q) == out@ + unescape(s@.subrange(k as int, to as int), q),
        decreases to - k,
    {
        let ghost t = s@.subrange(k as int, to as int);
        if s[k] == '\\' && k + 1 < to && s[k + 1] == q {
            proof {
                assert(t[0] == '\\' && t[1] == q);
                assert(t.skip(2) =~= s@.subrange(k + 2, to as int));
                assert(out@ + (seq![q] + unescape(t.skip(2), q)) =~= out@.push(q) + unescape(t.skip(2), q));
            }
            push_char(&mut out, q);
            k = k + 2;
        } else {
            proof {
                assert(t[0] == s@[k as int]);
                assert(t.skip(1) =~= s@.subrange(k + 1, to as int));
                assert(out@ + (seq![t[0]] + unescape(t.skip(1), q)) =~= out@.push(t[0]) + unescape(t.skip(1), q));
            }
            push_char(&mut out, s[k]);
            k = k + 1;
        }
    }
    proof {
        assert(s@.subrange(to as int, to as int) =~= Seq::<char>::empty());
        assert(out@ + Seq::<char>::empty() =~= out@);
    }
    out
}

/// A string quoted by `q`.
fn p_quoted_exec(s: &Vec<char>, i: usize, q: char) -> (r: Result<(String, usize), ParseFail>)
    requires
        i <= s@.len(),
    ensures
        match p_quoted(s@, i as int, q) {
            Ok((t, j)) => r matches Ok((x, k)) && x@ == t && k == j && k <= s@.len(),
            Err(e) => r matches Err(f) && f@ == e,
        },
{
    let n = s.len();
    if !char_at_exec(s, i, q) {
        return Err(ParseFail::Error(i, ErrorKind::Char));
    }
    match quoted_end_exec(s, i + 1, q) {
        Some(j) => {
            if char_at_exec(s, j, q) {
                Ok((unescape_exec(s, i + 1, j, q), j + 1))
            } else {
                Err(ParseFail::Error(j, ErrorKind::Char))
            }
        },
        None => Err(ParseFail::Error(i + 1, ErrorKind::Char)),
    }
}

/// A string in single or double quotes.
pub fn p_string_exec(s: &Vec<char>, i: usize) -> (r: Result<(String, usize), ParseFail>)
    requires
        i <= s@.len(),
    ensures
        match p_string(s@, i as int) {
            Ok((t, j)) => r matches Ok((x, k)) && x@ == t && k == j && k <= s@.len(),
            Err(e) => r matches Err(f) && f@ == e,
        },
{
    match p_quoted_exec(s, i, '\'') {
        Ok(r) => Ok(r),
        Err(_) => p_quoted_exec(s, i, '"'),
    }
}

/// A literal.
pub fn p_literal_exec<P, T, D, I>(s: &Vec<char>, i: usize, fs: &FloatSupport<P, T, D, I>) -> (r: Result<(Value, usize), ParseFail>) where
    P: Fn(&str) -> Option<u64>,
    T: Fn(u64) -> String,
    D: Fn(u64) -> String,
    I: Fn(i64) -> u64,

    requires
        fs.wf(),
        i <= s@.len(),
    ensures
        match p_literal(s@, i as int, fs.spec().parse) {
            Ok((v, j)) => r matches Ok((x, k)) && x@ == v && k == j && k <= s@.len(),
            Err(e) => r matches Err(f) && f@ == e,
        },
{
    match p_double_exec(s, i, fs) {
        Ok(r) => return Ok(r),
        Err(_) => {},
    }
    match p_integer_exec(s, i) {
        Ok(r) => return Ok(r),
        Err(_) => {},
    }
    let n = s.len();
    proof {
        reveal_strlit("true");
        reveal_strlit("false");
        reveal_strlit("null");
    }
    if tag_at_exec(s, i, "true") {
        return Ok((Value::Bool(true), space_end_exec(s, i + 4)));
    }
    if tag_at_exec(s, i, "false") {
        return Ok((Value::Bool(false), space_end_exec(s, i + 5)));
    }
    if tag_at_exec(s, i, "null") {
        return Ok((Value::Null, space_end_exec(s, i + 4)));
    }
    match p_string_exec(s, i) {
        Ok((t, j)) => Ok((Value::String(t), space_end_exec(s, j))),
        Err(e) => Err(e),
    }
}

/// A name.
fn p_name_exec(s: &Vec<char>, i: usize) -> (r: Result<(String, usize), ParseFail>)
    requires
        i <= s@.len(),
    ensures
        match p_name(s@, i as int) {
            Ok((w, j)) => r matches Ok((x, k)) && x@ == w && k == j && i < k <= s@.len(),
            Err(e) => r matches Err(f) && f@ == e,
        },
{
    let j = alnum_end_exec(s, i);
    if j == i {
        return Err(ParseFail::Error(i, ErrorKind::MapRes));
    }
    let w = chars_to_string(s, i, j);
    proof {
        reveal_strlit("true");
        reveal_strlit("false");
        reveal_strlit("null");
    }
    let ws = w.as_str();
    if crate::text::str_eq(ws, "true") || crate::text::str_eq(ws, "false") || crate::text::str_eq(ws, "null") {
        return Err(ParseFail::Error(i, ErrorKind::MapRes));
    }
    Ok((w, j))
}

/// An optional index: its digits' span and the position after it.
fn p_index_exec(s: &Vec<char>, i: usize) -> (r: Option<(usize, usize, usize)>)
    requires
        i <= s@.len(),
    ensures
        match p_index(s@, i as int) {
            Some((d, k)) => r matches Some((a, b, x)) && a <= b <= s@.len() && s@.subrange(a as int, b as int) == d
                && x == k && i < x <= s@.len() && all_digits(d),
            None => r is None,
        },
{
    let n = s.len();
    if !char_at_exec(s, i, '[') {
        return None;
    }
    let a = space_end_exec(s, i + 1);
    let b = digit_end_exec(s, a);
    let c = space_end_exec(s, b);
    if b > a && char_at_exec(s, c, ']') {
        Some((a, b, space_end_exec(s, c + 1)))
    } else {
        None
    }
}

/// An item read: a name and an optional index's digits' span.
pub struct VarItem {
    pub name: String,
    pub index: Option<(usize, usize)>,
}

/// The model of an item, with the digits read from `s`.
pub open spec fn item_model(it: VarItem, s: Seq<char>) -> (Seq<char>, Option<Seq<char>>) {
    (it.name@, match it.index {
        Some((a, b)) => Some(s.subrange(a as int, b as int)),
        None => None,
    })
}

/// Whether an item's digits lie in `s` and are digits.
pub open spec fn item_ok(it: VarItem, s: Seq<char>) -> bool {
    it.name@.len() > 0 && match it.index {
        Some((a, b)) => a <= b <= s.len() && all_digits(s.subrange(a as int, b as int)),
        None => true,
    }
}

/// A name with an optional index.
fn p_var_item_exec(s: &Vec<char>, i: usize) -> (r: Result<(VarItem, usize), ParseFail>)
    requires
        i <= s@.len(),
    ensures
        match p_var_item(s@, i as int) {
            Ok((it, j)) => r matches Ok((x, k)) && item_model(x, s@) == it && item_ok(x, s@) && k == j && i < k <= s@.len(),
            Err(e) => r matches Err(f) && f@ == e,
        },
{
    match p_name_exec(s, i) {
        Err(e) => Err(e),
        Ok((w, j)) => match p_index_exec(s, j) {
            Some((a, b, k)) => Ok((VarItem { name: w, index: Some((a, b)) }, k)),
            None => Ok((VarItem { name: w, index: None }, j)),
        },
    }
}

/// A variable access.
pub fn p_var_exec(s: &Vec<char>, i: usize) -> (r: Result<(VarAccess, usize), ParseFail>)
    requires
        i <= s@.len(),
    ensures
        match p_var(s@, i as int) {
            Ok((names, j)) => r matches Ok((x, k)) && x@ == names && k == j && k <= s@.len(),
            Err(e) => r matches Err(f) && f@ == e,
        },
{
    let (first, j) = match p_var_item_exec(s, i) {
        Err(e) => {
            return Err(e);
        },
        Ok(r) => r,
    };
    let mut items: Vec<VarItem> = Vec::new();
    items.push(first);
    let ghost sitems = seq![item_model(first, s@)];
    proof {
        assert(items@.map_values(|x: VarItem| item_model(x, s@)) =~= sitems);
    }
    let mut k = j;
    let n = s.len();
    // More items, each after a `.`.
    loop
        invariant
            i < k <= s@.len(),
            n == s@.len(),
            items@.len() > 0,
            forall|m: int| 0 <= m < items@.len() ==> item_ok(#[trigger] items@[m], s@),
            p_var_rest(s@, j as int, seq![item_model(first, s@)]) == p_var_rest(
                s@,
                k as int,
                items@.map_values(|x: VarItem| item_model(x, s@)),
            ),
        ensures
            i < k <= s@.len(),
            items@.len() > 0,
            forall|m: int| 0 <= m < items@.len() ==> item_ok(#[trigger] items@[m], s@),
            p_var_rest(s@, j as int, seq![item_model(first, s@)]) == (
                items@.map_values(|x: VarItem| item_model(x, s@)),
                k as int,
            ),
        decreases s@.len() - k,
    {
        if !char_at_exec(s, k, '.') {
            break;
        }
        match p_var_item_exec(s, k + 1) {
            Err(_) => {
                break;
            },
            Ok((it, m)) => {
                let ghost before = items@.map_values(|x: VarItem| item_model(x, s@));
                items.push(it);
                proof {
                    assert(items@.map_values(|x: VarItem| item_model(x, s@)) =~= before.push(item_model(it, s@)));
                }
                k = m;
            },
        }
    }
    let ghost all = items@.map_values(|x: VarItem| item_model(x, s@));
    // A name that starts with a digit is an error.
    let mut m: usize = 0;
    while m < items.len()
        invariant
            m <= items@.len(),
            all == items@.map_values(|x: VarItem| item_model(x, s@)),
            forall|q: int| 0 <= q < items@.len() ==> item_ok(#[trigger] items@[q], s@),
            forall|q: int| 0 <= q < m ==> !is_digit((#[trigger] all[q]).0[0]),
            p_var_item(s@, i as int) == Ok::<((Seq<char>, Option<Seq<char>>), int), PErr>((item_model(first, s@), j as int)),
            i < j <= s@.len(),
            p_var_rest(s@, j as int, seq![item_model(first, s@)]) == (all, k as int),
        decreases items@.len() - m,
    {
        let c = crate::text::str_chars(items[m].name.as_str());
        proof {
            assert(all[m as int].0 == items@[m as int].name@);
            assert(item_ok(items@[m as int], s@));
        }
        if '0' <= c[0] && c[0] <= '9' {
            proof {
                assert(is_digit(all[m as int].0[0]));
                assert(some_digit_start(all));
            }
            return Err(ParseFail::Error(k, ErrorKind::Digit));
        }
        proof {
            assert(!is_digit(all[m as int].0[0]));
        }
        m = m + 1;
    }
    // Indices that do not fit in `usize` stop the parser.
    let mut names: Vec<VarName> = Vec::new();
    let mut m: usize = 0;
    while m < items.len()
        invariant
            m <= items@.len(),
            all == items@.map_values(|x: VarItem| item_model(x, s@)),
            forall|q: int| 0 <= q < items@.len() ==> item_ok(#[trigger] items@[q], s@),
            forall|q: int| 0 <= q < m ==> !index_overflows((#[trigger] all[q]).1),
            !some_digit_start(all),
            p_var_item(s@, i as int) == Ok::<((Seq<char>, Option<Seq<char>>), int), PErr>((item_model(first, s@), j as int)),
            i < j <= s@.len(),
            p_var_rest(s@, j as int, seq![item_model(first, s@)]) == (all, k as int),
            names@.len() == m,
            forall|q: int| 0 <= q < m ==> #[trigger] names@[q]@ == var_names(all)[q],
        decreases items@.len() - m,
    {
        let item = &items[m];
        proof {
            assert(all[m as int] == item_model(items@[m as int], s@));
            assert(item_ok(items@[m as int], s@));
        }
        let index = match item.index {
            None => None,
            Some((a, b)) => match digits_to_u64(s, a, b, usize::MAX as u64) {
                None => {
                    proof {
                        assert(index_overflows(all[m as int].1));
                        assert(some_index_overflows(all));
                    }
                    return Err(ParseFail::Stop);
                },
                Some(v) => Some(v as usize),
            },
        };
        names.push(VarName::new(item.name.as_str(), index));
        m = m + 1;
    }
    proof {
        assert(!some_digit_start(all));
        assert(!some_index_overflows(all));
        assert(names@.map_values(|n: VarName| n@) =~= var_names(all));
    }
    Ok((VarAccess::new(names), k))
}

} // verus!
