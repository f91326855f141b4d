//! The grammar of expressions, as parsing functions on the characters of
//! the text: each takes a position and gives what it read and the position
//! after it, or the position and kind of the failure.
//!
//! Choices are ordered: the first alternative that succeeds is taken, and
//! when all fail, the failure of the last one is reported. Spaces, tabs,
//! carriage returns and newlines after a token are skipped.
use vstd::prelude::*;
use crate::text::{digits_value, is_digit, parse_i64_spec};
use crate::value::{SValue, insert_all};
use crate::errors::ErrorKind;
use crate::exp::SExp;
use crate::var::SVarName;

verus! {

/// A failure of parsing: the position and kind of the failing step, or a
/// stop, where parsing cannot go on (an index too large for `usize`).
pub enum PErr {
    Error(int, ErrorKind),
    Stop,
}

/// Whether `char::is_alphabetic` holds of a character.
pub uninterp spec fn alphabetic(c: char) -> bool;

/// Whether a character has the Unicode `White_Space` property, which
/// `char::is_whitespace` tests: tab, line feed, vertical tab, form feed,
/// carriage return, space, next line, no-break space, ogham space mark,
/// the spaces from en quad to hair space, line and paragraph separators,
/// narrow no-break space, medium mathematical space and ideographic space.
pub open spec fn whitespace(c: char) -> bool {
    let n = c as u32;
    (0x9 <= n <= 0xd) || n == 0x20 || n == 0x85 || n == 0xa0 || n == 0x1680 || (0x2000 <= n <= 0x200a)
        || n == 0x2028 || n == 0x2029 || n == 0x202f || n == 0x205f || n == 0x3000
}

/// `char::is_alphabetic`: whether the character has the Unicode
/// `Alphabetic` property; named, not stated.
#[verifier::external_body]
pub(crate) fn is_alphabetic_char(c: char) -> (r: bool)
    ensures
        r == alphabetic(c),
{
    c.is_alphabetic()
}

/// `char::is_whitespace`: whether the character has the Unicode
/// `White_Space` property, as [`whitespace`] lists its code points.
#[verifier::external_body]
pub(crate) fn is_whitespace_char(c: char) -> (r: bool)
    ensures
        r == whitespace(c),
{
    c.is_whitespace()
}

/// The characters that the parser skips after a token.
pub open spec fn is_space(c: char) -> bool {
    c == ' ' || c == '\t' || c == '\r' || c == '\n'
}

/// An ASCII letter or digit.
pub open spec fn is_alnum(c: char) -> bool {
    ('a' <= c && c <= 'z') || ('A' <= c && c <= 'Z') || ('0' <= c && c <= '9')
}

/// The first position at or after `i` that does not hold a space.
pub open spec fn space_end(s: Seq<char>, i: int) -> int
    decreases s.len() - i,
{
    if 0 <= i < s.len() && is_space(s[i]) {
        space_end(s, i + 1)
    } else {
        i
    }
}

/// The first position at or after `i` that does not hold whitespace.
pub open spec fn white_end(s: Seq<char>, i: int) -> int
    decreases s.len() - i,
{
    if 0 <= i < s.len() && whitespace(s[i]) {
        white_end(s, i + 1)
    } else {
        i
    }
}

/// The first position at or after `i` that does not hold an ASCII letter or
/// digit.
pub open spec fn alnum_end(s: Seq<char>, i: int) -> int
    decreases s.len() - i,
{
    if 0 <= i < s.len() && is_alnum(s[i]) {
        alnum_end(s, i + 1)
    } else {
        i
    }
}

/// The first position at or after `i` that does not hold a letter.
pub open spec fn alpha_end(s: Seq<char>, i: int) -> int
    decreases s.len() - i,
{
    if 0 <= i < s.len() && alphabetic(s[i]) {
        alpha_end(s, i + 1)
    } else {
        i
    }
}

/// The first position at or after `i` that does not hold an ASCII digit.
pub open spec fn digit_end(s: Seq<char>, i: int) -> int
    decreases s.len() - i,
{
    if 0 <= i < s.len() && is_digit(s[i]) {
        digit_end(s, i + 1)
    } else {
        i
    }
}

/// Whether `s` holds `c` at `i`.
pub open spec fn char_at(s: Seq<char>, i: int, c: char) -> bool {
    0 <= i < s.len() && s[i] == c
}

/// Whether `s` holds `t` at `i`.
pub open spec fn tag_at(s: Seq<char>, i: int, t: Seq<char>) -> bool {
    0 <= i && i + t.len() <= s.len() && s.subrange(i, i + t.len()) == t
}

/// The position after an optional sign.
pub open spec fn sign_end(s: Seq<char>, i: int) -> int {
    if char_at(s, i, '+') || char_at(s, i, '-') {
        i + 1
    } else {
        i
    }
}

/// A decimal number with a fraction: sign, digits, `.`, digits.
pub open spec fn p_double(s: Seq<char>, i: int, parse: spec_fn(Seq<char>) -> Option<u64>) -> Result<(SValue, int), PErr> {
    let a = sign_end(s, i);
    let b = digit_end(s, a);
    if b == a {
        Err(PErr::Error(a, ErrorKind::Digit))
    } else if !char_at(s, b, '.') {
        Err(PErr::Error(b, ErrorKind::Tag))
    } else {
        let c = digit_end(s, b + 1);
        if c == b + 1 {
            Err(PErr::Error(b + 1, ErrorKind::Digit))
        } else {
            match parse(s.subrange(i, c)) {
                Some(f) => Ok((SValue::Float(f), space_end(s, c))),
                None => Err(PErr::Error(i, ErrorKind::MapRes)),
            }
        }
    }
}

/// An integer: sign and digits, within the range of `i64`.
pub open spec fn p_integer(s: Seq<char>, i: int) -> Result<(SValue, int), PErr> {
    let a = sign_end(s, i);
    let b = digit_end(s, a);
    if b == a {
        Err(PErr::Error(a, ErrorKind::Digit))
    } else {
        match parse_i64_spec(s.subrange(i, b)) {
            Some(v) => Ok((SValue::Int(v), space_end(s, b))),
            None => Err(PErr::Error(i, ErrorKind::MapRes)),
        }
    }
}

/// The end of the content of a string quoted by `q` that starts at `j`:
/// the position of the closing quote or of the end of the text, or none
/// where a backslash is not followed by the quote.
pub open spec fn quoted_end(s: Seq<char>, j: int, q: char) -> Option<int>
    decreases s.len() - j,
{
    if j < 0 || j >= s.len() {
        Some(j)
    } else if s[j] == q {
        Some(j)
    } else if s[j] == '\\' {
        if j + 1 >= s.len() {
            None
        } else if s[j + 1] == q {
            quoted_end(s, j + 2, q)
        } else {
            None
        }
    } else {
        quoted_end(s, j + 1, q)
    }
}

/// The content of a quoted string with each escaped quote unescaped.
pub open spec fn unescape(t: Seq<char>, q: char) -> Seq<char>
    decreases t.len(),
{
    if t.len() == 0 {
        t
    } else if t.len() >= 2 && t[0] == '\\' && t[1] == q {
        seq![q] + unescape(t.skip(2), q)
    } else {
        seq![t[0]] + unescape(t.skip(1), q)
    }
}

/// A string quoted by `q`, in which `\` followed by `q` stands for `q`.
pub open spec fn p_quoted(s: Seq<char>, i: int, q: char) -> Result<(Seq<char>, int), PErr> {
    if !char_at(s, i, q) {
        Err(PErr::Error(i, ErrorKind::Char))
    } else {
        match quoted_end(s, i + 1, q) {
            Some(j) => if char_at(s, j, q) {
                Ok((unescape(s.subrange(i + 1, j), q), j + 1))
            } else {
                Err(PErr::Error(j, ErrorKind::Char))
            },
            None => Err(PErr::Error(i + 1, ErrorKind::Char)),
        }
    }
}

/// A string in single or double quotes.
pub open spec fn p_string(s: Seq<char>, i: int) -> Result<(Seq<char>, int), PErr> {
    match p_quoted(s, i, '\'') {
        Ok(r) => Ok(r),
        Err(_) => p_quoted(s, i, '"'),
    }
}

/// A literal: a float, an integer, `true`, `false`, `null` or a string.
pub open spec fn p_literal(s: Seq<char>, i: int, parse: spec_fn(Seq<char>) -> Option<u64>) -> Result<(SValue, int), PErr> {
    match p_double(s, i, parse) {
        Ok(r) => Ok(r),
        Err(_) => match p_integer(s, i) {
            Ok(r) => Ok(r),
            Err(_) => if tag_at(s, i, "true"@) {
                Ok((SValue::Bool(true), space_end(s, i + 4)))
            } else if tag_at(s, i, "false"@) {
                Ok((SValue::Bool(false), space_end(s, i + 5)))
            } else if tag_at(s, i, "null"@) {
                Ok((SValue::Null, space_end(s, i + 4)))
            } else {
                match p_string(s, i) {
                    Ok((t, j)) => Ok((SValue::Str(t), space_end(s, j))),
                    Err(e) => Err(e),
                }
            },
        },
    }
}

/// The reserved words, which are not variable names.
pub open spec fn is_keyword(w: Seq<char>) -> bool {
    w == "true"@ || w == "false"@ || w == "null"@
}

/// A name: ASCII letters and digits, not empty and not reserved.
pub open spec fn p_name(s: Seq<char>, i: int) -> Result<(Seq<char>, int), PErr> {
    let j = alnum_end(s, i);
    let w = s.subrange(i, j);
    if j == i || is_keyword(w) {
        Err(PErr::Error(i, ErrorKind::MapRes))
    } else {
        Ok((w, j))
    }
}

/// An optional index `[digits]`: its digits and the position after it.
pub open spec fn p_index(s: Seq<char>, i: int) -> Option<(Seq<char>, int)> {
    if char_at(s, i, '[') {
        let a = space_end(s, i + 1);
        let b = digit_end(s, a);
        let c = space_end(s, b);
        if b > a && char_at(s, c, ']') {
            Some((s.subrange(a, b), space_end(s, c + 1)))
        } else {
            None
        }
    } else {
        None
    }
}

/// A name with an optional index.
pub open spec fn p_var_item(s: Seq<char>, i: int) -> Result<((Seq<char>, Option<Seq<char>>), int), PErr> {
    match p_name(s, i) {
        Err(e) => Err(e),
        Ok((w, j)) => match p_index(s, j) {
            Some((d, k)) => Ok(((w, Some(d)), k)),
            None => Ok(((w, None), j)),
        },
    }
}

/// More items, each after a `.`; an item that fails ends the list before
/// its `.`.
pub open spec fn p_var_rest(
    s: Seq<char>,
    i: int,
    acc: Seq<(Seq<char>, Option<Seq<char>>)>,
) -> (Seq<(Seq<char>, Option<Seq<char>>)>, int)
    decreases s.len() - i,
{
    if char_at(s, i, '.') {
        match p_var_item(s, i + 1) {
            Ok((it, j)) => if i < j <= s.len() {
                p_var_rest(s, j, acc.push(it))
            } else {
                (acc, i)
            },
            Err(_) => (acc, i),
        }
    } else {
        (acc, i)
    }
}

/// Whether some name starts with a digit.
pub open spec fn some_digit_start(items: Seq<(Seq<char>, Option<Seq<char>>)>) -> bool {
    exists|k: int| 0 <= k < items.len() && is_digit((#[trigger] items[k]).0[0])
}

/// Whether an index is too large for `usize`.
pub open spec fn index_overflows(d: Option<Seq<char>>) -> bool {
    match d {
        Some(d) => digits_value(d) > usize::MAX,
        None => false,
    }
}

/// Whether some index is too large for `usize`.
pub open spec fn some_index_overflows(items: Seq<(Seq<char>, Option<Seq<char>>)>) -> bool {
    exists|k: int| 0 <= k < items.len() && index_overflows((#[trigger] items[k]).1)
}

/// The variable names of the items.
pub open spec fn var_names(items: Seq<(Seq<char>, Option<Seq<char>>)>) -> Seq<SVarName> {
    Seq::new(
        items.len(),
        |k: int|
            SVarName {
                name: items[k].0,
                index: match items[k].1 {
                    Some(d) => Some(digits_value(d) as usize),
                    None => None,
                },
            },
    )
}

/// A variable access: names separated by `.`, each with an optional index.
/// A name that starts with a digit is an error where the access ends.
pub open spec fn p_var(s: Seq<char>, i: int) -> Result<(Seq<SVarName>, int), PErr> {
    match p_var_item(s, i) {
        Err(e) => Err(e),
        Ok((it, j)) => if i < j <= s.len() {
            let (items, k) = p_var_rest(s, j, seq![it]);
            if some_digit_start(items) {
                Err(PErr::Error(k, ErrorKind::Digit))
            } else if some_index_overflows(items) {
                Err(PErr::Stop)
            } else {
                Ok((var_names(items), k))
            }
        } else {
            Err(PErr::Error(i, ErrorKind::MapRes))
        },
    }
}

/// The comparison operator at `i`, if any: its length and the expression
/// it makes; `>=` and `<=` are tried before `>` and `<`.
pub open spec fn comp_op(s: Seq<char>, i: int) -> Option<int> {
    if tag_at(s, i, ">="@) {
        Some(0)
    } else if tag_at(s, i, "<="@) {
        Some(1)
    } else if tag_at(s, i, ">"@) {
        Some(2)
    } else if tag_at(s, i, "<"@) {
        Some(3)
    } else {
        None
    }
}

/// The length of a comparison operator.
pub open spec fn comp_len(op: int) -> int {
    if op <= 1 { 2 } else { 1 }
}

/// The comparison that an operator makes.
pub open spec fn comp_make(op: int, l: SExp, r: SExp) -> SExp {
    if op == 0 {
        SExp::Geq(Box::new(l), Box::new(r))
    } else if op == 1 {
        SExp::Leq(Box::new(l), Box::new(r))
    } else if op == 2 {
        SExp::Gt(Box::new(l), Box::new(r))
    } else {
        SExp::Lt(Box::new(l), Box::new(r))
    }
}

/// An expression: the alternatives of `||`.
#[verifier::opaque]
pub open spec fn p_exp(s: Seq<char>, i: int, parse: spec_fn(Seq<char>) -> Option<u64>) -> Result<(SExp, int), PErr>
    decreases s.len() - i, 30int,
{
    p_or(s, i, parse)
}

/// Operands of `&&` joined by `||`, grouped from the left.
#[verifier::opaque]
pub open spec fn p_or(s: Seq<char>, i: int, parse: spec_fn(Seq<char>) -> Option<u64>) -> Result<(SExp, int), PErr>
    decreases s.len() - i, 29int,
{
    match p_and(s, i, parse) {
        Err(e) => Err(e),
        Ok((e, j)) => if i <= j <= s.len() {
            or_rest(s, j, e, parse)
        } else {
            Err(PErr::Error(i, ErrorKind::Tag))
        },
    }
}

/// More `||` operands after `acc`.
#[verifier::opaque]
pub open spec fn or_rest(s: Seq<char>, i: int, acc: SExp, parse: spec_fn(Seq<char>) -> Option<u64>) -> Result<(SExp, int), PErr>
    decreases s.len() - i, 28int,
{
    if 0 <= i && tag_at(s, i, "||"@) {
        let k = space_end(s, i + 2);
        if i < k <= s.len() {
            match p_and(s, k, parse) {
                Err(e) => Err(e),
                Ok((r, j)) => if i < j <= s.len() {
                    or_rest(s, j, SExp::Or(Box::new(acc), Box::new(r)), parse)
                } else {
                    Err(PErr::Error(i, ErrorKind::Tag))
                },
            }
        } else {
            Err(PErr::Error(i, ErrorKind::Tag))
        }
    } else {
        Ok((acc, i))
    }
}

/// Operands of `==` joined by `&&`, grouped from the left.
#[verifier::opaque]
pub open spec fn p_and(s: Seq<char>, i: int, parse: spec_fn(Seq<char>) -> Option<u64>) -> Result<(SExp, int), PErr>
    decreases s.len() - i, 27int,
{
    match p_eq(s, i, parse) {
        Err(e) => Err(e),
        Ok((e, j)) => if i <= j <= s.len() {
            and_rest(s, j, e, parse)
        } else {
            Err(PErr::Error(i, ErrorKind::Tag))
        },
    }
}

/// More `&&` operands after `acc`.
#[verifier::opaque]
pub open spec fn and_rest(s: Seq<char>, i: int, acc: SExp, parse: spec_fn(Seq<char>) -> Option<u64>) -> Result<(SExp, int), PErr>
    decreases s.len() - i, 26int,
{
    if 0 <= i && tag_at(s, i, "&&"@) {
        let k = space_end(s, i + 2);
        if i < k <= s.len() {
            match p_eq(s, k, parse) {
                Err(e) => Err(e),
                Ok((r, j)) => if i < j <= s.len() {
                    and_rest(s, j, SExp::And(Box::new(acc), Box::new(r)), parse)
                } else {
                    Err(PErr::Error(i, ErrorKind::Tag))
                },
            }
        } else {
            Err(PErr::Error(i, ErrorKind::Tag))
        }
    } else {
        Ok((acc, i))
    }
}

/// One or two operands of `!=` joined by `==`; more than two are an error.
#[verifier::opaque]
pub open spec fn p_eq(s: Seq<char>, i: int, parse: spec_fn(Seq<char>) -> Option<u64>) -> Result<(SExp, int), PErr>
    decreases s.len() - i, 25int,
{
    match p_neq(s, i, parse) {
        Err(e) => Err(e),
        Ok((e1, j)) => if i <= j <= s.len() {
            if tag_at(s, j, "=="@) && j < space_end(s, j + 2) <= s.len() {
                match p_neq(s, space_end(s, j + 2), parse) {
                    Err(PErr::Stop) => Err(PErr::Stop),
                    Err(_) => Ok((e1, j)),
                    Ok((e2, m)) => if j < m <= s.len() {
                        match eq_more(s, m, parse) {
                            Err(e) => Err(e),
                            Ok(None) => Ok((SExp::Eq(Box::new(e1), Box::new(e2)), m)),
                            Ok(Some(end)) => Err(PErr::Error(end, ErrorKind::Count)),
                        }
                    } else {
                        Err(PErr::Error(i, ErrorKind::Tag))
                    },
                }
            } else {
                Ok((e1, j))
            }
        } else {
            Err(PErr::Error(i, ErrorKind::Tag))
        },
    }
}

/// Whether more `==` operands follow at `m`, and if so the position after
/// the last of them.
#[verifier::opaque]
pub open spec fn eq_more(s: Seq<char>, m: int, parse: spec_fn(Seq<char>) -> Option<u64>) -> Result<Option<int>, PErr>
    decreases s.len() - m, 24int,
{
    if 0 <= m && tag_at(s, m, "=="@) && m < space_end(s, m + 2) <= s.len() {
        match p_neq(s, space_end(s, m + 2), parse) {
            Err(PErr::Stop) => Err(PErr::Stop),
            Err(_) => Ok(None),
            Ok((_, n)) => if m < n <= s.len() {
                match eq_more(s, n, parse) {
                    Err(e) => Err(e),
                    Ok(None) => Ok(Some(n)),
                    Ok(Some(end)) => Ok(Some(end)),
                }
            } else {
                Err(PErr::Error(m, ErrorKind::Tag))
            },
        }
    } else {
        Ok(None)
    }
}

/// One or two comparisons joined by `!=`; more than two are an error.
#[verifier::opaque]
pub open spec fn p_neq(s: Seq<char>, i: int, parse: spec_fn(Seq<char>) -> Option<u64>) -> Result<(SExp, int), PErr>
    decreases s.len() - i, 23int,
{
    match p_comp(s, i, parse) {
        Err(e) => Err(e),
        Ok((e1, j)) => if i <= j <= s.len() {
            if tag_at(s, j, "!="@) && j < space_end(s, j + 2) <= s.len() {
                match p_comp(s, space_end(s, j + 2), parse) {
                    Err(PErr::Stop) => Err(PErr::Stop),
                    Err(_) => Ok((e1, j)),
                    Ok((e2, m)) => if j < m <= s.len() {
                        match neq_more(s, m, parse) {
                            Err(e) => Err(e),
                            Ok(None) => Ok((SExp::Neq(Box::new(e1), Box::new(e2)), m)),
                            Ok(Some(end)) => Err(PErr::Error(end, ErrorKind::Count)),
                        }
                    } else {
                        Err(PErr::Error(i, ErrorKind::Tag))
                    },
                }
            } else {
                Ok((e1, j))
            }
        } else {
            Err(PErr::Error(i, ErrorKind::Tag))
        },
    }
}

/// Whether more `!=` operands follow at `m`, and if so the position after
/// the last of them.
#[verifier::opaque]
pub open spec fn neq_more(s: Seq<char>, m: int, parse: spec_fn(Seq<char>) -> Option<u64>) -> Result<Option<int>, PErr>
    decreases s.len() - m, 22int,
{
    if 0 <= m && tag_at(s, m, "!="@) && m < space_end(s, m + 2) <= s.len() {
        match p_comp(s, space_end(s, m + 2), parse) {
            Err(PErr::Stop) => Err(PErr::Stop),
            Err(_) => Ok(None),
            Ok((_, n)) => if m < n <= s.len() {
                match neq_more(s, n, parse) {
                    Err(e) => Err(e),
                    Ok(None) => Ok(Some(n)),
                    Ok(Some(end)) => Ok(Some(end)),
                }
            } else {
                Err(PErr::Error(m, ErrorKind::Tag))
            },
        }
    } else {
        Ok(None)
    }
}

/// Negations joined by comparison operators, grouped from the left.
#[verifier::opaque]
pub open spec fn p_comp(s: Seq<char>, i: int, parse: spec_fn(Seq<char>) -> Option<u64>) -> Result<(SExp, int), PErr>
    decreases s.len() - i, 21int,
{
    match p_neg(s, i, parse) {
        Err(e) => Err(e),
        Ok((e, j)) => if i <= j <= s.len() {
            comp_rest(s, j, e, parse)
        } else {
            Err(PErr::Error(i, ErrorKind::Tag))
        },
    }
}

/// More comparisons after `acc`.
#[verifier::opaque]
pub open spec fn comp_rest(s: Seq<char>, i: int, acc: SExp, parse: spec_fn(Seq<char>) -> Option<u64>) -> Result<(SExp, int), PErr>
    decreases s.len() - i, 20int,
{
    match comp_op(s, i) {
        None => Ok((acc, i)),
        Some(op) => {
            let k = space_end(s, i + comp_len(op));
            if 0 <= i < k <= s.len() {
                match p_neg(s, k, parse) {
                    Err(e) => Err(e),
                    Ok((r, j)) => if i < j <= s.len() {
                        comp_rest(s, j, comp_make(op, acc, r), parse)
                    } else {
                        Err(PErr::Error(i, ErrorKind::Tag))
                    },
                }
            } else {
                Err(PErr::Error(i, ErrorKind::Tag))
            }
        },
    }
}

/// An atom, or `!` directly followed by an atom.
#[verifier::opaque]
pub open spec fn p_neg(s: Seq<char>, i: int, parse: spec_fn(Seq<char>) -> Option<u64>) -> Result<(SExp, int), PErr>
    decreases s.len() - i, 19int,
{
    if 0 <= i && char_at(s, i, '!') {
        match p_atom(s, i + 1, parse) {
            Ok((e, j)) => Ok((SExp::Neg(Box::new(e)), j)),
            Err(e) => Err(e),
        }
    } else {
        p_atom(s, i, parse)
    }
}

/// An atom: a literal, a call, a variable, a parenthesized expression, an
/// array or an object.
#[verifier::opaque]
pub open spec fn p_atom(s: Seq<char>, i: int, parse: spec_fn(Seq<char>) -> Option<u64>) -> Result<(SExp, int), PErr>
    decreases s.len() - i, 18int,
{
    match p_literal(s, i, parse) {
        Ok((v, j)) => Ok((SExp::Literal(v), space_end(s, j))),
        Err(_) => match p_fn(s, i, parse) {
            Ok((e, j)) => Ok((e, space_end(s, j))),
            Err(PErr::Stop) => Err(PErr::Stop),
            Err(_) => match p_var(s, i) {
                Ok((names, j)) => Ok((SExp::Var(names), space_end(s, j))),
                Err(PErr::Stop) => Err(PErr::Stop),
                Err(_) => match p_parens(s, i, parse) {
                    Ok(r) => Ok(r),
                    Err(PErr::Stop) => Err(PErr::Stop),
                    Err(_) => match p_array(s, i, parse) {
                        Ok((e, j)) => Ok((e, space_end(s, j))),
                        Err(PErr::Stop) => Err(PErr::Stop),
                        Err(_) => match p_object(s, i, parse) {
                            Ok((e, j)) => Ok((e, space_end(s, j))),
                            Err(e) => Err(e),
                        },
                    },
                },
            },
        },
    }
}

/// A call: a name of letters, `(`, arguments separated by `,` with an
/// optional trailing `,`, and `)`.
#[verifier::opaque]
pub open spec fn p_fn(s: Seq<char>, i: int, parse: spec_fn(Seq<char>) -> Option<u64>) -> Result<(SExp, int), PErr>
    decreases s.len() - i, 17int,
{
    let a = alpha_end(s, i);
    if a == i || i < 0 || a > s.len() {
        Err(PErr::Error(i, ErrorKind::MapRes))
    } else {
        let b = white_end(s, a);
        if !char_at(s, b, '(') {
            Err(PErr::Error(b, ErrorKind::Char))
        } else {
            let c = white_end(s, b + 1);
            if i < c <= s.len() {
                match p_list(s, c, parse) {
                    Err(e) => Err(e),
                    Ok((args, d)) => {
                        let e = if char_at(s, d, ',') { space_end(s, d + 1) } else { d };
                        let f = white_end(s, e);
                        if char_at(s, f, ')') {
                            Ok((SExp::FnCall(s.subrange(i, a), args), f + 1))
                        } else {
                            Err(PErr::Error(f, ErrorKind::Char))
                        }
                    },
                }
            } else {
                Err(PErr::Error(i, ErrorKind::Char))
            }
        }
    }
}

/// `(`, an expression, `)`.
#[verifier::opaque]
pub open spec fn p_parens(s: Seq<char>, i: int, parse: spec_fn(Seq<char>) -> Option<u64>) -> Result<(SExp, int), PErr>
    decreases s.len() - i, 17int,
{
    if 0 <= i && char_at(s, i, '(') {
        let a = space_end(s, i + 1);
        if i < a <= s.len() {
            match p_exp(s, a, parse) {
                Err(e) => Err(e),
                Ok((e, j)) => if char_at(s, j, ')') {
                    Ok((e, space_end(s, j + 1)))
                } else {
                    Err(PErr::Error(j, ErrorKind::Char))
                },
            }
        } else {
            Err(PErr::Error(i, ErrorKind::Char))
        }
    } else {
        Err(PErr::Error(i, ErrorKind::Char))
    }
}

/// An array: `[`, items separated by `,` with an optional trailing `,`,
/// and `]`.
#[verifier::opaque]
pub open spec fn p_array(s: Seq<char>, i: int, parse: spec_fn(Seq<char>) -> Option<u64>) -> Result<(SExp, int), PErr>
    decreases s.len() - i, 17int,
{
    if 0 <= i && char_at(s, i, '[') {
        let a = space_end(s, i + 1);
        if i < a <= s.len() {
            match p_list(s, a, parse) {
                Err(e) => Err(e),
                Ok((items, d)) => {
                    let e = if char_at(s, d, ',') { space_end(s, d + 1) } else { d };
                    if char_at(s, e, ']') {
                        Ok((SExp::Array(items), e + 1))
                    } else {
                        Err(PErr::Error(e, ErrorKind::Char))
                    }
                },
            }
        } else {
            Err(PErr::Error(i, ErrorKind::Char))
        }
    } else {
        Err(PErr::Error(i, ErrorKind::Char))
    }
}

/// An object: `{`, entries `key: value` separated by `,` with an optional
/// trailing `,`, and `}`; the keys are strings, and a later entry for a
/// key replaces an earlier one.
#[verifier::opaque]
pub open spec fn p_object(s: Seq<char>, i: int, parse: spec_fn(Seq<char>) -> Option<u64>) -> Result<(SExp, int), PErr>
    decreases s.len() - i, 17int,
{
    if 0 <= i && char_at(s, i, '{') {
        let a = space_end(s, i + 1);
        if i < a <= s.len() {
            match p_entries(s, a, parse) {
                Err(e) => Err(e),
                Ok((es, d)) => {
                    let e = if char_at(s, d, ',') { space_end(s, d + 1) } else { d };
                    if char_at(s, e, '}') {
                        Ok((SExp::Object(insert_all(Seq::empty(), es)), e + 1))
                    } else {
                        Err(PErr::Error(e, ErrorKind::Char))
                    }
                },
            }
        } else {
            Err(PErr::Error(i, ErrorKind::Char))
        }
    } else {
        Err(PErr::Error(i, ErrorKind::Char))
    }
}

/// Expressions separated by `,`, possibly none: a list ends before an
/// expression that fails, and before its `,`.
#[verifier::opaque]
pub open spec fn p_list(s: Seq<char>, i: int, parse: spec_fn(Seq<char>) -> Option<u64>) -> Result<(Seq<SExp>, int), PErr>
    decreases s.len() - i, 31int,
{
    match p_exp(s, i, parse) {
        Err(PErr::Stop) => Err(PErr::Stop),
        Err(_) => Ok((Seq::empty(), i)),
        Ok((e, j)) => if 0 <= i < j <= s.len() {
            list_rest(s, j, seq![e], parse)
        } else {
            Err(PErr::Error(i, ErrorKind::Tag))
        },
    }
}

/// More expressions of a list, each after a `,`.
#[verifier::opaque]
pub open spec fn list_rest(s: Seq<char>, i: int, acc: Seq<SExp>, parse: spec_fn(Seq<char>) -> Option<u64>) -> Result<(Seq<SExp>, int), PErr>
    decreases s.len() - i, 31int,
{
    if 0 <= i && char_at(s, i, ',') {
        let k = space_end(s, i + 1);
        if i < k <= s.len() {
            match p_exp(s, k, parse) {
                Err(PErr::Stop) => Err(PErr::Stop),
                Err(_) => Ok((acc, i)),
                Ok((e, j)) => if i < j <= s.len() {
                    list_rest(s, j, acc.push(e), parse)
                } else {
                    Err(PErr::Error(i, ErrorKind::Tag))
                },
            }
        } else {
            Err(PErr::Error(i, ErrorKind::Tag))
        }
    } else {
        Ok((acc, i))
    }
}

/// An object entry: a string, `:`, an expression.
#[verifier::opaque]
pub open spec fn p_entry(s: Seq<char>, i: int, parse: spec_fn(Seq<char>) -> Option<u64>) -> Result<((Seq<char>, SExp), int), PErr>
    decreases s.len() - i, 31int,
{
    match p_string(s, i) {
        Err(e) => Err(e),
        Ok((key, j)) => {
            let j1 = space_end(s, j);
            if !char_at(s, j1, ':') {
                Err(PErr::Error(j1, ErrorKind::Char))
            } else {
                let j2 = space_end(s, j1 + 1);
                if 0 <= i < j2 <= s.len() {
                    match p_exp(s, j2, parse) {
                        Err(e) => Err(e),
                        Ok((e, j3)) => Ok(((key, e), j3)),
                    }
                } else {
                    Err(PErr::Error(i, ErrorKind::Char))
                }
            }
        },
    }
}

/// Object entries separated by `,`, possibly none.
#[verifier::opaque]
pub open spec fn p_entries(s: Seq<char>, i: int, parse: spec_fn(Seq<char>) -> Option<u64>) -> Result<(Seq<(Seq<char>, SExp)>, int), PErr>
    decreases s.len() - i, 32int,
{
    match p_entry(s, i, parse) {
        Err(PErr::Stop) => Err(PErr::Stop),
        Err(_) => Ok((Seq::empty(), i)),
        Ok((e, j)) => if 0 <= i < j <= s.len() {
            entries_rest(s, j, seq![e], parse)
        } else {
            Err(PErr::Error(i, ErrorKind::Tag))
        },
    }
}

/// More object entries, each after a `,`.
#[verifier::opaque]
pub open spec fn entries_rest(
    s: Seq<char>,
    i: int,
    acc: Seq<(Seq<char>, SExp)>,
    parse: spec_fn(Seq<char>) -> Option<u64>,
) -> Result<(Seq<(Seq<char>, SExp)>, int), PErr>
    decreases s.len() - i, 32int,
{
    if 0 <= i && char_at(s, i, ',') {
        let k = space_end(s, i + 1);
        if i < k <= s.len() {
            match p_entry(s, k, parse) {
                Err(PErr::Stop) => Err(PErr::Stop),
                Err(_) => Ok((acc, i)),
                Ok((e, j)) => if i < j <= s.len() {
                    entries_rest(s, j, acc.push(e), parse)
                } else {
                    Err(PErr::Error(i, ErrorKind::Tag))
                },
            }
        } else {
            Err(PErr::Error(i, ErrorKind::Tag))
        }
    } else {
        Ok((acc, i))
    }
}

} // verus!
