//! The parser of expressions: each function reads what the function of the
//! same name in [`crate::grammar`] describes, and gives what it gives.
use vstd::prelude::*;
use crate::text::{chars_to_string, str_chars};
use crate::value::{SValue, Value, insert_all, lemma_insert_all_push};
use crate::errors::{ErrorKind, ParseError};
use crate::float::FloatSupport;
use crate::exp::{Exp, FunctionItem, SExp, exp_entry_models, exp_models, lemma_array_exp_model, lemma_call_model};
use crate::var::VarAccess;
use crate::grammar::{
    PErr, alpha_end, char_at, comp_len, comp_make, comp_op, entries_rest, eq_more, list_rest, neq_more, or_rest,
    and_rest, comp_rest, p_and, p_array, p_atom, p_comp, p_entries, p_entry, p_eq, p_exp, p_fn, p_list, p_neg,
    p_neq, p_object, p_or, p_parens, p_var, space_end, tag_at, white_end, whitespace, is_whitespace_char,
};
use crate::lexer::{
    ParseFail, alpha_end_exec, char_at_exec, p_literal_exec, p_string_exec, p_var_exec, space_end_exec,
    tag_at_exec, white_end_exec,
};

verus! {

broadcast use vstd::string::group_string_axioms;

/// An expression read and the position after it, as the grammar gives it.
pub open spec fn exp_res(r: Result<(Exp, usize), ParseFail>, g: Result<(SExp, int), PErr>) -> bool {
    match g {
        Ok((e, j)) => r matches Ok((x, k)) && x@ == e && k == j,
        Err(e) => r matches Err(f) && f@ == e,
    }
}

/// A list of expressions read and the position after it.
pub open spec fn list_res(r: Result<(Vec<Exp>, usize), ParseFail>, g: Result<(Seq<SExp>, int), PErr>) -> bool {
    match g {
        Ok((es, j)) => r matches Ok((x, k)) && exp_models(x@) == es && k == j,
        Err(e) => r matches Err(f) && f@ == e,
    }
}

/// Object entries read and the position after them.
pub open spec fn entries_res(r: Result<(Vec<(String, Exp)>, usize), ParseFail>, g: Result<(Seq<(Seq<char>, SExp)>, int), PErr>) -> bool {
    match g {
        Ok((es, j)) => r matches Ok((x, k)) && exp_entry_models(x@) == es && k == j,
        Err(e) => r matches Err(f) && f@ == e,
    }
}

/// The error of a step whose position checks fail; the grammar gives the
/// same.
fn bad(i: usize) -> (r: ParseFail)
    ensures
        r@ == PErr::Error(i as int, ErrorKind::Tag),
{
    ParseFail::Error(i, ErrorKind::Tag)
}


/// An expression.
#[verifier::spinoff_prover]
pub fn parse_exp<P, T, D, I>(s: &Vec<char>, i: usize, fs: &FloatSupport<P, T, D, I>) -> (r: Result<(Exp, usize), ParseFail>) where
    P: Fn(&str) -> Option<u64>,
    T: Fn(u64) -> String,
    D: Fn(u64) -> String,
    I: Fn(i64) -> u64,

    requires
        fs.wf(),
        i <= s@.len(),
    ensures
        exp_res(r, p_exp(s@, i as int, fs.spec().parse)),
        r matches Ok((_, k)) ==> k <= s@.len(),
    decreases s@.len() - i, 30int,
{
    let n = s.len();
    proof {
        reveal(p_exp);
    }
    parse_or(s, i, fs)
}

#[verifier::spinoff_prover]
fn parse_or<P, T, D, I>(s: &Vec<char>, i: usize, fs: &FloatSupport<P, T, D, I>) -> (r: Result<(Exp, usize), ParseFail>) where
    P: Fn(&str) -> Option<u64>,
    T: Fn(u64) -> String,
    D: Fn(u64) -> String,
    I: Fn(i64) -> u64,

    requires
        fs.wf(),
        i <= s@.len(),
    ensures
        exp_res(r, p_or(s@, i as int, fs.spec().parse)),
        r matches Ok((_, k)) ==> k <= s@.len(),
    decreases s@.len() - i, 29int,
{
    let n = s.len();
    proof {
        reveal(p_or);
    }
    match parse_and(s, i, fs) {
        Err(e) => Err(e),
        Ok((e, j)) => if i <= j && j <= s.len() {
            or_rest_exec(s, j, e, fs)
        } else {
            Err(bad(i))
        },
    }
}

#[verifier::spinoff_prover]
fn or_rest_exec<P, T, D, I>(s: &Vec<char>, i: usize, acc: Exp, fs: &FloatSupport<P, T, D, I>) -> (r: Result<(Exp, usize), ParseFail>) where
    P: Fn(&str) -> Option<u64>,
    T: Fn(u64) -> String,
    D: Fn(u64) -> String,
    I: Fn(i64) -> u64,

    requires
        fs.wf(),
        i <= s@.len(),
    ensures
        exp_res(r, or_rest(s@, i as int, acc@, fs.spec().parse)),
        r matches Ok((_, k)) ==> k <= s@.len(),
    decreases s@.len() - i, 28int,
{
    let n = s.len();
    proof {
        reveal(or_rest);
    }
    proof {
        reveal_strlit("||");
    }
    if tag_at_exec(s, i, "||") {
        let k = space_end_exec(s, i + 2);
        if i < k && k <= s.len() {
            match parse_and(s, k, fs) {
                Err(e) => Err(e),
                Ok((r, j)) => if i < j && j <= s.len() {
                    or_rest_exec(s, j, Exp::Or(Box::new(acc), Box::new(r)), fs)
                } else {
                    Err(bad(i))
                },
            }
        } else {
            Err(bad(i))
        }
    } else {
        Ok((acc, i))
    }
}

#[verifier::spinoff_prover]
fn parse_and<P, T, D, I>(s: &Vec<char>, i: usize, fs: &FloatSupport<P, T, D, I>) -> (r: Result<(Exp, usize), ParseFail>) where
    P: Fn(&str) -> Option<u64>,
    T: Fn(u64) -> String,
    D: Fn(u64) -> String,
    I: Fn(i64) -> u64,

    requires
        fs.wf(),
        i <= s@.len(),
    ensures
        exp_res(r, p_and(s@, i as int, fs.spec().parse)),
        r matches Ok((_, k)) ==> k <= s@.len(),
    decreases s@.len() - i, 27int,
{
    let n = s.len();
    proof {
        reveal(p_and);
    }
    match parse_eq(s, i, fs) {
        Err(e) => Err(e),
        Ok((e, j)) => if i <= j && j <= s.len() {
            and_rest_exec(s, j, e, fs)
        } else {
            Err(bad(i))
        },
    }
}

#[verifier::spinoff_prover]
fn and_rest_exec<P, T, D, I>(s: &Vec<char>, i: usize, acc: Exp, fs: &FloatSupport<P, T, D, I>) -> (r: Result<(Exp, usize), ParseFail>) where
    P: Fn(&str) -> Option<u64>,
    T: Fn(u64) -> String,
    D: Fn(u64) -> String,
    I: Fn(i64) -> u64,

    requires
        fs.wf(),
        i <= s@.len(),
    ensures
        exp_res(r, and_rest(s@, i as int, acc@, fs.spec().parse)),
        r matches Ok((_, k)) ==> k <= s@.len(),
    decreases s@.len() - i, 26int,
{
    let n = s.len();
    proof {
        reveal(and_rest);
    }
    proof {
        reveal_strlit("&&");
    }
    if tag_at_exec(s, i, "&&") {
        let k = space_end_exec(s, i + 2);
        if i < k && k <= s.len() {
            match parse_eq(s, k, fs) {
                Err(e) => Err(e),
                Ok((r, j)) => if i < j && j <= s.len() {
                    and_rest_exec(s, j, Exp::And(Box::new(acc), Box::new(r)), fs)
                } else {
                    Err(bad(i))
                },
            }
        } else {
            Err(bad(i))
        }
    } else {
        Ok((acc, i))
    }
}
#[verifier::spinoff_prover]
fn parse_eq<P, T, D, I>(s: &Vec<char>, i: usize, fs: &FloatSupport<P, T, D, I>) -> (r: Result<(Exp, usize), ParseFail>) where
    P: Fn(&str) -> Option<u64>,
    T: Fn(u64) -> String,
    D: Fn(u64) -> String,
    I: Fn(i64) -> u64,

    requires
        fs.wf(),
        i <= s@.len(),
    ensures
        exp_res(r, p_eq(s@, i as int, fs.spec().parse)),
        r matches Ok((_, k)) ==> k <= s@.len(),
    decreases s@.len() - i, 25int,
{
    let n = s.len();
    proof {
        reveal(p_eq);
    }
    proof {
        reveal_strlit("==");
    }
    match parse_neq(s, i, fs) {
        Err(e) => Err(e),
        Ok((e1, j)) => {
            if !(i <= j && j <= s.len()) {
                return Err(bad(i));
            }
            if !tag_at_exec(s, j, "==") {
                return Ok((e1, j));
            }
            let k = space_end_exec(s, j + 2);
            if !(j < k && k <= s.len()) {
                return Ok((e1, j));
            }
            match parse_neq(s, k, fs) {
                Err(ParseFail::Stop) => Err(ParseFail::Stop),
                Err(_) => Ok((e1, j)),
                Ok((e2, m)) => if j < m && m <= s.len() {
                    match eq_more_exec(s, m, fs) {
                        Err(e) => Err(e),
                        Ok(None) => Ok((Exp::Eq(Box::new(e1), Box::new(e2)), m)),
                        Ok(Some(end)) => Err(ParseFail::Error(end, ErrorKind::Count)),
                    }
                } else {
                    Err(bad(i))
                },
            }
        },
    }
}

#[verifier::spinoff_prover]
fn eq_more_exec<P, T, D, I>(s: &Vec<char>, m: usize, fs: &FloatSupport<P, T, D, I>) -> (r: Result<Option<usize>, ParseFail>) where
    P: Fn(&str) -> Option<u64>,
    T: Fn(u64) -> String,
    D: Fn(u64) -> String,
    I: Fn(i64) -> u64,

    requires
        fs.wf(),
        m <= s@.len(),
    ensures
        match eq_more(s@, m as int, fs.spec().parse) {
            Ok(None) => r matches Ok(None),
            Ok(Some(e)) => r matches Ok(Some(x)) && x == e,
            Err(e) => r matches Err(f) && f@ == e,
        },
        r matches Ok(Some(x)) ==> x <= s@.len(),
    decreases s@.len() - m, 24int,
{
    let n = s.len();
    proof {
        reveal(eq_more);
    }
    proof {
        reveal_strlit("==");
    }
    if !tag_at_exec(s, m, "==") {
        return Ok(None);
    }
    let k = space_end_exec(s, m + 2);
    if !(m < k && k <= s.len()) {
        return Ok(None);
    }
    match parse_neq(s, k, fs) {
        Err(ParseFail::Stop) => Err(ParseFail::Stop),
        Err(_) => Ok(None),
        Ok((_, n)) => if m < n && n <= s.len() {
            match eq_more_exec(s, n, fs) {
                Err(e) => Err(e),
                Ok(None) => Ok(Some(n)),
                Ok(Some(end)) => Ok(Some(end)),
            }
        } else {
            Err(bad(m))
        },
    }
}

#[verifier::spinoff_prover]
fn parse_neq<P, T, D, I>(s: &Vec<char>, i: usize, fs: &FloatSupport<P, T, D, I>) -> (r: Result<(Exp, usize), ParseFail>) where
    P: Fn(&str) -> Option<u64>,
    T: Fn(u64) -> String,
    D: Fn(u64) -> String,
    I: Fn(i64) -> u64,

    requires
        fs.wf(),
        i <= s@.len(),
    ensures
        exp_res(r, p_neq(s@, i as int, fs.spec().parse)),
        r matches Ok((_, k)) ==> k <= s@.len(),
    decreases s@.len() - i, 23int,
{
    let n = s.len();
    proof {
        reveal(p_neq);
    }
    proof {
        reveal_strlit("!=");
    }
    match parse_comp(s, i, fs) {
        Err(e) => Err(e),
        Ok((e1, j)) => {
            if !(i <= j && j <= s.len()) {
                return Err(bad(i));
            }
            if !tag_at_exec(s, j, "!=") {
                return Ok((e1, j));
            }
            let k = space_end_exec(s, j + 2);
            if !(j < k && k <= s.len()) {
                return Ok((e1, j));
            }
            match parse_comp(s, k, fs) {
                Err(ParseFail::Stop) => Err(ParseFail::Stop),
                Err(_) => Ok((e1, j)),
                Ok((e2, m)) => if j < m && m <= s.len() {
                    match neq_more_exec(s, m, fs) {
                        Err(e) => Err(e),
                        Ok(None) => Ok((Exp::Neq(Box::new(e1), Box::new(e2)), m)),
                        Ok(Some(end)) => Err(ParseFail::Error(end, ErrorKind::Count)),
                    }
                } else {
                    Err(bad(i))
                },
            }
        },
    }
}

#[verifier::spinoff_prover]
fn neq_more_exec<P, T, D, I>(s: &Vec<char>, m: usize, fs: &FloatSupport<P, T, D, I>) -> (r: Result<Option<usize>, ParseFail>) where
    P: Fn(&str) -> Option<u64>,
    T: Fn(u64) -> String,
    D: Fn(u64) -> String,
    I: Fn(i64) -> u64,

    requires
        fs.wf(),
        m <= s@.len(),
    ensures
        match neq_more(s@, m as int, fs.spec().parse) {
            Ok(None) => r matches Ok(None),
            Ok(Some(e)) => r matches Ok(Some(x)) && x == e,
            Err(e) => r matches Err(f) && f@ == e,
        },
        r matches Ok(Some(x)) ==> x <= s@.len(),
    decreases s@.len() - m, 22int,
{
    let n = s.len();
    proof {
        reveal(neq_more);
    }
    proof {
        reveal_strlit("!=");
    }
    if !tag_at_exec(s, m, "!=") {
        return Ok(None);
    }
    let k = space_end_exec(s, m + 2);
    if !(m < k && k <= s.len()) {
        return Ok(None);
    }
    match parse_comp(s, k, fs) {
        Err(ParseFail::Stop) => Err(ParseFail::Stop),
        Err(_) => Ok(None),
        Ok((_, n)) => if m < n && n <= s.len() {
            match neq_more_exec(s, n, fs) {
                Err(e) => Err(e),
                Ok(None) => Ok(Some(n)),
                Ok(Some(end)) => Ok(Some(end)),
            }
        } else {
            Err(bad(m))
        },
    }
}

#[verifier::spinoff_prover]
pub fn parse_comp<P, T, D, I>(s: &Vec<char>, i: usize, fs: &FloatSupport<P, T, D, I>) -> (r: Result<(Exp, usize), ParseFail>) where
    P: Fn(&str) -> Option<u64>,
    T: Fn(u64) -> String,
    D: Fn(u64) -> String,
    I: Fn(i64) -> u64,

    requires
        fs.wf(),
        i <= s@.len(),
    ensures
        exp_res(r, p_comp(s@, i as int, fs.spec().parse)),
        r matches Ok((_, k)) ==> k <= s@.len(),
    decreases s@.len() - i, 21int,
{
    let n = s.len();
    proof {
        reveal(p_comp);
    }
    match parse_neg(s, i, fs) {
        Err(e) => Err(e),
        Ok((e, j)) => if i <= j && j <= s.len() {
            comp_rest_exec(s, j, e, fs)
        } else {
            Err(bad(i))
        },
    }
}

/// The comparison operator at `i`, if any.
fn comp_op_exec(s: &Vec<char>, i: usize) -> (r: Option<u8>)
    ensures
        match comp_op(s@, i as int) {
            Some(op) => r matches Some(x) && x as int == op,
            None => r is None,
        },
{
    proof {
        reveal_strlit(">=");
        reveal_strlit("<=");
        reveal_strlit(">");
        reveal_strlit("<");
    }
    if tag_at_exec(s, i, ">=") {
        Some(0)
    } else if tag_at_exec(s, i, "<=") {
        Some(1)
    } else if tag_at_exec(s, i, ">") {
        Some(2)
    } else if tag_at_exec(s, i, "<") {
        Some(3)
    } else {
        None
    }
}

#[verifier::spinoff_prover]
fn comp_rest_exec<P, T, D, I>(s: &Vec<char>, i: usize, acc: Exp, fs: &FloatSupport<P, T, D, I>) -> (r: Result<(Exp, usize), ParseFail>) where
    P: Fn(&str) -> Option<u64>,
    T: Fn(u64) -> String,
    D: Fn(u64) -> String,
    I: Fn(i64) -> u64,

    requires
        fs.wf(),
        i <= s@.len(),
    ensures
        exp_res(r, comp_rest(s@, i as int, acc@, fs.spec().parse)),
        r matches Ok((_, k)) ==> k <= s@.len(),
    decreases s@.len() - i, 20int,
{
    let n = s.len();
    proof {
        reveal(comp_rest);
    }
    match comp_op_exec(s, i) {
        None => Ok((acc, i)),
        Some(op) => {
            let n = s.len();
            let len: usize = if op <= 1 { 2 } else { 1 };
            if len > n - i {
                return Err(bad(i));
            }
            let k = space_end_exec(s, i + len);
            if i < k && k <= s.len() {
                match parse_neg(s, k, fs) {
                    Err(e) => Err(e),
                    Ok((r, j)) => if i < j && j <= s.len() {
                        let made = if op == 0 {
                            Exp::Geq(Box::new(acc), Box::new(r))
                        } else if op == 1 {
                            Exp::Leq(Box::new(acc), Box::new(r))
                        } else if op == 2 {
                            Exp::Gt(Box::new(acc), Box::new(r))
                        } else {
                            Exp::Lt(Box::new(acc), Box::new(r))
                        };
                        comp_rest_exec(s, j, made, fs)
                    } else {
                        Err(bad(i))
                    },
                }
            } else {
                Err(bad(i))
            }
        },
    }
}

#[verifier::spinoff_prover]
pub fn parse_neg<P, T, D, I>(s: &Vec<char>, i: usize, fs: &FloatSupport<P, T, D, I>) -> (r: Result<(Exp, usize), ParseFail>) where
    P: Fn(&str) -> Option<u64>,
    T: Fn(u64) -> String,
    D: Fn(u64) -> String,
    I: Fn(i64) -> u64,

    requires
        fs.wf(),
        i <= s@.len(),
    ensures
        exp_res(r, p_neg(s@, i as int, fs.spec().parse)),
        r matches Ok((_, k)) ==> k <= s@.len(),
    decreases s@.len() - i, 19int,
{
    let n = s.len();
    proof {
        reveal(p_neg);
    }
    if char_at_exec(s, i, '!') {
        match parse_atom(s, i + 1, fs) {
            Ok((e, j)) => Ok((Exp::Neg(Box::new(e)), j)),
            Err(e) => Err(e),
        }
    } else {
        parse_atom(s, i, fs)
    }
}

#[verifier::spinoff_prover]
pub fn parse_atom<P, T, D, I>(s: &Vec<char>, i: usize, fs: &FloatSupport<P, T, D, I>) -> (r: Result<(Exp, usize), ParseFail>) where
    P: Fn(&str) -> Option<u64>,
    T: Fn(u64) -> String,
    D: Fn(u64) -> String,
    I: Fn(i64) -> u64,

    requires
        fs.wf(),
        i <= s@.len(),
    ensures
        exp_res(r, p_atom(s@, i as int, fs.spec().parse)),
        r matches Ok((_, k)) ==> k <= s@.len(),
    decreases s@.len() - i, 18int,
{
    let n = s.len();
    proof {
        reveal(p_atom);
    }
    match p_literal_exec(s, i, fs) {
        Ok((v, j)) => return Ok((Exp::Literal(v), space_end_exec(s, j))),
        Err(_) => {},
    }
    match parse_fn(s, i, fs) {
        Ok((e, j)) => return Ok((e, space_end_exec(s, j))),
        Err(ParseFail::Stop) => return Err(ParseFail::Stop),
        Err(_) => {},
    }
    match p_var_exec(s, i) {
        Ok((v, j)) => return Ok((Exp::Var(v), space_end_exec(s, j))),
        Err(ParseFail::Stop) => return Err(ParseFail::Stop),
        Err(_) => {},
    }
    match parse_parens(s, i, fs) {
        Ok(r) => return Ok(r),
        Err(ParseFail::Stop) => return Err(ParseFail::Stop),
        Err(_) => {},
    }
    match parse_array(s, i, fs) {
        Ok((e, j)) => return Ok((e, space_end_exec(s, j))),
        Err(ParseFail::Stop) => return Err(ParseFail::Stop),
        Err(_) => {},
    }
    match parse_object(s, i, fs) {
        Ok((e, j)) => Ok((e, space_end_exec(s, j))),
        Err(e) => Err(e),
    }
}


#[verifier::spinoff_prover]
pub fn parse_fn<P, T, D, I>(s: &Vec<char>, i: usize, fs: &FloatSupport<P, T, D, I>) -> (r: Result<(Exp, usize), ParseFail>) where
    P: Fn(&str) -> Option<u64>,
    T: Fn(u64) -> String,
    D: Fn(u64) -> String,
    I: Fn(i64) -> u64,

    requires
        fs.wf(),
        i <= s@.len(),
    ensures
        exp_res(r, p_fn(s@, i as int, fs.spec().parse)),
        r matches Ok((_, k)) ==> k <= s@.len(),
    decreases s@.len() - i, 17int,
{
    let n = s.len();
    proof {
        reveal(p_fn);
    }
    let a = alpha_end_exec(s, i);
    if a == i {
        return Err(ParseFail::Error(i, ErrorKind::MapRes));
    }
    let b = white_end_exec(s, a);
    if !char_at_exec(s, b, '(') {
        return Err(ParseFail::Error(b, ErrorKind::Char));
    }
    let c = white_end_exec(s, b + 1);
    if !(i < c && c <= s.len()) {
        return Err(ParseFail::Error(i, ErrorKind::Char));
    }
    match parse_list(s, c, fs) {
        Err(e) => Err(e),
        Ok((args, d)) => {
            if d > s.len() {
                return Err(bad(i));
            }
            let e = if char_at_exec(s, d, ',') { space_end_exec(s, d + 1) } else { d };
            let f = white_end_exec(s, e);
            if char_at_exec(s, f, ')') {
                let name = chars_to_string(s, i, a);
                proof {
                    lemma_call_model(FunctionItem { name, args });
                }
                Ok((Exp::FnCall(FunctionItem { name, args }), f + 1))
            } else {
                Err(ParseFail::Error(f, ErrorKind::Char))
            }
        },
    }
}

#[verifier::spinoff_prover]
fn parse_parens<P, T, D, I>(s: &Vec<char>, i: usize, fs: &FloatSupport<P, T, D, I>) -> (r: Result<(Exp, usize), ParseFail>) where
    P: Fn(&str) -> Option<u64>,
    T: Fn(u64) -> String,
    D: Fn(u64) -> String,
    I: Fn(i64) -> u64,

    requires
        fs.wf(),
        i <= s@.len(),
    ensures
        exp_res(r, p_parens(s@, i as int, fs.spec().parse)),
        r matches Ok((_, k)) ==> k <= s@.len(),
    decreases s@.len() - i, 17int,
{
    let n = s.len();
    proof {
        reveal(p_parens);
    }
    if !char_at_exec(s, i, '(') {
        return Err(ParseFail::Error(i, ErrorKind::Char));
    }
    let a = space_end_exec(s, i + 1);
    if !(i < a && a <= s.len()) {
        return Err(ParseFail::Error(i, ErrorKind::Char));
    }
    match parse_exp(s, a, fs) {
        Err(e) => Err(e),
        Ok((e, j)) => if char_at_exec(s, j, ')') {
            Ok((e, space_end_exec(s, j + 1)))
        } else {
            Err(ParseFail::Error(j, ErrorKind::Char))
        },
    }
}

#[verifier::spinoff_prover]
fn parse_array<P, T, D, I>(s: &Vec<char>, i: usize, fs: &FloatSupport<P, T, D, I>) -> (r: Result<(Exp, usize), ParseFail>) where
    P: Fn(&str) -> Option<u64>,
    T: Fn(u64) -> String,
    D: Fn(u64) -> String,
    I: Fn(i64) -> u64,

    requires
        fs.wf(),
        i <= s@.len(),
    ensures
        exp_res(r, p_array(s@, i as int, fs.spec().parse)),
        r matches Ok((_, k)) ==> k <= s@.len(),
    decreases s@.len() - i, 17int,
{
    let n = s.len();
    proof {
        reveal(p_array);
    }
    if !char_at_exec(s, i, '[') {
        return Err(ParseFail::Error(i, ErrorKind::Char));
    }
    let a = space_end_exec(s, i + 1);
    if !(i < a && a <= s.len()) {
        return Err(ParseFail::Error(i, ErrorKind::Char));
    }
    match parse_list(s, a, fs) {
        Err(e) => Err(e),
        Ok((items, d)) => {
            if d > s.len() {
                return Err(bad(i));
            }
            let e = if char_at_exec(s, d, ',') { space_end_exec(s, d + 1) } else { d };
            if char_at_exec(s, e, ']') {
                proof {
                    lemma_array_exp_model(items);
                }
                Ok((Exp::Array(items), e + 1))
            } else {
                Err(ParseFail::Error(e, ErrorKind::Char))
            }
        },
    }
}

#[verifier::spinoff_prover]
fn parse_object<P, T, D, I>(s: &Vec<char>, i: usize, fs: &FloatSupport<P, T, D, I>) -> (r: Result<(Exp, usize), ParseFail>) where
    P: Fn(&str) -> Option<u64>,
    T: Fn(u64) -> String,
    D: Fn(u64) -> String,
    I: Fn(i64) -> u64,

    requires
        fs.wf(),
        i <= s@.len(),
    ensures
        exp_res(r, p_object(s@, i as int, fs.spec().parse)),
        r matches Ok((_, k)) ==> k <= s@.len(),
    decreases s@.len() - i, 17int,
{
    let n = s.len();
    proof {
        reveal(p_object);
    }
    if !char_at_exec(s, i, '{') {
        return Err(ParseFail::Error(i, ErrorKind::Char));
    }
    let a = space_end_exec(s, i + 1);
    if !(i < a && a <= s.len()) {
        return Err(ParseFail::Error(i, ErrorKind::Char));
    }
    match parse_entries(s, a, fs) {
        Err(e) => Err(e),
        Ok((es, d)) => {
            if d > s.len() {
                return Err(bad(i));
            }
            let e = if char_at_exec(s, d, ',') { space_end_exec(s, d + 1) } else { d };
            if char_at_exec(s, e, '}') {
                Ok((Exp::object(es), e + 1))
            } else {
                Err(ParseFail::Error(e, ErrorKind::Char))
            }
        },
    }
}

#[verifier::spinoff_prover]
fn parse_list<P, T, D, I>(s: &Vec<char>, i: usize, fs: &FloatSupport<P, T, D, I>) -> (r: Result<(Vec<Exp>, usize), ParseFail>) where
    P: Fn(&str) -> Option<u64>,
    T: Fn(u64) -> String,
    D: Fn(u64) -> String,
    I: Fn(i64) -> u64,

    requires
        fs.wf(),
        i <= s@.len(),
    ensures
        list_res(r, p_list(s@, i as int, fs.spec().parse)),
        r matches Ok((_, k)) ==> k <= s@.len(),
    decreases s@.len() - i, 31int,
{
    let n = s.len();
    proof {
        reveal(p_list);
    }
    match parse_exp(s, i, fs) {
        Err(ParseFail::Stop) => Err(ParseFail::Stop),
        Err(_) => {
            let v: Vec<Exp> = Vec::new();
            proof {
                assert(exp_models(v@) =~= Seq::<SExp>::empty());
            }
            Ok((v, i))
        },
        Ok((e, j)) => if i < j && j <= s.len() {
            let mut v: Vec<Exp> = Vec::new();
            v.push(e);
            proof {
                assert(exp_models(v@) =~= seq![e@]);
            }
            list_rest_exec(s, j, v, fs)
        } else {
            Err(bad(i))
        },
    }
}

#[verifier::spinoff_prover]
fn list_rest_exec<P, T, D, I>(s: &Vec<char>, i: usize, acc: Vec<Exp>, fs: &FloatSupport<P, T, D, I>) -> (r: Result<(Vec<Exp>, usize), ParseFail>) where
    P: Fn(&str) -> Option<u64>,
    T: Fn(u64) -> String,
    D: Fn(u64) -> String,
    I: Fn(i64) -> u64,

    requires
        fs.wf(),
        i <= s@.len(),
    ensures
        list_res(r, list_rest(s@, i as int, exp_models(acc@), fs.spec().parse)),
        r matches Ok((_, k)) ==> k <= s@.len(),
    decreases s@.len() - i, 31int,
{
    let n = s.len();
    proof {
        reveal(list_rest);
    }
    if !char_at_exec(s, i, ',') {
        return Ok((acc, i));
    }
    let k = space_end_exec(s, i + 1);
    if !(i < k && k <= s.len()) {
        return Err(bad(i));
    }
    match parse_exp(s, k, fs) {
        Err(ParseFail::Stop) => Err(ParseFail::Stop),
        Err(_) => Ok((acc, i)),
        Ok((e, j)) => if i < j && j <= s.len() {
            let mut acc = acc;
            let ghost before = exp_models(acc@);
            acc.push(e);
            proof {
                assert(exp_models(acc@) =~= before.push(e@));
            }
            list_rest_exec(s, j, acc, fs)
        } else {
            Err(bad(i))
        },
    }
}

#[verifier::spinoff_prover]
fn parse_entry<P, T, D, I>(s: &Vec<char>, i: usize, fs: &FloatSupport<P, T, D, I>) -> (r: Result<((String, Exp), usize), ParseFail>) where
    P: Fn(&str) -> Option<u64>,
    T: Fn(u64) -> String,
    D: Fn(u64) -> String,
    I: Fn(i64) -> u64,

    requires
        fs.wf(),
        i <= s@.len(),
    ensures
        match p_entry(s@, i as int, fs.spec().parse) {
            Ok((e, j)) => r matches Ok((x, k)) && (x.0@, x.1@) == e && k == j,
            Err(e) => r matches Err(f) && f@ == e,
        },
        r matches Ok((_, k)) ==> k <= s@.len(),
    decreases s@.len() - i, 31int,
{
    let n = s.len();
    proof {
        reveal(p_entry);
    }
    match p_string_exec(s, i) {
        Err(e) => Err(e),
        Ok((key, j)) => {
            let j1 = space_end_exec(s, j);
            if !char_at_exec(s, j1, ':') {
                return Err(ParseFail::Error(j1, ErrorKind::Char));
            }
            let j2 = space_end_exec(s, j1 + 1);
            if !(i < j2 && j2 <= s.len()) {
                return Err(ParseFail::Error(i, ErrorKind::Char));
            }
            match parse_exp(s, j2, fs) {
                Err(e) => Err(e),
                Ok((e, j3)) => Ok(((key, e), j3)),
            }
        },
    }
}

#[verifier::spinoff_prover]
fn parse_entries<P, T, D, I>(s: &Vec<char>, i: usize, fs: &FloatSupport<P, T, D, I>) -> (r: Result<(Vec<(String, Exp)>, usize), ParseFail>) where
    P: Fn(&str) -> Option<u64>,
    T: Fn(u64) -> String,
    D: Fn(u64) -> String,
    I: Fn(i64) -> u64,

    requires
        fs.wf(),
        i <= s@.len(),
    ensures
        entries_res(r, p_entries(s@, i as int, fs.spec().parse)),
        r matches Ok((_, k)) ==> k <= s@.len(),
    decreases s@.len() - i, 32int,
{
    let n = s.len();
    proof {
        reveal(p_entries);
    }
    match parse_entry(s, i, fs) {
        Err(ParseFail::Stop) => Err(ParseFail::Stop),
        Err(_) => {
            let v: Vec<(String, Exp)> = Vec::new();
            proof {
                assert(exp_entry_models(v@) =~= Seq::<(Seq<char>, SExp)>::empty());
            }
            Ok((v, i))
        },
        Ok((e, j)) => if i < j && j <= s.len() {
            let ghost em = (e.0@, e.1@);
            let mut v: Vec<(String, Exp)> = Vec::new();
            v.push(e);
            proof {
                assert(exp_entry_models(v@) =~= seq![em]);
            }
            entries_rest_exec(s, j, v, fs)
        } else {
            Err(bad(i))
        },
    }
}

#[verifier::spinoff_prover]
fn entries_rest_exec<P, T, D, I>(
    s: &Vec<char>,
    i: usize,
    acc: Vec<(String, Exp)>,
    fs: &FloatSupport<P, T, D, I>,
) -> (r: Result<(Vec<(String, Exp)>, usize), ParseFail>) where
    P: Fn(&str) -> Option<u64>,
    T: Fn(u64) -> String,
    D: Fn(u64) -> String,
    I: Fn(i64) -> u64,

    requires
        fs.wf(),
        i <= s@.len(),
    ensures
        entries_res(r, entries_rest(s@, i as int, exp_entry_models(acc@), fs.spec().parse)),
        r matches Ok((_, k)) ==> k <= s@.len(),
    decreases s@.len() - i, 32int,
{
    let n = s.len();
    proof {
        reveal(entries_rest);
    }
    if !char_at_exec(s, i, ',') {
        return Ok((acc, i));
    }
    let k = space_end_exec(s, i + 1);
    if !(i < k && k <= s.len()) {
        return Err(bad(i));
    }
    match parse_entry(s, k, fs) {
        Err(ParseFail::Stop) => Err(ParseFail::Stop),
        Err(_) => Ok((acc, i)),
        Ok((e, j)) => if i < j && j <= s.len() {
            let mut acc = acc;
            let ghost before = exp_entry_models(acc@);
            let ghost em = (e.0@, e.1@);
            acc.push(e);
            proof {
                assert(exp_entry_models(acc@) =~= before.push(em));
            }
            entries_rest_exec(s, j, acc, fs)
        } else {
            Err(bad(i))
        },
    }
}

/// Whether every character is whitespace.
pub open spec fn all_white(t: Seq<char>) -> bool {
    forall|k: int| 0 <= k < t.len() ==> whitespace(#[trigger] t[k])
}

/// The text from a position on (nothing past the end).
pub open spec fn rest_at(s: Seq<char>, pos: int) -> Seq<char> {
    if 0 <= pos <= s.len() {
        s.skip(pos)
    } else {
        Seq::empty()
    }
}

/// What reading a whole text as an expression gives: the expression, or
/// the rest of the text where the failure was found and its kind, or none
/// where parsing stops. Whitespace may follow the expression.
pub open spec fn exp_text_spec(s: Seq<char>, parse: spec_fn(Seq<char>) -> Option<u64>) -> Option<Result<SExp, (Seq<char>, ErrorKind)>> {
    match p_exp(s, 0, parse) {
        Err(PErr::Stop) => None,
        Err(PErr::Error(pos, k)) => Some(Err((rest_at(s, pos), k))),
        Ok((e, j)) => if all_white(s.skip(j)) {
            Some(Ok(e))
        } else {
            Some(Err((rest_at(s, j), ErrorKind::Eof)))
        },
    }
}

/// What reading a whole text as a variable access gives; nothing may follow
/// the access.
pub open spec fn var_text_spec(s: Seq<char>) -> Option<Result<Seq<crate::var::SVarName>, (Seq<char>, ErrorKind)>> {
    match p_var(s, 0) {
        Err(PErr::Stop) => None,
        Err(PErr::Error(pos, k)) => Some(Err((rest_at(s, pos), k))),
        Ok((names, j)) => if j == s.len() {
            Some(Ok(names))
        } else {
            Some(Err((rest_at(s, j), ErrorKind::Eof)))
        },
    }
}

/// The parse error at a position.
fn error_at(s: &Vec<char>, pos: usize, code: ErrorKind) -> (r: ParseError)
    ensures
        r.input@ == rest_at(s@, pos as int),
        r.code == code,
{
    let from = if pos <= s.len() { pos } else { s.len() };
    let input = chars_to_string(s, from, s.len());
    proof {
        assert(s@.subrange(from as int, s@.len() as int) =~= rest_at(s@, pos as int));
    }
    ParseError { input, code }
}

impl Exp {
    /// Reads an expression from a text, which may end in whitespace: the
    /// expression, or the error of the parser, or `None` where the parser
    /// stops (on an index too large for `usize`).
    pub fn new<P, T, D, I>(text: &str, fs: &FloatSupport<P, T, D, I>) -> (r: Option<Result<Exp, ParseError>>) where
        P: Fn(&str) -> Option<u64>,
        T: Fn(u64) -> String,
        D: Fn(u64) -> String,
        I: Fn(i64) -> u64,

        requires
            fs.wf(),
        ensures
            match exp_text_spec(text@, fs.spec().parse) {
                None => r is None,
                Some(Ok(e)) => r matches Some(Ok(x)) && x@ == e,
                Some(Err((rest, k))) => r matches Some(Err(pe)) && pe.input@ == rest && pe.code == k,
            },
    {
        let s = str_chars(text);
        let r0 = parse_exp(&s, 0, fs);
        proof {
            assert(exp_res(r0, p_exp(text@, 0, fs.spec().parse)));
        }
        match r0 {
            Err(ParseFail::Stop) => None,
            Err(ParseFail::Error(pos, k)) => Some(Err(error_at(&s, pos, k))),
            Ok((e, j)) => {
                let mut m = j;
                while m < s.len()
                    invariant
                        j <= m <= s@.len(),
                        s@ == text@,
                        p_exp(text@, 0, fs.spec().parse) == Ok::<(SExp, int), PErr>((e@, j as int)),
                        forall|q: int| j <= q < m ==> whitespace(#[trigger] s@[q]),
                    decreases s@.len() - m,
                {
                    if !is_whitespace_char(s[m]) {
                        proof {
                            let t = s@.skip(j as int);
                            assert(t[m - j] == s@[m as int]);
                            assert(!whitespace(t[m - j]));
                            assert(!all_white(t));
                        }
                        return Some(Err(error_at(&s, j, ErrorKind::Eof)));
                    }
                    m = m + 1;
                }
                proof {
                    assert forall|q: int| 0 <= q < s@.skip(j as int).len() implies whitespace(#[trigger] s@.skip(j as int)[q]) by {
                        assert(s@.skip(j as int)[q] == s@[j + q]);
                    }
                    assert(all_white(s@.skip(j as int)));
                    assert(exp_text_spec(text@, fs.spec().parse) == Some(Ok::<SExp, (Seq<char>, ErrorKind)>(e@)));
                }
                Some(Ok(e))
            },
        }
    }

    /// Reads a variable access from a text, as an expression.
    pub fn varname(text: &str) -> (r: Option<Result<Exp, ParseError>>)
        ensures
            match var_text_spec(text@) {
                None => r is None,
                Some(Ok(names)) => r matches Some(Ok(x)) && x@ == SExp::Var(names),
                Some(Err((rest, k))) => r matches Some(Err(pe)) && pe.input@ == rest && pe.code == k,
            },
    {
        match VarAccess::parse(text) {
            None => None,
            Some(Ok(v)) => Some(Ok(Exp::Var(v))),
            Some(Err(e)) => Some(Err(e)),
        }
    }
}

impl VarAccess {
    /// Reads a variable access from a text, with nothing after it: the
    /// access, or the error of the parser, or `None` where the parser stops
    /// (on an index too large for `usize`).
    pub fn parse(text: &str) -> (r: Option<Result<VarAccess, ParseError>>)
        ensures
            match var_text_spec(text@) {
                None => r is None,
                Some(Ok(names)) => r matches Some(Ok(x)) && x@ == names,
                Some(Err((rest, k))) => r matches Some(Err(pe)) && pe.input@ == rest && pe.code == k,
            },
    {
        let s = str_chars(text);
        match p_var_exec(&s, 0) {
            Err(ParseFail::Stop) => None,
            Err(ParseFail::Error(pos, k)) => Some(Err(error_at(&s, pos, k))),
            Ok((v, j)) => if j == s.len() {
                Some(Ok(v))
            } else {
                Some(Err(error_at(&s, j, ErrorKind::Eof)))
            },
        }
    }
}

} // verus!
