//! What evaluating an expression gives: a recursive definition over the
//! syntax tree, and a second definition over a stack of pending work that
//! the evaluator's loop follows step by step.
use vstd::prelude::*;
use crate::value::{SValue, insert_all, lookup, truthy, type_text, svalue_type, value_eq};
use crate::float::{float_le, float_lt};
use crate::errors::{SEvalError, SVarAccessError};
use crate::exp::SExp;
use crate::env::SEnv;
use crate::functions::FnCallback;
use crate::var::access_bindings_spec;

verus! {

/// What an evaluation gives: a value, an error, or a stop: a case where
/// evaluation cannot go on, which the library reports instead of panicking.
pub enum Outcome {
    Val(SValue),
    Fail(SEvalError),
    Stop,
}

/// The comparison operators on numbers.
#[derive(Debug, Clone, Copy, PartialEq, Eq)]
pub enum CmpOp {
    Lt,
    Gt,
    Leq,
    Geq,
}

/// The message of comparing values of different types.
pub open spec fn cmp_error_text(a: SValue, b: SValue) -> Seq<char> {
    "Cannot compare values of different types: "@ + type_text(svalue_type(a)) + " and "@ + type_text(svalue_type(b))
}

/// A comparison: integers with integers and floats with floats; anything
/// else is a type error.
pub open spec fn cmp_spec(op: CmpOp, a: SValue, b: SValue) -> Outcome {
    match (a, b) {
        (SValue::Int(x), SValue::Int(y)) => Outcome::Val(SValue::Bool(match op {
            CmpOp::Lt => x < y,
            CmpOp::Gt => x > y,
            CmpOp::Leq => x <= y,
            CmpOp::Geq => x >= y,
        })),
        (SValue::Float(x), SValue::Float(y)) => Outcome::Val(SValue::Bool(match op {
            CmpOp::Lt => float_lt(x, y),
            CmpOp::Gt => float_lt(y, x),
            CmpOp::Leq => float_le(x, y),
            CmpOp::Geq => float_le(y, x),
        })),
        _ => Outcome::Fail(SEvalError::TypeError(cmp_error_text(a, b))),
    }
}

/// The outcome of a call as evaluation reports it: an error of the callee is
/// wrapped with the function's name.
pub open spec fn wrap_call(name: Seq<char>, o: Outcome) -> Outcome {
    match o {
        Outcome::Fail(e) => Outcome::Fail(SEvalError::FnCall(name, Box::new(e))),
        _ => o,
    }
}

/// The outcome of a call of `name` with `args`: an unknown name is an
/// error, else `ans` says what the callback gives.
pub open spec fn call_spec(
    name: Seq<char>,
    args: Seq<SValue>,
    env: SEnv,
    ans: spec_fn(FnCallback, Seq<SValue>) -> Outcome,
) -> Outcome {
    match lookup(env.vtable, name) {
        None => Outcome::Fail(SEvalError::FunctionNotFound(name)),
        Some(cb) => wrap_call(name, ans(cb, args)),
    }
}

/// An outcome that is a value error standing alone, not inside the error
/// of a call.
pub open spec fn bare_value_error(o: Outcome) -> bool {
    o matches Outcome::Fail(SEvalError::ValueError(_))
}

/// Evaluation of an expression. `ans` gives the outcome of calling a
/// callback with argument values.
///
/// Operands of operators, arguments of calls and items of arrays are
/// evaluated first to last; the values of an object, held in the order of
/// their keys, last to first. The first error met is the outcome. `&&` and `||` evaluate their right side only
/// when the left one does not decide: `a && b` is `b` when `a` is truthy and
/// `false` otherwise, `a || b` is `a` when `a` is truthy and `b` otherwise.
pub open spec fn eval_spec(e: SExp, env: SEnv, ans: spec_fn(FnCallback, Seq<SValue>) -> Outcome) -> Outcome
    decreases e, 0int,
{
    match e {
        SExp::Literal(v) => Outcome::Val(v),
        SExp::Var(names) => match access_bindings_spec(names, env.bindings) {
            Ok(v) => Outcome::Val(v),
            Err(err) => Outcome::Fail(SEvalError::VarAccess(err)),
        },
        SExp::Neg(x) => match eval_spec(*x, env, ans) {
            Outcome::Val(v) => Outcome::Val(SValue::Bool(!truthy(v))),
            o => o,
        },
        SExp::And(l, r) => match eval_spec(*l, env, ans) {
            Outcome::Val(v) => if truthy(v) {
                eval_spec(*r, env, ans)
            } else {
                Outcome::Val(SValue::Bool(false))
            },
            o => o,
        },
        SExp::Or(l, r) => match eval_spec(*l, env, ans) {
            Outcome::Val(v) => if truthy(v) {
                Outcome::Val(v)
            } else {
                eval_spec(*r, env, ans)
            },
            o => o,
        },
        SExp::Eq(l, r) => match eval_spec(*l, env, ans) {
            Outcome::Val(a) => match eval_spec(*r, env, ans) {
                Outcome::Val(b) => Outcome::Val(SValue::Bool(value_eq(a, b))),
                o => o,
            },
            o => o,
        },
        SExp::Neq(l, r) => match eval_spec(*l, env, ans) {
            Outcome::Val(a) => match eval_spec(*r, env, ans) {
                Outcome::Val(b) => Outcome::Val(SValue::Bool(!value_eq(a, b))),
                o => o,
            },
            o => o,
        },
        SExp::Gt(l, r) => cmp_outcomes(CmpOp::Gt, eval_spec(*l, env, ans), eval_spec(*r, env, ans)),
        SExp::Lt(l, r) => cmp_outcomes(CmpOp::Lt, eval_spec(*l, env, ans), eval_spec(*r, env, ans)),
        SExp::Geq(l, r) => cmp_outcomes(CmpOp::Geq, eval_spec(*l, env, ans), eval_spec(*r, env, ans)),
        SExp::Leq(l, r) => cmp_outcomes(CmpOp::Leq, eval_spec(*l, env, ans), eval_spec(*r, env, ans)),
        SExp::FnCall(name, args) => match eval_args(args, env, ans) {
            Ok(vs) => call_spec(name, vs, env, ans),
            Err(o) => o,
        },
        SExp::Array(items) => match eval_args(items, env, ans) {
            Ok(vs) => Outcome::Val(SValue::Array(vs)),
            Err(o) => o,
        },
        SExp::Object(entries) => match eval_entries(entries, env, ans) {
            Ok(ps) => Outcome::Val(SValue::Object(insert_all(Seq::empty(), ps))),
            Err(o) => o,
        },
    }
}

/// A comparison of two operands' outcomes: the left one's failure or stop
/// comes first, then the right one's.
pub open spec fn cmp_outcomes(op: CmpOp, l: Outcome, r: Outcome) -> Outcome {
    match l {
        Outcome::Val(a) => match r {
            Outcome::Val(b) => cmp_spec(op, a, b),
            o => o,
        },
        o => o,
    }
}

/// Evaluation of arguments, left to right: their values, or the outcome of
/// the first that gave no value.
pub open spec fn eval_args(
    args: Seq<SExp>,
    env: SEnv,
    ans: spec_fn(FnCallback, Seq<SValue>) -> Outcome,
) -> Result<Seq<SValue>, Outcome>
    decreases args, 0int,
{
    if args.len() == 0 {
        Ok(Seq::empty())
    } else {
        match eval_spec(args[0], env, ans) {
            Outcome::Val(v) => match eval_args(args.subrange(1, args.len() as int), env, ans) {
                Ok(vs) => Ok(seq![v] + vs),
                Err(o) => Err(o),
            },
            o => Err(o),
        }
    }
}

/// Evaluation of object entries, last to first: the keys with the values
/// in the entries' order, or the outcome of the last entry that gave no
/// value.
pub open spec fn eval_entries(
    entries: Seq<(Seq<char>, SExp)>,
    env: SEnv,
    ans: spec_fn(FnCallback, Seq<SValue>) -> Outcome,
) -> Result<Seq<(Seq<char>, SValue)>, Outcome>
    decreases entries, 0int,
{
    if entries.len() == 0 {
        Ok(Seq::empty())
    } else {
        let last = entries[entries.len() - 1];
        match eval_spec(last.1, env, ans) {
            Outcome::Val(v) => match eval_entries(entries.subrange(0, entries.len() - 1), env, ans) {
                Ok(ps) => Ok(ps.push((last.0, v))),
                Err(o) => Err(o),
            },
            o => Err(o),
        }
    }
}

/// A piece of pending work of the evaluator.
pub enum SFrame {
    /// Evaluate an expression and push its value.
    ToEval(SExp),
    /// Push a key for an object under construction.
    ObjectKey(Seq<char>),
    /// Replace the top value by its negated truthiness.
    Neg,
    /// The left side of `||` is on top; the right side is still to evaluate.
    Or(SExp),
    /// The left side of `&&` is on top; the right side is still to evaluate.
    And(SExp),
    /// Compare the two top values for equality.
    Eq,
    /// Compare the two top values for inequality.
    Neq,
    /// Compare the two top values by order.
    Cmp(CmpOp),
    /// Call a function with the top values as arguments.
    FnCall(Seq<char>, nat),
    /// Make an array of the top values.
    Array(nat),
    /// Make an object of the top values and keys.
    Object(nat),
}

/// The text of the error when evaluation leaves no value.
pub open spec fn no_value_text() -> Seq<char> {
    "No value on stack after evaluation"@
}

/// The last `n` keys with the last `n` values, the topmost first.
pub open spec fn top_pairs(keys: Seq<Seq<char>>, values: Seq<SValue>, n: nat) -> Seq<(Seq<char>, SValue)> {
    Seq::new(n, |t: int| (keys[keys.len() - 1 - t], values[values.len() - 1 - t]))
}

/// What finishing the pending work gives, from a stack of frames (its top
/// last), a stack of values and a stack of object keys.
pub open spec fn fin(
    frames: Seq<SFrame>,
    values: Seq<SValue>,
    keys: Seq<Seq<char>>,
    env: SEnv,
    ans: spec_fn(FnCallback, Seq<SValue>) -> Outcome,
) -> Outcome
    decreases frames.len(),
{
    if frames.len() == 0 {
        if values.len() > 0 {
            Outcome::Val(values.last())
        } else {
            Outcome::Fail(SEvalError::ValueError(no_value_text()))
        }
    } else {
        let rest = frames.drop_last();
        let n = values.len();
        match frames.last() {
            SFrame::ToEval(e) => match eval_spec(e, env, ans) {
                Outcome::Val(v) => fin(rest, values.push(v), keys, env, ans),
                o => o,
            },
            SFrame::ObjectKey(k) => fin(rest, values, keys.push(k), env, ans),
            SFrame::Neg => fin(rest, values.drop_last().push(SValue::Bool(!truthy(values.last()))), keys, env, ans),
            SFrame::And(r) => if truthy(values.last()) {
                match eval_spec(r, env, ans) {
                    Outcome::Val(v) => fin(rest, values.drop_last().push(v), keys, env, ans),
                    o => o,
                }
            } else {
                fin(rest, values.drop_last().push(SValue::Bool(false)), keys, env, ans)
            },
            SFrame::Or(r) => if truthy(values.last()) {
                fin(rest, values, keys, env, ans)
            } else {
                match eval_spec(r, env, ans) {
                    Outcome::Val(v) => fin(rest, values.drop_last().push(v), keys, env, ans),
                    o => o,
                }
            },
            SFrame::Eq => fin(
                rest,
                values.take(n - 2).push(SValue::Bool(value_eq(values[n - 2], values[n - 1]))),
                keys,
                env,
                ans,
            ),
            SFrame::Neq => fin(
                rest,
                values.take(n - 2).push(SValue::Bool(!value_eq(values[n - 2], values[n - 1]))),
                keys,
                env,
                ans,
            ),
            SFrame::Cmp(op) => match cmp_spec(op, values[n - 2], values[n - 1]) {
                Outcome::Val(v) => fin(rest, values.take(n - 2).push(v), keys, env, ans),
                o => o,
            },
            SFrame::FnCall(name, k) => match call_spec(name, values.skip(n - k), env, ans) {
                Outcome::Val(v) => fin(rest, values.take(n - k).push(v), keys, env, ans),
                o => o,
            },
            SFrame::Array(k) => fin(
                rest,
                values.take(n - k).push(SValue::Array(values.skip(n - k))),
                keys,
                env,
                ans,
            ),
            SFrame::Object(k) => fin(
                rest,
                values.take(n - k).push(SValue::Object(insert_all(Seq::empty(), top_pairs(keys, values, k)))),
                keys.take(keys.len() - k),
                env,
                ans,
            ),
        }
    }
}

/// Whether the stacks hold what each frame takes from them, and once all
/// frames are done, exactly one value and no key are left.
pub open spec fn frames_ok(frames: Seq<SFrame>, vlen: int, klen: int) -> bool
    decreases frames.len(),
{
    if frames.len() == 0 {
        vlen == 1 && klen == 0
    } else {
        let rest = frames.drop_last();
        match frames.last() {
            SFrame::ToEval(_) => frames_ok(rest, vlen + 1, klen),
            SFrame::ObjectKey(_) => frames_ok(rest, vlen, klen + 1),
            SFrame::Neg => vlen >= 1 && frames_ok(rest, vlen, klen),
            SFrame::And(_) => vlen >= 1 && frames_ok(rest, vlen, klen),
            SFrame::Or(_) => vlen >= 1 && frames_ok(rest, vlen, klen),
            SFrame::Eq => vlen >= 2 && frames_ok(rest, vlen - 1, klen),
            SFrame::Neq => vlen >= 2 && frames_ok(rest, vlen - 1, klen),
            SFrame::Cmp(_) => vlen >= 2 && frames_ok(rest, vlen - 1, klen),
            SFrame::FnCall(_, n) => vlen >= n && frames_ok(rest, vlen - n + 1, klen),
            SFrame::Array(n) => vlen >= n && frames_ok(rest, vlen - n + 1, klen),
            SFrame::Object(n) => vlen >= n && klen >= n && frames_ok(rest, vlen - n + 1, klen - n),
        }
    }
}

/// The size of an expression, which bounds the work of evaluating it.
pub open spec fn exp_size(e: SExp) -> nat
    decreases e, 0int,
{
    match e {
        SExp::Literal(_) => 1,
        SExp::Var(_) => 1,
        SExp::Neg(x) => 1 + exp_size(*x),
        SExp::Or(l, r) => 1 + exp_size(*l) + exp_size(*r),
        SExp::And(l, r) => 1 + exp_size(*l) + exp_size(*r),
        SExp::Eq(l, r) => 1 + exp_size(*l) + exp_size(*r),
        SExp::Neq(l, r) => 1 + exp_size(*l) + exp_size(*r),
        SExp::Gt(l, r) => 1 + exp_size(*l) + exp_size(*r),
        SExp::Lt(l, r) => 1 + exp_size(*l) + exp_size(*r),
        SExp::Geq(l, r) => 1 + exp_size(*l) + exp_size(*r),
        SExp::Leq(l, r) => 1 + exp_size(*l) + exp_size(*r),
        SExp::FnCall(_, args) => 1 + sizes_first(args),
        SExp::Array(items) => 1 + sizes_first(items),
        SExp::Object(es) => 1 + entry_sizes(es),
    }
}

/// The sizes of a list of expressions, summed from the front.
pub open spec fn sizes_first(s: Seq<SExp>) -> nat
    decreases s, 0int,
{
    if s.len() == 0 {
        0
    } else {
        exp_size(s[0]) + sizes_first(s.subrange(1, s.len() as int))
    }
}

/// The sizes of object entries, one more for each key.
pub open spec fn entry_sizes(s: Seq<(Seq<char>, SExp)>) -> nat
    decreases s, 0int,
{
    if s.len() == 0 {
        0
    } else {
        1 + exp_size(s[s.len() - 1].1) + entry_sizes(s.subrange(0, s.len() - 1))
    }
}

/// The weight of a frame: what is left to do for it.
pub open spec fn frame_weight(f: SFrame) -> nat {
    match f {
        SFrame::ToEval(e) => 2 * exp_size(e),
        SFrame::And(r) => 1 + 2 * exp_size(r),
        SFrame::Or(r) => 1 + 2 * exp_size(r),
        _ => 1,
    }
}

/// The weight of a stack of frames; every step of the evaluator lowers it.
pub open spec fn weight(frames: Seq<SFrame>) -> nat
    decreases frames.len(),
{
    if frames.len() == 0 {
        0
    } else {
        weight(frames.drop_last()) + frame_weight(frames.last())
    }
}

/// The frames for arguments: the first argument on top.
pub open spec fn arg_frames(args: Seq<SExp>) -> Seq<SFrame>
    decreases args.len(),
{
    if args.len() == 0 {
        Seq::empty()
    } else {
        arg_frames(args.subrange(1, args.len() as int)).push(SFrame::ToEval(args[0]))
    }
}

/// The frames for object entries: the last entry's key on top, its value
/// below, then the frames of the entries before it.
pub open spec fn entry_frames(es: Seq<(Seq<char>, SExp)>) -> Seq<SFrame>
    decreases es.len(),
{
    if es.len() == 0 {
        Seq::empty()
    } else {
        let last = es[es.len() - 1];
        entry_frames(es.subrange(0, es.len() - 1)).push(SFrame::ToEval(last.1)).push(SFrame::ObjectKey(last.0))
    }
}

/// The frames that replace the evaluation of a compound expression.
pub open spec fn expand(e: SExp) -> Seq<SFrame> {
    match e {
        SExp::Neg(x) => seq![SFrame::Neg, SFrame::ToEval(*x)],
        SExp::And(l, r) => seq![SFrame::And(*r), SFrame::ToEval(*l)],
        SExp::Or(l, r) => seq![SFrame::Or(*r), SFrame::ToEval(*l)],
        SExp::Eq(l, r) => seq![SFrame::Eq, SFrame::ToEval(*r), SFrame::ToEval(*l)],
        SExp::Neq(l, r) => seq![SFrame::Neq, SFrame::ToEval(*r), SFrame::ToEval(*l)],
        SExp::Gt(l, r) => seq![SFrame::Cmp(CmpOp::Gt), SFrame::ToEval(*r), SFrame::ToEval(*l)],
        SExp::Lt(l, r) => seq![SFrame::Cmp(CmpOp::Lt), SFrame::ToEval(*r), SFrame::ToEval(*l)],
        SExp::Geq(l, r) => seq![SFrame::Cmp(CmpOp::Geq), SFrame::ToEval(*r), SFrame::ToEval(*l)],
        SExp::Leq(l, r) => seq![SFrame::Cmp(CmpOp::Leq), SFrame::ToEval(*r), SFrame::ToEval(*l)],
        SExp::FnCall(name, args) => seq![SFrame::FnCall(name, args.len())] + arg_frames(args),
        SExp::Array(items) => seq![SFrame::Array(items.len())] + arg_frames(items),
        SExp::Object(es) => seq![SFrame::Object(es.len())] + entry_frames(es),
        _ => seq![SFrame::ToEval(e)],
    }
}

/// Whether an expression is evaluated by expanding it into frames.
pub open spec fn is_compound(e: SExp) -> bool {
    !(e is Literal) && !(e is Var)
}

/// The keys of pairs, the last pair's first.
pub open spec fn pair_keys(ps: Seq<(Seq<char>, SValue)>) -> Seq<Seq<char>> {
    Seq::new(ps.len(), |i: int| ps[ps.len() - 1 - i].0)
}

/// The values of pairs, the last pair's first.
pub open spec fn pair_values(ps: Seq<(Seq<char>, SValue)>) -> Seq<SValue> {
    Seq::new(ps.len(), |i: int| ps[ps.len() - 1 - i].1)
}

/// Finishing after argument frames: the arguments are evaluated left to
/// right and their values pushed in order.
pub proof fn lemma_arg_frames(
    f: Seq<SFrame>,
    args: Seq<SExp>,
    vals: Seq<SValue>,
    keys: Seq<Seq<char>>,
    env: SEnv,
    ans: spec_fn(FnCallback, Seq<SValue>) -> Outcome,
)
    ensures
        fin(f + arg_frames(args), vals, keys, env, ans) == match eval_args(args, env, ans) {
            Ok(vs) => fin(f, vals + vs, keys, env, ans),
            Err(o) => o,
        },
        eval_args(args, env, ans) matches Ok(vs) ==> vs.len() == args.len(),
        eval_args(args, env, ans) matches Err(o) ==> !(o is Val),
    decreases args.len(),
{
    if args.len() == 0 {
        assert(f + arg_frames(args) =~= f);
        if let Ok(vs) = eval_args(args, env, ans) {
            assert(vals + vs =~= vals);
        }
    } else {
        let rest = args.subrange(1, args.len() as int);
        let g = f + arg_frames(args);
        assert(g.last() == SFrame::ToEval(args[0]));
        assert(g.drop_last() =~= f + arg_frames(rest));
        if let Outcome::Val(v) = eval_spec(args[0], env, ans) {
            lemma_arg_frames(f, rest, vals.push(v), keys, env, ans);
            if let Ok(vs) = eval_args(rest, env, ans) {
                assert(vals.push(v) + vs =~= vals + (seq![v] + vs));
            }
        }
    }
}

/// Finishing after entry frames: the entries are evaluated last to first,
/// their keys and values pushed as they come.
pub proof fn lemma_entry_frames(
    f: Seq<SFrame>,
    es: Seq<(Seq<char>, SExp)>,
    vals: Seq<SValue>,
    keys: Seq<Seq<char>>,
    env: SEnv,
    ans: spec_fn(FnCallback, Seq<SValue>) -> Outcome,
)
    ensures
        fin(f + entry_frames(es), vals, keys, env, ans) == match eval_entries(es, env, ans) {
            Ok(ps) => fin(f, vals + pair_values(ps), keys + pair_keys(ps), env, ans),
            Err(o) => o,
        },
        eval_entries(es, env, ans) matches Ok(ps) ==> ps.len() == es.len(),
        eval_entries(es, env, ans) matches Err(o) ==> !(o is Val),
    decreases es.len(),
{
    if es.len() == 0 {
        assert(f + entry_frames(es) =~= f);
        if let Ok(ps) = eval_entries(es, env, ans) {
            assert(vals + pair_values(ps) =~= vals);
            assert(keys + pair_keys(ps) =~= keys);
        }
    } else {
        let rest = es.subrange(0, es.len() - 1);
        let last = es[es.len() - 1];
        let g = f + entry_frames(es);
        let g1 = g.drop_last();
        assert(g.last() == SFrame::ObjectKey(last.0));
        assert(g1.last() == SFrame::ToEval(last.1));
        assert(g1.drop_last() =~= f + entry_frames(rest));
        assert(fin(g, vals, keys, env, ans) == fin(g1, vals, keys.push(last.0), env, ans));
        if let Outcome::Val(v) = eval_spec(last.1, env, ans) {
            assert(fin(g1, vals, keys.push(last.0), env, ans) == fin(f + entry_frames(rest), vals.push(v), keys.push(last.0), env, ans));
            lemma_entry_frames(f, rest, vals.push(v), keys.push(last.0), env, ans);
            if let Ok(ps) = eval_entries(rest, env, ans) {
                let ps2 = ps.push((last.0, v));
                assert(pair_values(ps2) =~= seq![v] + pair_values(ps));
                assert(pair_keys(ps2) =~= seq![last.0] + pair_keys(ps));
                assert(vals.push(v) + pair_values(ps) =~= vals + pair_values(ps2));
                assert(keys.push(last.0) + pair_keys(ps) =~= keys + pair_keys(ps2));
            }
        }
    }
}

/// Finishing after a binary operator's frames: both operands are
/// evaluated, the left one first.
proof fn lemma_binary_frames(
    f: Seq<SFrame>,
    top: SFrame,
    l: SExp,
    r: SExp,
    vals: Seq<SValue>,
    keys: Seq<Seq<char>>,
    env: SEnv,
    ans: spec_fn(FnCallback, Seq<SValue>) -> Outcome,
)
    ensures
        fin(f + seq![top, SFrame::ToEval(r), SFrame::ToEval(l)], vals, keys, env, ans) == match eval_spec(l, env, ans) {
            Outcome::Val(a) => match eval_spec(r, env, ans) {
                Outcome::Val(b) => fin(f.push(top), vals.push(a).push(b), keys, env, ans),
                o => o,
            },
            o => o,
        },
{
    let g = f + seq![top, SFrame::ToEval(r), SFrame::ToEval(l)];
    let g1 = f + seq![top, SFrame::ToEval(r)];
    assert(g.last() == SFrame::ToEval(l));
    assert(g.drop_last() =~= g1);
    assert(g1.last() == SFrame::ToEval(r));
    assert(g1.drop_last() =~= f.push(top));
    if let Outcome::Val(a) = eval_spec(l, env, ans) {
        assert(fin(g, vals, keys, env, ans) == fin(g1, vals.push(a), keys, env, ans));
    }
}

/// Expanding a unary or binary expression into frames finishes as
/// evaluating it.
#[verifier::spinoff_prover]
proof fn lemma_expand_ops(
    f: Seq<SFrame>,
    e: SExp,
    vals: Seq<SValue>,
    keys: Seq<Seq<char>>,
    env: SEnv,
    ans: spec_fn(FnCallback, Seq<SValue>) -> Outcome,
)
    requires
        is_compound(e),
        !(e is FnCall),
        !(e is Array),
        !(e is Object),
    ensures
        fin(f + expand(e), vals, keys, env, ans) == fin(f.push(SFrame::ToEval(e)), vals, keys, env, ans),
{
    let n = vals.len();
    assert(f.push(SFrame::ToEval(e)).drop_last() =~= f);
    match e {
        SExp::Neg(x) => {
            let g = f + expand(e);
            assert(g.last() == SFrame::ToEval(*x));
            assert(g.drop_last() =~= f.push(SFrame::Neg));
            assert(f.push(SFrame::Neg).drop_last() =~= f);
            if let Outcome::Val(v) = eval_spec(*x, env, ans) {
                assert(vals.push(v).drop_last() =~= vals);
                assert(fin(g, vals, keys, env, ans) == fin(f.push(SFrame::Neg), vals.push(v), keys, env, ans));
            }
        },
        SExp::And(l, r) => {
            let g = f + expand(e);
            assert(g.last() == SFrame::ToEval(*l));
            assert(g.drop_last() =~= f.push(SFrame::And(*r)));
            assert(f.push(SFrame::And(*r)).drop_last() =~= f);
            if let Outcome::Val(v) = eval_spec(*l, env, ans) {
                assert(vals.push(v).drop_last() =~= vals);
                assert(fin(g, vals, keys, env, ans) == fin(f.push(SFrame::And(*r)), vals.push(v), keys, env, ans));
            }
        },
        SExp::Or(l, r) => {
            let g = f + expand(e);
            assert(g.last() == SFrame::ToEval(*l));
            assert(g.drop_last() =~= f.push(SFrame::Or(*r)));
            assert(f.push(SFrame::Or(*r)).drop_last() =~= f);
            if let Outcome::Val(v) = eval_spec(*l, env, ans) {
                assert(vals.push(v).drop_last() =~= vals);
                assert(fin(g, vals, keys, env, ans) == fin(f.push(SFrame::Or(*r)), vals.push(v), keys, env, ans));
            }
        },
        _ => {
            let (top, l, r) = match e {
                SExp::Eq(l, r) => (SFrame::Eq, *l, *r),
                SExp::Neq(l, r) => (SFrame::Neq, *l, *r),
                SExp::Gt(l, r) => (SFrame::Cmp(CmpOp::Gt), *l, *r),
                SExp::Lt(l, r) => (SFrame::Cmp(CmpOp::Lt), *l, *r),
                SExp::Geq(l, r) => (SFrame::Cmp(CmpOp::Geq), *l, *r),
                SExp::Leq(l, r) => (SFrame::Cmp(CmpOp::Leq), *l, *r),
                _ => arbitrary(),
            };
            assert(expand(e) == seq![top, SFrame::ToEval(r), SFrame::ToEval(l)]);
            lemma_binary_frames(f, top, l, r, vals, keys, env, ans);
            assert(f.push(top).drop_last() =~= f);
            if let (Outcome::Val(a), Outcome::Val(b)) = (eval_spec(l, env, ans), eval_spec(r, env, ans)) {
                let vs = vals.push(a).push(b);
                assert(vs.take(n as int) =~= vals);
                assert(vs[n as int] == a);
                assert(vs[n + 1int] == b);
            }
        },
    }
}

/// Expanding a call, an array or an object into frames finishes as
/// evaluating it.
#[verifier::spinoff_prover]
proof fn lemma_expand_lists(
    f: Seq<SFrame>,
    e: SExp,
    vals: Seq<SValue>,
    keys: Seq<Seq<char>>,
    env: SEnv,
    ans: spec_fn(FnCallback, Seq<SValue>) -> Outcome,
)
    requires
        e is FnCall || e is Array || e is Object,
    ensures
        fin(f + expand(e), vals, keys, env, ans) == fin(f.push(SFrame::ToEval(e)), vals, keys, env, ans),
{
    let n = vals.len();
    assert(f.push(SFrame::ToEval(e)).drop_last() =~= f);
    match e {
        SExp::FnCall(name, args) => {
            let top = SFrame::FnCall(name, args.len());
            assert(f + expand(e) =~= f.push(top) + arg_frames(args));
            lemma_arg_frames(f.push(top), args, vals, keys, env, ans);
            assert(f.push(top).drop_last() =~= f);
            if let Ok(vs) = eval_args(args, env, ans) {
                assert((vals + vs).skip(n as int) =~= vs);
                assert((vals + vs).take(n as int) =~= vals);
            }
        },
        SExp::Array(items) => {
            let top = SFrame::Array(items.len());
            assert(f + expand(e) =~= f.push(top) + arg_frames(items));
            lemma_arg_frames(f.push(top), items, vals, keys, env, ans);
            assert(f.push(top).drop_last() =~= f);
            if let Ok(vs) = eval_args(items, env, ans) {
                assert((vals + vs).skip(n as int) =~= vs);
                assert((vals + vs).take(n as int) =~= vals);
            }
        },
        SExp::Object(es) => {
            let top = SFrame::Object(es.len());
            assert(f + expand(e) =~= f.push(top) + entry_frames(es));
            lemma_entry_frames(f.push(top), es, vals, keys, env, ans);
            assert(f.push(top).drop_last() =~= f);
            if let Ok(ps) = eval_entries(es, env, ans) {
                let vs2 = vals + pair_values(ps);
                let ks2 = keys + pair_keys(ps);
                assert(top_pairs(ks2, vs2, es.len()) =~= ps);
                assert(vs2.take(n as int) =~= vals);
                assert(ks2.take(keys.len() as int) =~= keys);
            }
        },
        _ => {},
    }
}

/// Expanding a compound expression into frames finishes as evaluating it.
pub proof fn lemma_expand(
    f: Seq<SFrame>,
    e: SExp,
    vals: Seq<SValue>,
    keys: Seq<Seq<char>>,
    env: SEnv,
    ans: spec_fn(FnCallback, Seq<SValue>) -> Outcome,
)
    requires
        is_compound(e),
    ensures
        fin(f + expand(e), vals, keys, env, ans) == fin(f.push(SFrame::ToEval(e)), vals, keys, env, ans),
{
    if e is FnCall || e is Array || e is Object {
        lemma_expand_lists(f, e, vals, keys, env, ans);
    } else {
        lemma_expand_ops(f, e, vals, keys, env, ans);
    }
}

/// Argument frames push one value each.
pub proof fn lemma_arg_frames_ok(f: Seq<SFrame>, args: Seq<SExp>, v: int, k: int)
    ensures
        frames_ok(f + arg_frames(args), v, k) == frames_ok(f, v + args.len(), k),
        weight(f + arg_frames(args)) == weight(f) + 2 * sizes_first(args),
    decreases args.len(),
{
    if args.len() == 0 {
        assert(f + arg_frames(args) =~= f);
    } else {
        let rest = args.subrange(1, args.len() as int);
        let g = f + arg_frames(args);
        assert(g.last() == SFrame::ToEval(args[0]));
        assert(g.drop_last() =~= f + arg_frames(rest));
        lemma_arg_frames_ok(f, rest, v + 1, k);
    }
}

/// Entry frames push one value and one key each.
pub proof fn lemma_entry_frames_ok(f: Seq<SFrame>, es: Seq<(Seq<char>, SExp)>, v: int, k: int)
    ensures
        frames_ok(f + entry_frames(es), v, k) == frames_ok(f, v + es.len(), k + es.len()),
        weight(f + entry_frames(es)) + es.len() == weight(f) + 2 * entry_sizes(es),
    decreases es.len(),
{
    if es.len() == 0 {
        assert(f + entry_frames(es) =~= f);
    } else {
        let rest = es.subrange(0, es.len() - 1);
        let last = es[es.len() - 1];
        let g = f + entry_frames(es);
        let g1 = g.drop_last();
        assert(g.last() == SFrame::ObjectKey(last.0));
        assert(g1.last() == SFrame::ToEval(last.1));
        assert(g1.drop_last() =~= f + entry_frames(rest));
        lemma_entry_frames_ok(f, rest, v + 1, k + 1);
        assert(frames_ok(g, v, k) == frames_ok(g1, v, k + 1));
        assert(frames_ok(g1, v, k + 1) == frames_ok(f + entry_frames(rest), v + 1, k + 1));
        assert(weight(g) == weight(g1) + 1);
        assert(weight(g1) == weight(f + entry_frames(rest)) + 2 * exp_size(last.1));
    }
}

/// Expanding a compound expression asks of the stacks what evaluating it
/// asks, and lowers the weight.
pub proof fn lemma_expand_ok(f: Seq<SFrame>, e: SExp, v: int, k: int)
    requires
        is_compound(e),
        v >= 0,
        k >= 0,
    ensures
        frames_ok(f + expand(e), v, k) == frames_ok(f.push(SFrame::ToEval(e)), v, k),
        weight(f + expand(e)) < weight(f.push(SFrame::ToEval(e))),
{
    assert(f.push(SFrame::ToEval(e)).drop_last() =~= f);
    assert(frames_ok(f.push(SFrame::ToEval(e)), v, k) == frames_ok(f, v + 1, k));
    assert(weight(f.push(SFrame::ToEval(e))) == weight(f) + 2 * exp_size(e));
    match e {
        SExp::FnCall(name, args) => {
            let top = SFrame::FnCall(name, args.len());
            assert(f + expand(e) =~= f.push(top) + arg_frames(args));
            lemma_arg_frames_ok(f.push(top), args, v, k);
            assert(f.push(top).drop_last() =~= f);
            assert(frames_ok(f.push(top), v + args.len(), k) == frames_ok(f, v + 1, k));
            assert(weight(f.push(top)) == weight(f) + 1);
        },
        SExp::Array(items) => {
            let top = SFrame::Array(items.len());
            assert(f + expand(e) =~= f.push(top) + arg_frames(items));
            lemma_arg_frames_ok(f.push(top), items, v, k);
            assert(f.push(top).drop_last() =~= f);
            assert(frames_ok(f.push(top), v + items.len(), k) == frames_ok(f, v + 1, k));
            assert(weight(f.push(top)) == weight(f) + 1);
        },
        SExp::Object(es) => {
            let top = SFrame::Object(es.len());
            assert(f + expand(e) =~= f.push(top) + entry_frames(es));
            lemma_entry_frames_ok(f.push(top), es, v, k);
            assert(f.push(top).drop_last() =~= f);
            assert(frames_ok(f.push(top), v + es.len(), k + es.len()) == frames_ok(f, v + 1, k));
            assert(weight(f.push(top)) == weight(f) + 1);
        },
        SExp::Neg(x) => {
            let g = f + expand(e);
            assert(g.drop_last() =~= f.push(SFrame::Neg));
            assert(f.push(SFrame::Neg).drop_last() =~= f);
            assert(frames_ok(g, v, k) == frames_ok(f.push(SFrame::Neg), v + 1, k));
            assert(weight(g) == weight(f.push(SFrame::Neg)) + frame_weight(g.last()));
        },
        SExp::And(l, r) => {
            let g = f + expand(e);
            assert(g.drop_last() =~= f.push(SFrame::And(*r)));
            assert(f.push(SFrame::And(*r)).drop_last() =~= f);
            assert(frames_ok(g, v, k) == frames_ok(f.push(SFrame::And(*r)), v + 1, k));
            assert(weight(g) == weight(f.push(SFrame::And(*r))) + frame_weight(g.last()));
        },
        SExp::Or(l, r) => {
            let g = f + expand(e);
            assert(g.drop_last() =~= f.push(SFrame::Or(*r)));
            assert(f.push(SFrame::Or(*r)).drop_last() =~= f);
            assert(frames_ok(g, v, k) == frames_ok(f.push(SFrame::Or(*r)), v + 1, k));
            assert(weight(g) == weight(f.push(SFrame::Or(*r))) + frame_weight(g.last()));
        },
        SExp::Literal(_) => {},
        SExp::Var(_) => {},
        _ => {
            let (top, l, r) = match e {
                SExp::Eq(l, r) => (SFrame::Eq, *l, *r),
                SExp::Neq(l, r) => (SFrame::Neq, *l, *r),
                SExp::Gt(l, r) => (SFrame::Cmp(CmpOp::Gt), *l, *r),
                SExp::Lt(l, r) => (SFrame::Cmp(CmpOp::Lt), *l, *r),
                SExp::Geq(l, r) => (SFrame::Cmp(CmpOp::Geq), *l, *r),
                SExp::Leq(l, r) => (SFrame::Cmp(CmpOp::Leq), *l, *r),
                _ => arbitrary(),
            };
            assert(expand(e) == seq![top, SFrame::ToEval(r), SFrame::ToEval(l)]);
            let g = f + expand(e);
            let g1 = f + seq![top, SFrame::ToEval(r)];
            assert(g.drop_last() =~= g1);
            assert(g1.drop_last() =~= f.push(top));
            assert(f.push(top).drop_last() =~= f);
            assert(frames_ok(g, v, k) == frames_ok(g1, v + 1, k));
            assert(frames_ok(g1, v + 1, k) == frames_ok(f.push(top), v + 2, k));
            assert(weight(g) == weight(g1) + 2 * exp_size(l));
            assert(weight(g1) == weight(f.push(top)) + 2 * exp_size(r));
        },
    }
}

} // verus!
