//! The evaluator: a loop over a stack of pending work, which hands each call
//! of a function to its driver and takes the result back.
use vstd::prelude::*;
use crate::text::{concat, lit, push_all};
use crate::value::{SValue, Value, truthy, entry_models, lemma_array_model as lemma_array_value_model, insert_all, lemma_insert_all_sorted, lemma_insert_all_push, lookup, lemma_first_index, first_index, models, object_insert, type_text, svalue_type};
use crate::float::{float_le_exec, float_lt_exec};
use crate::errors::{EvalError, FnCallError, SEvalError};
use crate::exp::{Exp, FunctionItem, SExp, exp_entry_models, exp_models, lemma_array_exp_model, lemma_call_model, lemma_object_exp_model};
use crate::env::{Env, SEnv};
use crate::functions::FnCallback;
use crate::float::{FloatSpec, FloatSupport};
use crate::builtins::{builtin_spec, call_builtin, opt_outcome};
use crate::semantics::{
    CmpOp, Outcome, SFrame, bare_value_error, arg_frames, cmp_error_text, cmp_spec, entry_frames, eval_spec, expand, fin,
    frames_ok, is_compound, lemma_expand, lemma_expand_ok, no_value_text, top_pairs, wrap_call, weight,
};

verus! {

broadcast use vstd::string::group_string_axioms;

/// A piece of pending work, borrowing from the expression evaluated.
#[derive(Debug)]
pub enum Frame<'a> {
    ToEval(&'a Exp),
    ObjectKey(&'a String),
    Neg,
    Or(&'a Exp),
    And(&'a Exp),
    Eq,
    Neq,
    Cmp(CmpOp),
    FnCall(&'a String, usize),
    Array(usize),
    Object(usize),
}

impl<'a> Frame<'a> {
    /// The model of the frame.
    pub open spec fn model(&self) -> SFrame {
        match *self {
            Frame::ToEval(e) => SFrame::ToEval(e@),
            Frame::ObjectKey(k) => SFrame::ObjectKey(k@),
            Frame::Neg => SFrame::Neg,
            Frame::Or(e) => SFrame::Or(e@),
            Frame::And(e) => SFrame::And(e@),
            Frame::Eq => SFrame::Eq,
            Frame::Neq => SFrame::Neq,
            Frame::Cmp(op) => SFrame::Cmp(op),
            Frame::FnCall(name, n) => SFrame::FnCall(name@, n as nat),
            Frame::Array(n) => SFrame::Array(n as nat),
            Frame::Object(n) => SFrame::Object(n as nat),
        }
    }
}

/// The models of frames.
pub open spec fn frame_models<'a>(s: Seq<Frame<'a>>) -> Seq<SFrame> {
    s.map_values(|f: Frame<'a>| f.model())
}

/// The texts of keys.
pub open spec fn key_models<'a>(s: Seq<&'a String>) -> Seq<Seq<char>> {
    s.map_values(|k: &'a String| k@)
}

/// What the evaluator does next.
#[derive(Debug)]
pub enum Step {
    /// It did a piece of work and has more to do.
    Continue,
    /// It needs the result of calling `callback`, known as `name`, with
    /// `args`; give it back with [`Machine::resume`].
    Call { callback: FnCallback, name: String, args: Vec<Value> },
    /// It is done, with this result.
    Done(Result<Value, EvalError>),
}

/// The outcome that a result stands for.
pub open spec fn result_outcome(r: Result<Value, EvalError>) -> Outcome {
    match r {
        Ok(v) => Outcome::Val(v@),
        Err(e) => Outcome::Fail(e@),
    }
}

/// The evaluator of one expression: the stack of pending work, the stack
/// of values computed, and the stack of keys of objects under construction.
pub struct Machine<'a> {
    frames: Vec<Frame<'a>>,
    values: Vec<Value>,
    keys: Vec<&'a String>,
}

impl<'a> Machine<'a> {
    /// The pending frames, top last.
    pub closed spec fn frames_model(&self) -> Seq<SFrame> {
        frame_models(self.frames@)
    }

    /// The values computed, top last.
    pub closed spec fn values_model(&self) -> Seq<SValue> {
        models(self.values@)
    }

    /// The keys pushed, top last.
    pub closed spec fn keys_model(&self) -> Seq<Seq<char>> {
        key_models(self.keys@)
    }

    /// What finishing the evaluation gives.
    pub open spec fn pending(&self, env: SEnv, ans: spec_fn(FnCallback, Seq<SValue>) -> Outcome) -> Outcome {
        fin(self.frames_model(), self.values_model(), self.keys_model(), env, ans)
    }

    /// What finishing the evaluation gives once `v` is pushed.
    pub open spec fn pending_with(&self, v: SValue, env: SEnv, ans: spec_fn(FnCallback, Seq<SValue>) -> Outcome) -> Outcome {
        fin(self.frames_model(), self.values_model().push(v), self.keys_model(), env, ans)
    }

    /// The stacks hold what the frames take.
    pub open spec fn wf(&self) -> bool {
        frames_ok(self.frames_model(), self.values_model().len() as int, self.keys_model().len() as int)
    }

    /// The stacks hold what the frames take once a call's result is pushed.
    pub open spec fn wf_awaiting(&self) -> bool {
        frames_ok(self.frames_model(), self.values_model().len() + 1int, self.keys_model().len() as int)
    }

    /// The work left; every step lowers it.
    pub open spec fn measure(&self) -> nat {
        weight(self.frames_model())
    }

    /// The evaluator of `exp`.
    pub fn new(exp: &'a Exp) -> (r: Machine<'a>)
        ensures
            r.wf(),
            forall|env: SEnv, ans: spec_fn(FnCallback, Seq<SValue>) -> Outcome|
                #[trigger] r.pending(env, ans) == eval_spec(exp@, env, ans),
    {
        let mut frames: Vec<Frame<'a>> = Vec::new();
        frames.push(Frame::ToEval(exp));
        let r = Machine { frames, values: Vec::new(), keys: Vec::new() };
        proof {
            assert(r.frames_model() =~= seq![SFrame::ToEval(exp@)]);
            assert(r.values_model() =~= Seq::<SValue>::empty());
            assert(r.keys_model() =~= Seq::<Seq<char>>::empty());
            assert(r.frames_model().drop_last() =~= Seq::<SFrame>::empty());
            assert(r.frames_model().last() == SFrame::ToEval(exp@));
            assert(frames_ok(Seq::<SFrame>::empty(), 1, 0));
            assert(frames_ok(r.frames_model(), 0, 0));
            assert forall|env: SEnv, ans: spec_fn(FnCallback, Seq<SValue>) -> Outcome|
                #[trigger] r.pending(env, ans) == eval_spec(exp@, env, ans) by {
                let fm = r.frames_model();
                assert(r.pending(env, ans) == fin(fm, Seq::<SValue>::empty(), Seq::<Seq<char>>::empty(), env, ans));
                if let Outcome::Val(v) = eval_spec(exp@, env, ans) {
                    assert(Seq::<SValue>::empty().push(v).last() == v);
                    assert(fin(fm, Seq::<SValue>::empty(), Seq::<Seq<char>>::empty(), env, ans)
                        == fin(Seq::<SFrame>::empty(), Seq::<SValue>::empty().push(v), Seq::<Seq<char>>::empty(), env, ans));
                }
            }
        }
        r
    }

    /// Pushes the frames that evaluate a compound expression.
    fn push_frames(&mut self, e: &'a Exp)
        requires
            is_compound(e@),
        ensures
            final(self).frames_model() == old(self).frames_model() + expand(e@),
            final(self).values == old(self).values,
            final(self).keys == old(self).keys,
    {
        let ghost f0 = self.frames_model();
        match e {
            Exp::Neg(x) => {
                self.frames.push(Frame::Neg);
                self.frames.push(Frame::ToEval(x));
            },
            Exp::And(l, r) => {
                self.frames.push(Frame::And(r));
                self.frames.push(Frame::ToEval(l));
            },
            Exp::Or(l, r) => {
                self.frames.push(Frame::Or(r));
                self.frames.push(Frame::ToEval(l));
            },
            Exp::Eq(l, r) => {
                self.frames.push(Frame::Eq);
                self.frames.push(Frame::ToEval(r));
                self.frames.push(Frame::ToEval(l));
            },
            Exp::Neq(l, r) => {
                self.frames.push(Frame::Neq);
                self.frames.push(Frame::ToEval(r));
                self.frames.push(Frame::ToEval(l));
            },
            Exp::Gt(l, r) => {
                self.frames.push(Frame::Cmp(CmpOp::Gt));
                self.frames.push(Frame::ToEval(r));
                self.frames.push(Frame::ToEval(l));
            },
            Exp::Lt(l, r) => {
                self.frames.push(Frame::Cmp(CmpOp::Lt));
                self.frames.push(Frame::ToEval(r));
                self.frames.push(Frame::ToEval(l));
            },
            Exp::Geq(l, r) => {
                self.frames.push(Frame::Cmp(CmpOp::Geq));
                self.frames.push(Frame::ToEval(r));
                self.frames.push(Frame::ToEval(l));
            },
            Exp::Leq(l, r) => {
                self.frames.push(Frame::Cmp(CmpOp::Leq));
                self.frames.push(Frame::ToEval(r));
                self.frames.push(Frame::ToEval(l));
            },
            Exp::FnCall(func) => {
                proof {
                    lemma_call_model(*func);
                }
                self.push_call_frames(func);
            },
            Exp::Array(items) => {
                proof {
                    lemma_array_exp_model(*items);
                }
                self.push_item_frames(items);
            },
            Exp::Object(eo) => {
                let entries = &eo.entries;
                proof {
                    lemma_object_exp_model(*eo);
                }
                self.push_entry_frames(entries);
            },
            _ => {},
        }
        proof {
            assert(self.frames_model() =~= f0 + expand(e@));
        }
    }

    /// Pushes a call's frame and its arguments' frames, the first argument
    /// on top.
    fn push_call_frames(&mut self, func: &'a FunctionItem)
        ensures
            final(self).frames_model() == old(self).frames_model() + (seq![SFrame::FnCall(func.name@, func.args@.len())] + arg_frames(exp_models(func.args@))),
            final(self).values == old(self).values,
            final(self).keys == old(self).keys,
    {
        let ghost f0 = self.frames_model();
        let ghost args = exp_models(func.args@);
        let n = func.args.len();
        self.frames.push(Frame::FnCall(&func.name, n));
        let ghost f1 = self.frames_model();
        proof {
            assert(f1 =~= f0.push(SFrame::FnCall(func.name@, n as nat)));
            assert(args.subrange(n as int, n as int) =~= Seq::<SExp>::empty());
            assert(f1 + arg_frames(args.subrange(n as int, n as int)) =~= f1);
        }
        let mut i = n;
        while i > 0
            invariant
                i <= n,
                n == func.args@.len(),
                args == exp_models(func.args@),
                self.frames_model() == f1 + arg_frames(args.subrange(i as int, n as int)),
                self.values == old(self).values,
                self.keys == old(self).keys,
            decreases i,
        {
            i = i - 1;
            let ghost before = self.frames_model();
            self.frames.push(Frame::ToEval(&func.args[i]));
            proof {
                let s = args.subrange(i as int, n as int);
                assert(s.subrange(1, s.len() as int) =~= args.subrange(i + 1, n as int));
                assert(s[0] == func.args@[i as int]@);
                assert(self.frames_model() =~= before.push(SFrame::ToEval(func.args@[i as int]@)));
                assert(arg_frames(s) == arg_frames(args.subrange(i + 1, n as int)).push(SFrame::ToEval(s[0])));
                assert(self.frames_model() =~= f1 + arg_frames(s));
            }
        }
        proof {
            assert(args.subrange(0, n as int) =~= args);
            assert(self.frames_model() =~= f0 + (seq![SFrame::FnCall(func.name@, func.args@.len())] + arg_frames(args)));
        }
    }

    /// Pushes an array's frame and its items' frames, the first item on
    /// top.
    fn push_item_frames(&mut self, items: &'a Vec<Exp>)
        ensures
            final(self).frames_model() == old(self).frames_model() + (seq![SFrame::Array(items@.len())] + arg_frames(exp_models(items@))),
            final(self).values == old(self).values,
            final(self).keys == old(self).keys,
    {
        let ghost f0 = self.frames_model();
        let ghost s = exp_models(items@);
        let n = items.len();
        self.frames.push(Frame::Array(n));
        let ghost f1 = self.frames_model();
        proof {
            assert(f1 =~= f0.push(SFrame::Array(n as nat)));
            assert(s.subrange(n as int, n as int) =~= Seq::<SExp>::empty());
            assert(f1 + arg_frames(s.subrange(n as int, n as int)) =~= f1);
        }
        let mut i = n;
        while i > 0
            invariant
                i <= n,
                n == items@.len(),
                s == exp_models(items@),
                self.frames_model() == f1 + arg_frames(s.subrange(i as int, n as int)),
                self.values == old(self).values,
                self.keys == old(self).keys,
            decreases i,
        {
            i = i - 1;
            let ghost before = self.frames_model();
            self.frames.push(Frame::ToEval(&items[i]));
            proof {
                let u = s.subrange(i as int, n as int);
                assert(u.subrange(1, u.len() as int) =~= s.subrange(i + 1, n as int));
                assert(u[0] == items@[i as int]@);
                assert(self.frames_model() =~= before.push(SFrame::ToEval(items@[i as int]@)));
                assert(arg_frames(u) == arg_frames(s.subrange(i + 1, n as int)).push(SFrame::ToEval(u[0])));
                assert(self.frames_model() =~= f1 + arg_frames(u));
            }
        }
        proof {
            assert(s.subrange(0, n as int) =~= s);
            assert(self.frames_model() =~= f0 + (seq![SFrame::Array(items@.len())] + arg_frames(s)));
        }
    }

    /// Pushes an object's frame and its entries' frames, the last entry's
    /// key on top.
    fn push_entry_frames(&mut self, entries: &'a Vec<(String, Exp)>)
        ensures
            final(self).frames_model() == old(self).frames_model() + (seq![SFrame::Object(entries@.len())] + entry_frames(exp_entry_models(entries@))),
            final(self).values == old(self).values,
            final(self).keys == old(self).keys,
    {
        let ghost f0 = self.frames_model();
        let ghost s = exp_entry_models(entries@);
        let n = entries.len();
        self.frames.push(Frame::Object(n));
        let ghost f1 = self.frames_model();
        proof {
            assert(f1 =~= f0.push(SFrame::Object(n as nat)));
            assert(s.subrange(0, 0) =~= Seq::<(Seq<char>, SExp)>::empty());
            assert(f1 + entry_frames(s.subrange(0, 0)) =~= f1);
        }
        let mut i: usize = 0;
        while i < n
            invariant
                i <= n,
                n == entries@.len(),
                s == exp_entry_models(entries@),
                self.frames_model() == f1 + entry_frames(s.subrange(0, i as int)),
                self.values == old(self).values,
                self.keys == old(self).keys,
            decreases n - i,
        {
            let ghost before = self.frames_model();
            let entry = &entries[i];
            self.frames.push(Frame::ToEval(&entry.1));
            self.frames.push(Frame::ObjectKey(&entry.0));
            proof {
                let u = s.subrange(0, i + 1);
                assert(u.subrange(0, u.len() - 1) =~= s.subrange(0, i as int));
                assert(u[u.len() - 1] == (entries@[i as int].0@, entries@[i as int].1@));
                assert(self.frames_model() =~= before.push(SFrame::ToEval(entries@[i as int].1@)).push(
                    SFrame::ObjectKey(entries@[i as int].0@),
                ));
                assert(entry_frames(u) == entry_frames(s.subrange(0, i as int)).push(SFrame::ToEval(u[u.len() - 1].1)).push(
                    SFrame::ObjectKey(u[u.len() - 1].0),
                ));
                assert(self.frames_model() =~= f1 + entry_frames(u));
            }
            i = i + 1;
        }
        proof {
            assert(s.subrange(0, n as int) =~= s);
            assert(self.frames_model() =~= f0 + (seq![SFrame::Object(entries@.len())] + entry_frames(s)));
        }
    }
}

/// Popping a value pops its model.
proof fn lemma_models_pop(s: Seq<Value>)
    requires
        s.len() > 0,
    ensures
        models(s.subrange(0, s.len() - 1)) == models(s).drop_last(),
        models(s).last() == s.last()@,
        models(s).len() == s.len(),
{
    assert(models(s.subrange(0, s.len() - 1)) =~= models(s).drop_last());
}

/// Pushing a value pushes its model.
proof fn lemma_models_push(s: Seq<Value>, v: Value)
    ensures
        models(s.push(v)) == models(s).push(v@),
{
    assert(models(s.push(v)) =~= models(s).push(v@));
}

/// A comparison of two values.
fn compare(op: CmpOp, a: &Value, b: &Value) -> (r: Result<Value, EvalError>)
    ensures
        result_outcome(r) == cmp_spec(op, a@, b@),
{
    match (a, b) {
        (Value::Int(x), Value::Int(y)) => Ok(Value::Bool(
            match op {
                CmpOp::Lt => *x < *y,
                CmpOp::Gt => *x > *y,
                CmpOp::Leq => *x <= *y,
                CmpOp::Geq => *x >= *y,
            },
        )),
        (Value::Float(x), Value::Float(y)) => Ok(Value::Bool(
            match op {
                CmpOp::Lt => float_lt_exec(*x, *y),
                CmpOp::Gt => float_lt_exec(*y, *x),
                CmpOp::Leq => float_le_exec(*x, *y),
                CmpOp::Geq => float_le_exec(*y, *x),
            },
        )),
        _ => {
            let mut message = lit("Cannot compare values of different types: ");
            let ta = a.type_of().to_string();
            push_all(&mut message, ta.as_str());
            push_all(&mut message, " and ");
            let tb = b.type_of().to_string();
            push_all(&mut message, tb.as_str());
            Err(EvalError::TypeError { message })
        },
    }
}

impl<'a> Machine<'a> {
    /// What finishing gives once `f` is pushed back on top.
    pub open spec fn pending_under(&self, f: SFrame, env: SEnv, ans: spec_fn(FnCallback, Seq<SValue>) -> Outcome) -> Outcome {
        fin(self.frames_model().push(f), self.values_model(), self.keys_model(), env, ans)
    }

    /// The stacks hold what the frames take once `f` is pushed back on top.
    pub open spec fn wf_under(&self, f: SFrame) -> bool {
        frames_ok(self.frames_model().push(f), self.values_model().len() as int, self.keys_model().len() as int)
    }

    /// Pops the top value.
    fn pop_value(&mut self) -> (v: Value)
        requires
            old(self).values@.len() > 0,
        ensures
            v@ == old(self).values_model().last(),
            final(self).values_model() == old(self).values_model().drop_last(),
            final(self).values@.len() == old(self).values@.len() - 1,
            final(self).frames == old(self).frames,
            final(self).keys == old(self).keys,
    {
        proof {
            lemma_models_pop(self.values@);
        }
        self.values.pop().unwrap()
    }

    /// Pushes a value.
    fn push_value(&mut self, v: Value)
        ensures
            final(self).values_model() == old(self).values_model().push(v@),
            final(self).frames == old(self).frames,
            final(self).keys == old(self).keys,
    {
        proof {
            lemma_models_push(self.values@, v);
        }
        self.values.push(v);
    }

    /// Pushes a frame.
    fn push_frame(&mut self, f: Frame<'a>)
        ensures
            final(self).frames_model() == old(self).frames_model().push(f.model()),
            final(self).values == old(self).values,
            final(self).keys == old(self).keys,
    {
        self.frames.push(f);
        proof {
            assert(self.frames_model() =~= old(self).frames_model().push(f.model()));
        }
    }

    /// Evaluates an expression popped from the stack: a literal or a
    /// variable gives its value, a compound expression its frames.
    fn eval_exp(&mut self, e: &'a Exp, env: &Env) -> (r: Step)
        requires
            old(self).wf_under(SFrame::ToEval(e@)),
        ensures
            match r {
                Step::Continue => final(self).wf()
                    && final(self).measure() < weight(old(self).frames_model().push(SFrame::ToEval(e@)))
                    && forall|ans: spec_fn(FnCallback, Seq<SValue>) -> Outcome|
                        #[trigger] final(self).pending(env@, ans) == old(self).pending_under(SFrame::ToEval(e@), env@, ans),
                Step::Done(res) => !bare_value_error(result_outcome(res))
                    && forall|ans: spec_fn(FnCallback, Seq<SValue>) -> Outcome|
                    #[trigger] old(self).pending_under(SFrame::ToEval(e@), env@, ans) == result_outcome(res),
                _ => false,
            },
    {
        let ghost fm = self.frames_model();
        let ghost vm = self.values_model();
        let ghost km = self.keys_model();
        proof {
            assert(fm.push(SFrame::ToEval(e@)).drop_last() =~= fm);
        }
        match e {
            Exp::Literal(v) => {
                let c = v.copy();
                self.push_value(c);
                Step::Continue
            },
            Exp::Var(var) => {
                match var.access_from_bindings(&env.bindings) {
                    Ok(v) => {
                        self.push_value(v);
                        Step::Continue
                    },
                    Err(err) => Step::Done(Err(EvalError::VarAccess(err))),
                }
            },
            _ => {
                self.push_frames(e);
                proof {
                    lemma_expand_ok(fm, e@, vm.len() as int, km.len() as int);
                    assert forall|ans: spec_fn(FnCallback, Seq<SValue>) -> Outcome|
                        #[trigger] self.pending(env@, ans) == old(self).pending_under(SFrame::ToEval(e@), env@, ans) by {
                        lemma_expand(fm, e@, vm, km, env@, ans);
                    }
                }
                Step::Continue
            },
        }
    }

    /// Finishes: the top value is the result.
    fn finish(&mut self) -> (r: Step)
        requires
            old(self).frames@.len() == 0,
            old(self).wf(),
        ensures
            match r {
                Step::Done(res) => res is Ok && forall|env: SEnv, ans: spec_fn(FnCallback, Seq<SValue>) -> Outcome|
                    #[trigger] old(self).pending(env, ans) == result_outcome(res),
                _ => false,
            },
    {
        proof {
            assert(self.frames_model() =~= Seq::<SFrame>::empty());
        }
        if self.values.len() == 0 {
            Step::Done(Err(EvalError::ValueError { message: lit("No value on stack after evaluation") }))
        } else {
            let v = self.pop_value();
            Step::Done(Ok(v))
        }
    }
}

impl<'a> Machine<'a> {
    /// Applies a frame that replaces the top value: `!`, `&&` or `||`.
    fn apply_unary(&mut self, f: Frame<'a>)
        requires
            old(self).wf_under(f.model()),
            f is Neg || f is And || f is Or,
        ensures
            final(self).wf(),
            final(self).measure() < weight(old(self).frames_model().push(f.model())),
            forall|env: SEnv, ans: spec_fn(FnCallback, Seq<SValue>) -> Outcome|
                #[trigger] final(self).pending(env, ans) == old(self).pending_under(f.model(), env, ans),
    {
        let ghost fm = self.frames_model();
        let ghost vm = self.values_model();
        proof {
            assert(fm.push(f.model()).drop_last() =~= fm);
            assert(vm.len() == self.values@.len());
        }
        let v = self.pop_value();
        match f {
            Frame::Neg => {
                let t = v.truthy();
                self.push_value(Value::Bool(!t));
            },
            Frame::And(rhs) => {
                if v.truthy() {
                    self.push_frame(Frame::ToEval(rhs));
                    proof {
                        assert(self.frames_model().drop_last() =~= fm);
                    }
                } else {
                    self.push_value(Value::Bool(false));
                }
            },
            Frame::Or(rhs) => {
                if v.truthy() {
                    self.push_value(v);
                    proof {
                        assert(vm.drop_last().push(vm.last()) =~= vm);
                    }
                } else {
                    self.push_frame(Frame::ToEval(rhs));
                    proof {
                        assert(self.frames_model().drop_last() =~= fm);
                    }
                }
            },
            _ => {},
        }
        proof {
            assert forall|env: SEnv, ans: spec_fn(FnCallback, Seq<SValue>) -> Outcome|
                #[trigger] self.pending(env, ans) == old(self).pending_under(f.model(), env, ans) by {
                if let Frame::And(rhs) = f {
                    if truthy(vm.last()) {
                        if let Outcome::Val(x) = eval_spec(rhs@, env, ans) {
                            assert(self.pending(env, ans) == fin(fm, vm.drop_last().push(x), self.keys_model(), env, ans));
                        }
                    }
                }
                if let Frame::Or(rhs) = f {
                    if !truthy(vm.last()) {
                        if let Outcome::Val(x) = eval_spec(rhs@, env, ans) {
                            assert(self.pending(env, ans) == fin(fm, vm.drop_last().push(x), self.keys_model(), env, ans));
                        }
                    }
                }
            }
        }
    }
}

impl<'a> Machine<'a> {
    /// Applies a frame that replaces the two top values: `==`, `!=` or a
    /// comparison.
    fn apply_binary(&mut self, f: Frame<'a>) -> (r: Step)
        requires
            old(self).wf_under(f.model()),
            f is Eq || f is Neq || f is Cmp,
        ensures
            match r {
                Step::Continue => final(self).wf()
                    && final(self).measure() < weight(old(self).frames_model().push(f.model()))
                    && forall|env: SEnv, ans: spec_fn(FnCallback, Seq<SValue>) -> Outcome|
                        #[trigger] final(self).pending(env, ans) == old(self).pending_under(f.model(), env, ans),
                Step::Done(res) => !bare_value_error(result_outcome(res))
                    && forall|env: SEnv, ans: spec_fn(FnCallback, Seq<SValue>) -> Outcome|
                    #[trigger] old(self).pending_under(f.model(), env, ans) == result_outcome(res),
                _ => false,
            },
    {
        let ghost fm = self.frames_model();
        let ghost vm = self.values_model();
        let ghost n = vm.len();
        proof {
            assert(fm.push(f.model()).drop_last() =~= fm);
            assert(vm.len() == self.values@.len());
        }
        proof {
            assert(fm.push(f.model()).last() == f.model());
            assert(n >= 2);
        }
        let b = self.pop_value();
        let a = self.pop_value();
        proof {
            assert(vm.drop_last().drop_last() =~= vm.take(n - 2));
            assert(a@ == vm[n - 2]);
            assert(b@ == vm[n - 1]);
        }
        match f {
            Frame::Eq => {
                let eq = a.equals(&b);
                self.push_value(Value::Bool(eq));
                Step::Continue
            },
            Frame::Neq => {
                let eq = a.equals(&b);
                self.push_value(Value::Bool(!eq));
                Step::Continue
            },
            Frame::Cmp(op) => {
                match compare(op, &a, &b) {
                    Ok(v) => {
                        self.push_value(v);
                        Step::Continue
                    },
                    Err(e) => Step::Done(Err(e)),
                }
            },
            _ => Step::Continue,
        }
    }

    /// Applies a call's frame: finds the function, and asks for the call
    /// with the top values as arguments.
    fn apply_call(&mut self, name: &'a String, k: usize, env: &Env) -> (r: Step)
        requires
            old(self).wf_under(SFrame::FnCall(name@, k as nat)),
        ensures
            match r {
                Step::Call { callback, name: n, args } => final(self).wf_awaiting()
                    && final(self).measure() < weight(old(self).frames_model().push(SFrame::FnCall(name@, k as nat)))
                    && n@ == name@
                    && lookup(env@.vtable, name@) == Some(callback)
                    && forall|ans: spec_fn(FnCallback, Seq<SValue>) -> Outcome|
                        #[trigger] old(self).pending_under(SFrame::FnCall(name@, k as nat), env@, ans) == match wrap_call(
                            name@,
                            ans(callback, models(args@)),
                        ) {
                            Outcome::Val(v) => final(self).pending_with(v, env@, ans),
                            o => o,
                        },
                Step::Done(res) => !bare_value_error(result_outcome(res))
                    && forall|ans: spec_fn(FnCallback, Seq<SValue>) -> Outcome|
                    #[trigger] old(self).pending_under(SFrame::FnCall(name@, k as nat), env@, ans) == result_outcome(res),
                _ => false,
            },
    {
        let ghost fm = self.frames_model();
        let ghost vm = self.values_model();
        let ghost n = vm.len();
        proof {
            assert(fm.push(SFrame::FnCall(name@, k as nat)).drop_last() =~= fm);
            assert(vm.len() == self.values@.len());
        }
        match env.vtable.get(name.as_str()) {
            None => Step::Done(Err(EvalError::FunctionNotFound { fn_name: name.clone() })),
            Some(cb) => {
                let at = self.values.len() - k;
                let args = self.values.split_off(at);
                proof {
                    assert(models(args@) =~= vm.skip(n - k));
                    assert(self.values_model() =~= vm.take(n - k));
                }
                Step::Call { callback: cb, name: name.clone(), args }
            },
        }
    }

    /// Applies an array's frame: the top `k` values, in order, become the
    /// array.
    fn apply_array(&mut self, k: usize)
        requires
            old(self).wf_under(SFrame::Array(k as nat)),
        ensures
            final(self).wf(),
            final(self).measure() < weight(old(self).frames_model().push(SFrame::Array(k as nat))),
            forall|env: SEnv, ans: spec_fn(FnCallback, Seq<SValue>) -> Outcome|
                #[trigger] final(self).pending(env, ans) == old(self).pending_under(SFrame::Array(k as nat), env, ans),
    {
        let ghost fm = self.frames_model();
        let ghost vm = self.values_model();
        let ghost n = vm.len();
        proof {
            assert(fm.push(SFrame::Array(k as nat)).drop_last() =~= fm);
            assert(vm.len() == self.values@.len());
        }
        let at = self.values.len() - k;
        let items = self.values.split_off(at);
        proof {
            assert(models(items@) =~= vm.skip(n - k));
            assert(self.values_model() =~= vm.take(n - k));
            lemma_array_value_model(items);
        }
        self.push_value(Value::Array(items));
    }

    /// Applies an object's frame: the top `k` keys with the top `k`
    /// values, the topmost pair first, are inserted in turn.
    fn apply_object(&mut self, k: usize)
        requires
            old(self).wf_under(SFrame::Object(k as nat)),
        ensures
            final(self).wf(),
            final(self).measure() < weight(old(self).frames_model().push(SFrame::Object(k as nat))),
            forall|env: SEnv, ans: spec_fn(FnCallback, Seq<SValue>) -> Outcome|
                #[trigger] final(self).pending(env, ans) == old(self).pending_under(SFrame::Object(k as nat), env, ans),
    {
        let ghost fm = self.frames_model();
        let ghost vm = self.values_model();
        let ghost km = self.keys_model();
        let ghost n = vm.len();
        let ghost nk = km.len();
        let ghost ps = top_pairs(km, vm, k as nat);
        proof {
            assert(fm.push(SFrame::Object(k as nat)).drop_last() =~= fm);
            assert(vm.len() == self.values@.len());
            assert(km.len() == self.keys@.len());
            assert(ps.take(0) =~= Seq::<(Seq<char>, SValue)>::empty());
        }
        let kat = self.keys.len() - k;
        let ks = self.keys.split_off(kat);
        let vat = self.values.len() - k;
        let vs = self.values.split_off(vat);
        proof {
            assert(self.values_model() =~= vm.take(n - k));
            assert(self.keys_model() =~= km.take(nk - k));
            assert forall|t: int| 0 <= t < k implies #[trigger] ps[t] == (ks@[k - 1 - t]@, vs@[k - 1 - t]@) by {
                assert(km[nk - 1 - t] == old(self).keys@[nk - 1 - t]@);
                assert(vm[n - 1 - t] == old(self).values@[n - 1 - t]@);
            }
        }
        let mut m: Vec<(String, Value)> = Vec::new();
        proof {
            assert(entry_models(m@) =~= Seq::<(Seq<char>, SValue)>::empty());
        }
        let mut i: usize = 0;
        while i < k
            invariant
                i <= k,
                ks@.len() == k,
                vs@.len() == k,
                ps.len() == k,
                forall|t: int| 0 <= t < k ==> #[trigger] ps[t] == (ks@[k - 1 - t]@, vs@[k - 1 - t]@),
                self.frames == old(self).frames,
                self.values_model() == vm.take(n - k),
                self.values@.len() == n - k,
                self.keys_model() == km.take(nk - k),
                self.keys@.len() == nk - k,
                entry_models(m@) == insert_all(Seq::empty(), ps.take(i as int)),
            decreases k - i,
        {
            let key = ks[k - 1 - i].clone();
            let v = vs[k - 1 - i].copy();
            proof {
                assert(ps[i as int] == (key@, v@));
                assert(ps.take(i + 1) =~= ps.take(i as int).push(ps[i as int]));
                lemma_insert_all_push(Seq::empty(), ps.take(i as int), ps[i as int]);
            }
            object_insert(&mut m, key, v);
            i = i + 1;
        }
        proof {
            assert(ps.take(k as int) =~= ps);
            lemma_insert_all_sorted(Seq::<(Seq<char>, SValue)>::empty(), ps);
        }
        self.push_value(Value::from_sorted_entries(m));
        proof {
            assert(self.frames_model() == fm);
        }
    }
}

impl<'a> Machine<'a> {
    /// Does the next piece of work.
    ///
    /// `Continue` keeps what finishing gives and lowers the work left;
    /// `Call` asks for a call, and finishing gives what the call's result,
    /// given back with [`Machine::resume`], leads to; `Done` is the result
    /// of the evaluation.
    #[verifier::spinoff_prover]
    #[verifier::rlimit(40)]
    pub fn step(&mut self, env: &Env) -> (r: Step)
        requires
            old(self).wf(),
        ensures
            match r {
                Step::Continue => final(self).wf()
                    && final(self).measure() < old(self).measure()
                    && forall|ans: spec_fn(FnCallback, Seq<SValue>) -> Outcome|
                        #[trigger] final(self).pending(env@, ans) == old(self).pending(env@, ans),
                Step::Call { callback, name, args } => final(self).wf_awaiting()
                    && final(self).measure() < old(self).measure()
                    && lookup(env@.vtable, name@) == Some(callback)
                    && forall|ans: spec_fn(FnCallback, Seq<SValue>) -> Outcome|
                        #[trigger] old(self).pending(env@, ans) == match wrap_call(name@, ans(callback, models(args@))) {
                            Outcome::Val(v) => final(self).pending_with(v, env@, ans),
                            o => o,
                        },
                Step::Done(res) => !bare_value_error(result_outcome(res))
                    && forall|ans: spec_fn(FnCallback, Seq<SValue>) -> Outcome|
                    #[trigger] old(self).pending(env@, ans) == result_outcome(res),
            },
    {
        if self.frames.len() == 0 {
            return self.finish();
        }
        let ghost fm = self.frames_model();
        let f = self.frames.pop().unwrap();
        let ghost mid = *self;
        proof {
            assert(self.frames_model() =~= fm.drop_last());
            assert(fm =~= self.frames_model().push(f.model()));
            assert forall|env: SEnv, ans: spec_fn(FnCallback, Seq<SValue>) -> Outcome|
                #![trigger old(self).pending(env, ans)]
                old(self).pending(env, ans) == mid.pending_under(f.model(), env, ans) by {}
            assert(weight(fm) == old(self).measure());
        }
        match f {
            Frame::ToEval(e) => self.eval_exp(e, env),
            Frame::ObjectKey(k) => {
                let ghost km = self.keys_model();
                self.keys.push(k);
                proof {
                    assert(self.keys_model() =~= km.push(k@));
                    assert(fm.drop_last() =~= self.frames_model());
                }
                Step::Continue
            },
            Frame::Neg => {
                self.apply_unary(f);
                Step::Continue
            },
            Frame::And(_) => {
                self.apply_unary(f);
                Step::Continue
            },
            Frame::Or(_) => {
                self.apply_unary(f);
                Step::Continue
            },
            Frame::Eq => self.apply_binary(f),
            Frame::Neq => self.apply_binary(f),
            Frame::Cmp(_) => self.apply_binary(f),
            Frame::FnCall(name, k) => self.apply_call(name, k, env),
            Frame::Array(k) => {
                self.apply_array(k);
                Step::Continue
            },
            Frame::Object(k) => {
                self.apply_object(k);
                Step::Continue
            },
        }
    }

    /// Gives back the result of the call that [`Machine::step`] asked for:
    /// a value is pushed; an error ends the evaluation, wrapped with the
    /// function's name.
    pub fn resume(&mut self, name: &str, result: Result<Value, EvalError>) -> (r: Option<EvalError>)
        requires
            old(self).wf_awaiting(),
        ensures
            match result {
                Ok(v) => r is None && final(self).wf() && final(self).measure() == old(self).measure()
                    && forall|env: SEnv, ans: spec_fn(FnCallback, Seq<SValue>) -> Outcome|
                        #[trigger] final(self).pending(env, ans) == old(self).pending_with(v@, env, ans),
                Err(e) => r matches Some(x) && x@ == SEvalError::FnCall(name@, Box::new(e@)),
            },
    {
        match result {
            Ok(v) => {
                self.push_value(v);
                None
            },
            Err(e) => {
                let x = EvalError::FnCallError(FnCallError { fn_name: name.to_string(), reason: Box::new(e) });
                Some(x)
            },
        }
    }
}

/// The outcome that the host gives for a call of its callback `id` with
/// argument values.
pub open spec fn host_answer<H: Fn(u64, &Vec<Value>) -> Result<Value, EvalError>>(h: H, id: u64, args: Seq<SValue>) -> Outcome {
    result_outcome(
        (choose|q: (Vec<Value>, Result<Value, EvalError>)| models(q.0@) == args && #[trigger] call_ensures(h, (id, &q.0), q.1)).1,
    )
}

/// The host gives one outcome for each callback and argument values.
pub open spec fn host_functional<H: Fn(u64, &Vec<Value>) -> Result<Value, EvalError>>(h: H) -> bool {
    forall|id: u64, a: &Vec<Value>, r: Result<Value, EvalError>|
        #[trigger] call_ensures(h, (id, a), r) ==> result_outcome(r) == host_answer(h, id, models(a@))
}

/// What calls give in a synchronous evaluation: the built-in functions
/// what they compute, the host's synchronous callbacks what the host
/// answers, and an asynchronous callback the error that it cannot be called
/// here.
pub open spec fn sync_oracle<H: Fn(u64, &Vec<Value>) -> Result<Value, EvalError>>(fs: FloatSpec, h: H) -> spec_fn(FnCallback, Seq<SValue>) -> Outcome {
    |cb: FnCallback, args: Seq<SValue>|
        match cb {
            FnCallback::Builtin(b) => builtin_spec(b, args, fs),
            FnCallback::Sync(id) => host_answer(h, id, args),
            FnCallback::Async(_) => Outcome::Fail(SEvalError::CallSyncinAsync),
        }
}

/// The environment's function table holds no synchronous callback of the
/// host: every call goes to a built-in function or is an asynchronous
/// callback's error.
pub open spec fn host_free(env: SEnv) -> bool {
    forall|i: int| 0 <= i < env.vtable.len() ==> !(#[trigger] env.vtable[i].1 is Sync)
}

/// A callback that a name finds in a table without synchronous callbacks is
/// no synchronous callback.
proof fn lemma_host_free_lookup(env: SEnv, name: Seq<char>, cb: FnCallback)
    requires
        host_free(env),
        lookup(env.vtable, name) == Some(cb),
    ensures
        !(cb is Sync),
{
    lemma_first_index(env.vtable, name);
    let i = first_index(env.vtable, name).unwrap();
    assert(!(env.vtable[i].1 is Sync));
}

/// What calls give with the host left out: the built-in functions what
/// they compute, an asynchronous callback the error that it cannot be
/// called here, and a synchronous callback of the host a stop.
pub open spec fn builtin_oracle(fs: FloatSpec) -> spec_fn(FnCallback, Seq<SValue>) -> Outcome {
    |cb: FnCallback, args: Seq<SValue>|
        match cb {
            FnCallback::Builtin(b) => builtin_spec(b, args, fs),
            FnCallback::Sync(_) => Outcome::Stop,
            FnCallback::Async(_) => Outcome::Fail(SEvalError::CallSyncinAsync),
        }
}

/// Two ways of answering calls that differ at most on the host's
/// synchronous callbacks.
pub open spec fn agree_off_host(
    o1: spec_fn(FnCallback, Seq<SValue>) -> Outcome,
    o2: spec_fn(FnCallback, Seq<SValue>) -> Outcome,
) -> bool {
    forall|cb: FnCallback, args: Seq<SValue>|
        #![trigger o1(cb, args)]
        #![trigger o2(cb, args)]
        !(cb is Sync) ==> o1(cb, args) == o2(cb, args)
}

/// What evaluating `e` gives does not depend on what the host's
/// synchronous callbacks answer, as for an expression that reaches none of
/// them.
pub open spec fn host_independent(e: SExp, env: SEnv, fs: FloatSpec) -> bool {
    forall|o: spec_fn(FnCallback, Seq<SValue>) -> Outcome|
        agree_off_host(o, builtin_oracle(fs)) ==> #[trigger] eval_spec(e, env, o) == eval_spec(e, env, builtin_oracle(fs))
}

impl Exp {
    /// Evaluates the expression in the environment: its value or error, or
    /// `None` where evaluation stops. The host runs its synchronous
    /// callbacks; calling an asynchronous one is an error.
    ///
    /// For a host that gives one outcome for each call, for any host where
    /// the function table holds no synchronous callback, and for any host
    /// where what the expression gives does not depend on the host's
    /// answers, the result is what [`eval_spec`] gives with the calls
    /// answered so. Whatever the host, evaluation never fails with a value
    /// error of its own: a value error comes only from a call, inside that
    /// call's error.
    #[verifier::rlimit(30)]
    pub fn eval<P, T, D, I, H>(&self, env: &Env, fs: &FloatSupport<P, T, D, I>, host: &H) -> (r: Option<Result<Value, EvalError>>) where
        P: Fn(&str) -> Option<u64>,
        T: Fn(u64) -> String,
        D: Fn(u64) -> String,
        I: Fn(i64) -> u64,
        H: Fn(u64, &Vec<Value>) -> Result<Value, EvalError>,

        requires
            fs.wf(),
            forall|id: u64, a: &Vec<Value>| call_requires(*host, (id, a)),
        ensures
            host_functional(*host) || host_free(env@) || host_independent(self@, env@, fs.spec())
                ==> opt_outcome(r) == eval_spec(self@, env@, sync_oracle(fs.spec(), *host)),
            r matches Some(Err(e)) ==> !(e@ is ValueError),
    {
        let ghost o = sync_oracle(fs.spec(), *host);
        let ghost base = builtin_oracle(fs.spec());
        let ghost indep = host_independent(self@, env@, fs.spec());
        let mut m = Machine::new(self);
        proof {
            if indep {
                assert forall|o1: spec_fn(FnCallback, Seq<SValue>) -> Outcome|
                    agree_off_host(o1, base) implies #[trigger] m.pending(env@, o1) == m.pending(env@, base) by {
                    assert(eval_spec(self@, env@, o1) == eval_spec(self@, env@, base));
                }
            }
        }
        loop
            invariant
                m.wf(),
                fs.wf(),
                forall|id: u64, a: &Vec<Value>| call_requires(*host, (id, a)),
                o == sync_oracle(fs.spec(), *host),
                base == builtin_oracle(fs.spec()),
                indep == host_independent(self@, env@, fs.spec()),
                host_functional(*host) || host_free(env@) || indep ==> m.pending(env@, o) == eval_spec(self@, env@, o),
                indep ==> forall|o1: spec_fn(FnCallback, Seq<SValue>) -> Outcome|
                    agree_off_host(o1, base) ==> #[trigger] m.pending(env@, o1) == m.pending(env@, base),
            decreases m.measure(),
        {
            let ghost pre = m;
            match m.step(env) {
                Step::Continue => {},
                Step::Done(res) => {
                    return Some(res);
                },
                Step::Call { callback, name, args } => {
                    let ghost mid = m;
                    proof {
                        if indep && callback is Sync {
                            let e1 = SEvalError::ValueError(seq!['a']);
                            let e2 = SEvalError::ValueError(seq!['b']);
                            let o1 = |c: FnCallback, a: Seq<SValue>| if c is Sync { Outcome::Fail(e1) } else { base(c, a) };
                            let o2 = |c: FnCallback, a: Seq<SValue>| if c is Sync { Outcome::Fail(e2) } else { base(c, a) };
                            assert(agree_off_host(o1, base));
                            assert(agree_off_host(o2, base));
                            assert(pre.pending(env@, o1) == pre.pending(env@, base));
                            assert(pre.pending(env@, o2) == pre.pending(env@, base));
                            assert(pre.pending(env@, o1) == Outcome::Fail(SEvalError::FnCall(name@, Box::new(e1))));
                            assert(pre.pending(env@, o2) == Outcome::Fail(SEvalError::FnCall(name@, Box::new(e2))));
                            assert(false);
                        }
                    }
                    let answer = match callback {
                        FnCallback::Builtin(b) => call_builtin(b, &args, fs),
                        FnCallback::Sync(id) => Some(host(id, &args)),
                        FnCallback::Async(_) => Some(Err(EvalError::CallSyncinAsync)),
                    };
                    proof {
                        if host_free(env@) {
                            lemma_host_free_lookup(env@, name@, callback);
                        }
                        if host_functional(*host) || host_free(env@) || indep {
                            assert(opt_outcome(answer) == o(callback, models(args@)));
                        }
                        if !(callback is Sync) {
                            assert(o(callback, models(args@)) == base(callback, models(args@)));
                        }
                    }
                    match answer {
                        None => {
                            return None;
                        },
                        Some(res) => {
                            match m.resume(name.as_str(), res) {
                                Some(e) => {
                                    return Some(Err(e));
                                },
                                None => {
                                    proof {
                                        if indep {
                                            let v = res->Ok_0;
                                            assert forall|o1: spec_fn(FnCallback, Seq<SValue>) -> Outcome|
                                                agree_off_host(o1, base) implies #[trigger] m.pending(env@, o1) == m.pending(env@, base) by {
                                                assert(o1(callback, models(args@)) == base(callback, models(args@)));
                                                assert(pre.pending(env@, o1) == mid.pending_with(v@, env@, o1));
                                                assert(pre.pending(env@, base) == mid.pending_with(v@, env@, base));
                                                assert(pre.pending(env@, o1) == pre.pending(env@, base));
                                            }
                                        }
                                    }
                                },
                            }
                        },
                    }
                },
            }
        }
    }
}

} // verus!
