//! The syntax tree of expressions.
use vstd::prelude::*;
use crate::text::{chars_eq, chars_lt, lit, seq_lt, str_chars};
use crate::value::{SValue, Value, keys_sorted, lemma_insert_all_sorted, sorted_insert, insert_all};
use crate::var::{SVarName, VarAccess};

verus! {

broadcast use vstd::string::group_string_axioms;

/// An expression.
#[derive(Debug, PartialEq)]
pub enum Exp {
    Literal(Value),
    FnCall(FunctionItem),
    Var(VarAccess),
    Neg(Box<Exp>),
    Or(Box<Exp>, Box<Exp>),
    And(Box<Exp>, Box<Exp>),
    Eq(Box<Exp>, Box<Exp>),
    Neq(Box<Exp>, Box<Exp>),
    Gt(Box<Exp>, Box<Exp>),
    Lt(Box<Exp>, Box<Exp>),
    Geq(Box<Exp>, Box<Exp>),
    Leq(Box<Exp>, Box<Exp>),
    Array(Vec<Exp>),
    Object(ExpObject),
}

/// The entries of an object expression, ordered by key, each key once, as
/// a `BTreeMap` holds them; [`Exp::object`] builds them.
#[derive(Debug, PartialEq)]
pub struct ExpObject {
    pub(crate) entries: Vec<(String, Exp)>,
}

impl ExpObject {
    /// The entries are ordered by key, each key once.
    #[verifier::type_invariant]
    pub(crate) open spec fn keys_in_order(self) -> bool {
        keys_sorted(exp_entry_models(self.entries@))
    }
}

/// A function call: the function's name and the argument expressions.
#[derive(Debug, PartialEq)]
pub struct FunctionItem {
    pub name: String,
    pub args: Vec<Exp>,
}

/// The model of an [`Exp`].
pub enum SExp {
    Literal(SValue),
    FnCall(Seq<char>, Seq<SExp>),
    Var(Seq<SVarName>),
    Neg(Box<SExp>),
    Or(Box<SExp>, Box<SExp>),
    And(Box<SExp>, Box<SExp>),
    Eq(Box<SExp>, Box<SExp>),
    Neq(Box<SExp>, Box<SExp>),
    Gt(Box<SExp>, Box<SExp>),
    Lt(Box<SExp>, Box<SExp>),
    Geq(Box<SExp>, Box<SExp>),
    Leq(Box<SExp>, Box<SExp>),
    Array(Seq<SExp>),
    Object(Seq<(Seq<char>, SExp)>),
}

impl Exp {
    /// The model of the expression.
    pub open(crate) spec fn model(self) -> SExp
        decreases self,
    {
        match self {
            Exp::Literal(v) => SExp::Literal(v@),
            Exp::FnCall(f) => SExp::FnCall(
                f.name@,
                Seq::new(f.args@.len(), |i: int| if 0 <= i < f.args@.len() { f.args@[i].model() } else { SExp::Literal(SValue::Null) }),
            ),
            Exp::Var(v) => SExp::Var(v@),
            Exp::Neg(e) => SExp::Neg(Box::new((*e).model())),
            Exp::Or(l, r) => SExp::Or(Box::new((*l).model()), Box::new((*r).model())),
            Exp::And(l, r) => SExp::And(Box::new((*l).model()), Box::new((*r).model())),
            Exp::Eq(l, r) => SExp::Eq(Box::new((*l).model()), Box::new((*r).model())),
            Exp::Neq(l, r) => SExp::Neq(Box::new((*l).model()), Box::new((*r).model())),
            Exp::Gt(l, r) => SExp::Gt(Box::new((*l).model()), Box::new((*r).model())),
            Exp::Lt(l, r) => SExp::Lt(Box::new((*l).model()), Box::new((*r).model())),
            Exp::Geq(l, r) => SExp::Geq(Box::new((*l).model()), Box::new((*r).model())),
            Exp::Leq(l, r) => SExp::Leq(Box::new((*l).model()), Box::new((*r).model())),
            Exp::Array(v) => SExp::Array(
                Seq::new(v@.len(), |i: int| if 0 <= i < v@.len() { v@[i].model() } else { SExp::Literal(SValue::Null) }),
            ),
            Exp::Object(m) => SExp::Object(
                Seq::new(
                    m.entries@.len(),
                    |i: int|
                        if 0 <= i < m.entries@.len() {
                            (m.entries@[i].0@, m.entries@[i].1.model())
                        } else {
                            (Seq::empty(), SExp::Literal(SValue::Null))
                        },
                ),
            ),
        }
    }
}

impl View for Exp {
    type V = SExp;

    open spec fn view(&self) -> SExp {
        self.model()
    }
}

/// The models of a list of expressions.
pub open spec fn exp_models(v: Seq<Exp>) -> Seq<SExp> {
    v.map_values(|e: Exp| e@)
}

/// The models of the entries of an object expression.
pub open spec fn exp_entry_models(m: Seq<(String, Exp)>) -> Seq<(Seq<char>, SExp)> {
    m.map_values(|e: (String, Exp)| (e.0@, e.1@))
}

/// The model of a call is its name and its arguments' models.
pub proof fn lemma_call_model(f: FunctionItem)
    ensures
        Exp::FnCall(f)@ == SExp::FnCall(f.name@, exp_models(f.args@)),
{
    assert(Exp::FnCall(f)@->FnCall_1 =~= exp_models(f.args@));
}

/// The model of an array expression is its items' models.
pub proof fn lemma_array_exp_model(v: Vec<Exp>)
    ensures
        Exp::Array(v)@ == SExp::Array(exp_models(v@)),
{
    assert(Exp::Array(v)@->Array_0 =~= exp_models(v@));
}

/// The model of an object expression is its entries' models.
pub(crate) proof fn lemma_object_exp_model(m: ExpObject)
    ensures
        Exp::Object(m)@ == SExp::Object(exp_entry_models(m.entries@)),
{
    assert(Exp::Object(m)@->Object_0 =~= exp_entry_models(m.entries@));
}

/// Sets `key` to `e` in sorted object-expression entries.
pub fn exp_object_insert(m: &mut Vec<(String, Exp)>, key: String, e: Exp)
    ensures
        exp_entry_models(final(m)@) == sorted_insert(exp_entry_models(old(m)@), key@, e@),
{
    let k = str_chars(key.as_str());
    let mut i: usize = 0;
    let ghost m0 = exp_entry_models(m@);
    proof {
        assert(m0.take(0) =~= Seq::<(Seq<char>, SExp)>::empty());
        assert(m0.skip(0) =~= m0);
    }
    while i < m.len()
        invariant
            i <= m@.len(),
            k@ == key@,
            m0 == exp_entry_models(m@),
            m0 == exp_entry_models(old(m)@),
            sorted_insert(m0, key@, e@) == m0.take(i as int) + sorted_insert(m0.skip(i as int), key@, e@),
        decreases m@.len() - i,
    {
        let ki = str_chars(m[i].0.as_str());
        if chars_eq(&ki, &k) {
            proof {
                let s = m0.skip(i as int);
                assert(s[0] == m0[i as int]);
            }
            m.set(i, (key, e));
            proof {
                assert(exp_entry_models(m@) =~= m0.take(i as int) + m0.skip(i as int).update(0, (k@, e@)));
            }
            return;
        }
        if chars_lt(&k, &ki) {
            proof {
                let s = m0.skip(i as int);
                assert(s[0] == m0[i as int]);
            }
            m.insert(i, (key, e));
            proof {
                assert(exp_entry_models(m@) =~= m0.take(i as int) + (seq![(k@, e@)] + m0.skip(i as int)));
            }
            return;
        }
        proof {
            let s = m0.skip(i as int);
            assert(s[0] == m0[i as int]);
            assert(s.drop_first() =~= m0.skip(i + 1));
            assert(m0.take(i + 1) =~= m0.take(i as int).push(m0[i as int]));
            assert(m0.take(i as int) + (seq![m0[i as int]] + sorted_insert(m0.skip(i + 1), key@, e@))
                =~= m0.take(i + 1) + sorted_insert(m0.skip(i + 1), key@, e@));
        }
        i = i + 1;
    }
    proof {
        assert(m0.skip(i as int) =~= Seq::<(Seq<char>, SExp)>::empty());
        assert(m0.take(i as int) =~= m0);
    }
    m.push((key, e));
    proof {
        assert(exp_entry_models(m@) =~= m0 + seq![(k@, e@)]);
    }
}

impl FunctionItem {
    /// A call of `name` with the argument expressions.
    pub fn new(name: &str, args: Vec<Exp>) -> (r: FunctionItem)
        ensures
            r.name@ == name@,
            r.args == args,
    {
        FunctionItem { name: lit(name), args }
    }

    /// The function's name.
    pub fn name(&self) -> (r: &str)
        ensures
            r@ == self.name@,
    {
        self.name.as_str()
    }

    /// The argument expressions.
    pub fn args(&self) -> (r: &[Exp])
        ensures
            r@ == self.args@,
    {
        self.args.as_slice()
    }
}

impl Exp {
    /// A literal.
    pub fn literal(lit: Value) -> (r: Exp)
        ensures
            r@ == SExp::Literal(lit@),
    {
        Exp::Literal(lit)
    }

    /// A variable access.
    pub fn var(accessor: VarAccess) -> (r: Exp)
        ensures
            r@ == SExp::Var(accessor@),
    {
        Exp::Var(accessor)
    }

    /// A function call.
    pub fn fn_call(func: FunctionItem) -> (r: Exp)
        ensures
            r@ == SExp::FnCall(func.name@, exp_models(func.args@)),
    {
        proof {
            lemma_call_model(func);
        }
        Exp::FnCall(func)
    }

    /// An array literal.
    pub fn array(elems: Vec<Exp>) -> (r: Exp)
        ensures
            r@ == SExp::Array(exp_models(elems@)),
    {
        proof {
            lemma_array_exp_model(elems);
        }
        Exp::Array(elems)
    }

    /// An object literal from entries, inserted in turn: a later entry for a
    /// key replaces an earlier one, and the keys end up sorted.
    pub fn object(entries: Vec<(String, Exp)>) -> (r: Exp)
        ensures
            r@ == SExp::Object(insert_all(Seq::empty(), exp_entry_models(entries@))),
    {
        let n = entries.len();
        let ghost src = exp_entry_models(entries@);
        let mut items: Vec<(String, Exp)> = Vec::new();
        let mut rest = entries;
        while rest.len() > 0
            invariant
                items@.len() + rest@.len() == n,
                forall|j: int| 0 <= j < items@.len() ==> #[trigger] items@[j] == entries@[n - 1 - j],
                forall|j: int| 0 <= j < rest@.len() ==> #[trigger] rest@[j] == entries@[j],
                entries@.len() == n,
            decreases rest@.len(),
        {
            let e = rest.pop().unwrap();
            items.push(e);
        }
        let mut m: Vec<(String, Exp)> = Vec::new();
        let mut i: usize = 0;
        proof {
            assert(src.take(0) =~= Seq::<(Seq<char>, SExp)>::empty());
            assert(exp_entry_models(m@) =~= Seq::<(Seq<char>, SExp)>::empty());
        }
        while i < n
            invariant
                i <= n,
                items@.len() == n - i,
                entries@.len() == n,
                src == exp_entry_models(entries@),
                forall|j: int| 0 <= j < items@.len() ==> #[trigger] items@[j] == entries@[n - 1 - j],
                exp_entry_models(m@) == insert_all(Seq::empty(), src.take(i as int)),
            decreases n - i,
        {
            let e = items.pop().unwrap();
            proof {
                assert(e == entries@[i as int]);
                assert(src.take(i + 1) =~= src.take(i as int).push(src[i as int]));
                assert(src.take(i + 1).drop_last() =~= src.take(i as int));
            }
            exp_object_insert(&mut m, e.0, e.1);
            i = i + 1;
        }
        proof {
            assert(src.take(n as int) =~= src);
            lemma_insert_all_sorted(Seq::<(Seq<char>, SExp)>::empty(), src);
        }
        let o = ExpObject { entries: m };
        proof {
            lemma_object_exp_model(o);
        }
        Exp::Object(o)
    }

    /// Negation: `!exp`.
    pub fn neg(exp: Exp) -> (r: Exp)
        ensures
            r@ == SExp::Neg(Box::new(exp@)),
    {
        Exp::Neg(Box::new(exp))
    }

    /// `lhs || rhs`.
    pub fn or(lhs: Exp, rhs: Exp) -> (r: Exp)
        ensures
            r@ == SExp::Or(Box::new(lhs@), Box::new(rhs@)),
    {
        Exp::Or(Box::new(lhs), Box::new(rhs))
    }

    /// `lhs && rhs`.
    pub fn and(lhs: Exp, rhs: Exp) -> (r: Exp)
        ensures
            r@ == SExp::And(Box::new(lhs@), Box::new(rhs@)),
    {
        Exp::And(Box::new(lhs), Box::new(rhs))
    }

    /// `lhs == rhs`.
    pub fn eq(lhs: Exp, rhs: Exp) -> (r: Exp)
        ensures
            r@ == SExp::Eq(Box::new(lhs@), Box::new(rhs@)),
    {
        Exp::Eq(Box::new(lhs), Box::new(rhs))
    }

    /// `lhs != rhs`.
    pub fn neq(lhs: Exp, rhs: Exp) -> (r: Exp)
        ensures
            r@ == SExp::Neq(Box::new(lhs@), Box::new(rhs@)),
    {
        Exp::Neq(Box::new(lhs), Box::new(rhs))
    }

    /// `lhs > rhs`.
    pub fn gt(lhs: Exp, rhs: Exp) -> (r: Exp)
        ensures
            r@ == SExp::Gt(Box::new(lhs@), Box::new(rhs@)),
    {
        Exp::Gt(Box::new(lhs), Box::new(rhs))
    }

    /// `lhs < rhs`.
    pub fn lt(lhs: Exp, rhs: Exp) -> (r: Exp)
        ensures
            r@ == SExp::Lt(Box::new(lhs@), Box::new(rhs@)),
    {
        Exp::Lt(Box::new(lhs), Box::new(rhs))
    }

    /// `lhs >= rhs`.
    pub fn geq(lhs: Exp, rhs: Exp) -> (r: Exp)
        ensures
            r@ == SExp::Geq(Box::new(lhs@), Box::new(rhs@)),
    {
        Exp::Geq(Box::new(lhs), Box::new(rhs))
    }

    /// `lhs <= rhs`.
    pub fn leq(lhs: Exp, rhs: Exp) -> (r: Exp)
        ensures
            r@ == SExp::Leq(Box::new(lhs@), Box::new(rhs@)),
    {
        Exp::Leq(Box::new(lhs), Box::new(rhs))
    }

    /// The expression itself: an expression here owns its data already.
    pub fn into_owned(self) -> (r: Exp)
        ensures
            r@ == self@,
    {
        self
    }
}

} // verus!
