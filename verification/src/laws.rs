//! Laws of evaluation: how negation and the logical operators decide, how
//! equality and comparison treat values of different types, why the order
//! of an object's entries does not matter, that objects compare as maps,
//! that evaluation keeps objects sorted and makes no value error of its
//! own, that an expression whose calls name no host callback does not
//! depend on the host, that a value read as a JSON document gives itself
//! back, and that `join` undoes `split`.
use vstd::prelude::*;
use crate::text::seq_lt;
use crate::value::{
    SValue, join_texts, render_stops, value_eq, lemma_seq_lt_irreflexive, insert_all, keys_sorted, last_lookup, lookup, truthy, svalue_type, well_formed, items_well_formed,
    entries_well_formed, lemma_insert_all_lookup, lemma_items_well_formed, lemma_entries_well_formed,
    lemma_insert_all_values_wf, lemma_first_index, first_index,
    lemma_insert_all_sorted, lemma_insert_all_sorted_self, lemma_sorted_lookup_ext,
};
use crate::json::{SJson, json_entries, json_items, json_value, value_json};
use crate::semantics::{Outcome, bare_value_error, eval_spec, cmp_error_text, no_value_text, eval_entries, eval_args, call_spec, wrap_call};
use crate::var::{SVarName, access_path, access_bindings_spec, apply_index};
use crate::exp::SExp;
use crate::interpreter::{agree_off_host, builtin_oracle, host_independent};
use crate::env::{SEnv, default_table};
use crate::functions::{Builtin, FnCallback, builtin_entries};
use crate::errors::SEvalError;
use crate::builtins::{any_stops, builtin_spec, split_pieces, split_spec, str_values, texts_of};
use crate::float::FloatSpec;

verus! {

/// No two entries have the same key.
pub open spec fn distinct_keys<T>(ps: Seq<(Seq<char>, T)>) -> bool {
    forall|i: int, j: int| 0 <= i < j < ps.len() ==> #[trigger] ps[i].0 != #[trigger] ps[j].0
}

/// `a && b` with a falsy `a` is `false`, whatever `b` is: `b` is not
/// evaluated.
pub proof fn law_and_short_circuit(
    l: SExp,
    r: SExp,
    env: SEnv,
    ans: spec_fn(FnCallback, Seq<SValue>) -> Outcome,
    v: SValue,
)
    requires
        eval_spec(l, env, ans) == Outcome::Val(v),
        !truthy(v),
    ensures
        eval_spec(SExp::And(Box::new(l), Box::new(r)), env, ans) == Outcome::Val(SValue::Bool(false)),
{
}

/// `a && b` with a truthy `a` is what `b` gives, value or error.
pub proof fn law_and_gives_right(
    l: SExp,
    r: SExp,
    env: SEnv,
    ans: spec_fn(FnCallback, Seq<SValue>) -> Outcome,
    v: SValue,
)
    requires
        eval_spec(l, env, ans) == Outcome::Val(v),
        truthy(v),
    ensures
        eval_spec(SExp::And(Box::new(l), Box::new(r)), env, ans) == eval_spec(r, env, ans),
{
}

/// `a || b` with a truthy `a` is the value of `a`, whatever `b` is: `b` is
/// not evaluated.
pub proof fn law_or_short_circuit(
    l: SExp,
    r: SExp,
    env: SEnv,
    ans: spec_fn(FnCallback, Seq<SValue>) -> Outcome,
    v: SValue,
)
    requires
        eval_spec(l, env, ans) == Outcome::Val(v),
        truthy(v),
    ensures
        eval_spec(SExp::Or(Box::new(l), Box::new(r)), env, ans) == Outcome::Val(v),
{
}

/// `a || b` with a falsy `a` is what `b` gives, value or error.
pub proof fn law_or_gives_right(
    l: SExp,
    r: SExp,
    env: SEnv,
    ans: spec_fn(FnCallback, Seq<SValue>) -> Outcome,
    v: SValue,
)
    requires
        eval_spec(l, env, ans) == Outcome::Val(v),
        !truthy(v),
    ensures
        eval_spec(SExp::Or(Box::new(l), Box::new(r)), env, ans) == eval_spec(r, env, ans),
{
}

/// An operator whose left operand fails fails with the same error.
pub proof fn law_left_failure_first(
    l: SExp,
    r: SExp,
    env: SEnv,
    ans: spec_fn(FnCallback, Seq<SValue>) -> Outcome,
    e: SEvalError,
)
    requires
        eval_spec(l, env, ans) == Outcome::Fail(e),
    ensures
        eval_spec(SExp::And(Box::new(l), Box::new(r)), env, ans) == Outcome::Fail(e),
        eval_spec(SExp::Or(Box::new(l), Box::new(r)), env, ans) == Outcome::Fail(e),
        eval_spec(SExp::Eq(Box::new(l), Box::new(r)), env, ans) == Outcome::Fail(e),
        eval_spec(SExp::Neq(Box::new(l), Box::new(r)), env, ans) == Outcome::Fail(e),
        eval_spec(SExp::Gt(Box::new(l), Box::new(r)), env, ans) == Outcome::Fail(e),
        eval_spec(SExp::Lt(Box::new(l), Box::new(r)), env, ans) == Outcome::Fail(e),
        eval_spec(SExp::Geq(Box::new(l), Box::new(r)), env, ans) == Outcome::Fail(e),
        eval_spec(SExp::Leq(Box::new(l), Box::new(r)), env, ans) == Outcome::Fail(e),
{
}

/// `==` on values of different types is `false` and `!=` is `true`; neither
/// is an error.
pub proof fn law_eq_of_different_types(
    l: SExp,
    r: SExp,
    env: SEnv,
    ans: spec_fn(FnCallback, Seq<SValue>) -> Outcome,
    a: SValue,
    b: SValue,
)
    requires
        eval_spec(l, env, ans) == Outcome::Val(a),
        eval_spec(r, env, ans) == Outcome::Val(b),
        svalue_type(a) != svalue_type(b),
    ensures
        eval_spec(SExp::Eq(Box::new(l), Box::new(r)), env, ans) == Outcome::Val(SValue::Bool(false)),
        eval_spec(SExp::Neq(Box::new(l), Box::new(r)), env, ans) == Outcome::Val(SValue::Bool(true)),
{
}

/// `!=` is the negation of `==`, and fails where `==` fails.
pub proof fn law_neq_negates_eq(l: SExp, r: SExp, env: SEnv, ans: spec_fn(FnCallback, Seq<SValue>) -> Outcome)
    ensures
        eval_spec(SExp::Neq(Box::new(l), Box::new(r)), env, ans) == match eval_spec(
            SExp::Eq(Box::new(l), Box::new(r)),
            env,
            ans,
        ) {
            Outcome::Val(SValue::Bool(x)) => Outcome::Val(SValue::Bool(!x)),
            o => o,
        },
{
}

/// The ordering operators compare two integers or two floats; on any other
/// pair of values they fail with a type error that names both types.
pub proof fn law_cmp_needs_two_numbers_of_one_type(
    l: SExp,
    r: SExp,
    env: SEnv,
    ans: spec_fn(FnCallback, Seq<SValue>) -> Outcome,
    a: SValue,
    b: SValue,
)
    requires
        eval_spec(l, env, ans) == Outcome::Val(a),
        eval_spec(r, env, ans) == Outcome::Val(b),
        !(a is Int && b is Int),
        !(a is Float && b is Float),
    ensures
        eval_spec(SExp::Gt(Box::new(l), Box::new(r)), env, ans) == Outcome::Fail(SEvalError::TypeError(cmp_error_text(a, b))),
        eval_spec(SExp::Lt(Box::new(l), Box::new(r)), env, ans) == Outcome::Fail(SEvalError::TypeError(cmp_error_text(a, b))),
        eval_spec(SExp::Geq(Box::new(l), Box::new(r)), env, ans) == Outcome::Fail(SEvalError::TypeError(cmp_error_text(a, b))),
        eval_spec(SExp::Leq(Box::new(l), Box::new(r)), env, ans) == Outcome::Fail(SEvalError::TypeError(cmp_error_text(a, b))),
{
}

/// With distinct keys, the last entry of a key is its only entry.
proof fn lemma_last_lookup_distinct<T>(ps: Seq<(Seq<char>, T)>, k: Seq<char>)
    requires
        distinct_keys(ps),
    ensures
        forall|v: T| (last_lookup(ps, k) == Some(v)) == ps.contains((k, v)),
    decreases ps.len(),
{
    if ps.len() > 0 {
        let q = ps.drop_last();
        assert(distinct_keys(q)) by {
            assert forall|i: int, j: int| 0 <= i < j < q.len() implies #[trigger] q[i].0 != #[trigger] q[j].0 by {
                assert(q[i] == ps[i] && q[j] == ps[j]);
            }
        }
        lemma_last_lookup_distinct(q, k);
        assert forall|v: T| (last_lookup(ps, k) == Some(v)) == ps.contains((k, v)) by {
            if ps.contains((k, v)) {
                let i = choose|i: int| 0 <= i < ps.len() && ps[i] == (k, v);
                if i < ps.len() - 1 {
                    assert(q[i] == ps[i]);
                    assert(q.contains((k, v)));
                }
            }
            if q.contains((k, v)) {
                let i = choose|i: int| 0 <= i < q.len() && q[i] == (k, v);
                assert(ps[i] == q[i]);
                assert(ps.contains((k, v)));
            }
            if ps.last().0 == k {
                assert forall|w: T| !q.contains((k, w)) by {
                    if q.contains((k, w)) {
                        let i = choose|i: int| 0 <= i < q.len() && q[i] == (k, w);
                        assert(ps[i] == q[i]);
                        assert(ps[i].0 == ps[ps.len() - 1].0);
                    }
                }
                assert(ps[ps.len() - 1] == ps.last());
            }
        }
    }
}

/// An object built from entries with distinct keys does not depend on the
/// order of the entries.
pub proof fn law_object_entry_order(ps1: Seq<(Seq<char>, SValue)>, ps2: Seq<(Seq<char>, SValue)>)
    requires
        ps1.to_multiset() == ps2.to_multiset(),
        distinct_keys(ps1),
        distinct_keys(ps2),
    ensures
        insert_all(Seq::empty(), ps1) == insert_all(Seq::empty(), ps2),
{
    broadcast use vstd::seq_lib::group_to_multiset_ensures;
    let e = Seq::<(Seq<char>, SValue)>::empty();
    lemma_insert_all_sorted(e, ps1);
    lemma_insert_all_sorted(e, ps2);
    assert forall|k: Seq<char>| #[trigger] lookup(insert_all(e, ps1), k) == lookup(insert_all(e, ps2), k) by {
        lemma_insert_all_lookup(e, ps1, k);
        lemma_insert_all_lookup(e, ps2, k);
        lemma_last_lookup_distinct(ps1, k);
        lemma_last_lookup_distinct(ps2, k);
        match last_lookup(ps1, k) {
            Some(v) => {
                assert(ps1.contains((k, v)));
                assert(ps2.to_multiset().count((k, v)) > 0);
            },
            None => match last_lookup(ps2, k) {
                Some(w) => {
                    assert(ps2.contains((k, w)));
                    assert(ps1.to_multiset().count((k, w)) > 0);
                },
                None => {},
            },
        }
    }
    lemma_sorted_lookup_ext(insert_all(e, ps1), insert_all(e, ps2));
}

/// An object literal whose entries evaluate to the same keys and values,
/// in another order and with distinct keys, evaluates to the same object.
pub proof fn law_object_literal_order(
    es1: Seq<(Seq<char>, SExp)>,
    es2: Seq<(Seq<char>, SExp)>,
    env: SEnv,
    ans: spec_fn(FnCallback, Seq<SValue>) -> Outcome,
    ps1: Seq<(Seq<char>, SValue)>,
    ps2: Seq<(Seq<char>, SValue)>,
)
    requires
        eval_entries(es1, env, ans) == Ok::<Seq<(Seq<char>, SValue)>, Outcome>(ps1),
        eval_entries(es2, env, ans) == Ok::<Seq<(Seq<char>, SValue)>, Outcome>(ps2),
        ps1.to_multiset() == ps2.to_multiset(),
        distinct_keys(ps1),
        distinct_keys(ps2),
    ensures
        eval_spec(SExp::Object(es1), env, ans) == eval_spec(SExp::Object(es2), env, ans),
        eval_spec(SExp::Object(es1), env, ans) matches Outcome::Val(SValue::Object(xs)) && keys_sorted(xs),
{
    law_object_entry_order(ps1, ps2);
    lemma_insert_all_sorted(Seq::<(Seq<char>, SValue)>::empty(), ps1);
}

/// A value whose objects hold their keys sorted at every depth, read as a
/// JSON document, gives itself back as a value: binding a value as a JSON
/// document changes nothing.
pub proof fn law_value_json_round_trip(v: SValue, fi: spec_fn(i64) -> u64)
    requires
        well_formed(v),
    ensures
        json_value(value_json(v, fi)) == Ok::<SValue, Seq<char>>(v),
    decreases v, 0int, 0int,
{
    match v {
        SValue::Array(xs) => {
            let js = value_json(v, fi)->Array_0;
            assert(decreases_to!(v => xs));
            assert(xs.subrange(0, xs.len() as int) =~= xs);
            lemma_items_round_trip(xs, js, fi, xs.len() as int);
            assert(js.subrange(0, xs.len() as int) =~= js);
            assert(xs.subrange(0, xs.len() as int) =~= xs);
        },
        SValue::Object(es) => {
            let js = value_json(v, fi)->Object_0;
            assert(decreases_to!(v => es));
            assert(es.subrange(0, es.len() as int) =~= es);
            lemma_entries_round_trip(es, js, fi, es.len() as int);
            assert(js.subrange(0, es.len() as int) =~= js);
            assert(es.subrange(0, es.len() as int) =~= es);
            lemma_insert_all_sorted_self(es);
        },
        _ => {},
    }
}

proof fn lemma_items_round_trip(xs: Seq<SValue>, js: Seq<SJson>, fi: spec_fn(i64) -> u64, n: int)
    requires
        0 <= n <= xs.len(),
        js.len() == xs.len(),
        forall|i: int| 0 <= i < xs.len() ==> #[trigger] js[i] == value_json(xs[i], fi),
        items_well_formed(xs.subrange(0, n)),
    ensures
        json_items(js.subrange(0, n)) == Ok::<Seq<SValue>, Seq<char>>(xs.subrange(0, n)),
    decreases xs, 1int, n,
{
    if n > 0 {
        let q = xs.subrange(0, n);
        assert(q.subrange(0, n - 1) =~= xs.subrange(0, n - 1));
        assert(q[n - 1] == xs[n - 1]);
        lemma_items_round_trip(xs, js, fi, n - 1);
        assert(well_formed(xs[n - 1]));
        assert(decreases_to!(xs => xs[n - 1]));
        law_value_json_round_trip(xs[n - 1], fi);
        let p = js.subrange(0, n);
        assert(p.subrange(0, n - 1) =~= js.subrange(0, n - 1));
        assert(p[n - 1] == js[n - 1]);
        assert(xs.subrange(0, n) =~= xs.subrange(0, n - 1).push(xs[n - 1]));
    } else {
        assert(js.subrange(0, 0) =~= Seq::<SJson>::empty());
        assert(xs.subrange(0, 0) =~= Seq::<SValue>::empty());
    }
}

proof fn lemma_entries_round_trip(
    es: Seq<(Seq<char>, SValue)>,
    js: Seq<(Seq<char>, SJson)>,
    fi: spec_fn(i64) -> u64,
    n: int,
)
    requires
        0 <= n <= es.len(),
        js.len() == es.len(),
        forall|i: int| 0 <= i < es.len() ==> #[trigger] js[i] == (es[i].0, value_json(es[i].1, fi)),
        entries_well_formed(es.subrange(0, n)),
    ensures
        json_entries(js.subrange(0, n)) == Ok::<Seq<(Seq<char>, SValue)>, Seq<char>>(es.subrange(0, n)),
    decreases es, 1int, n,
{
    if n > 0 {
        let q = es.subrange(0, n);
        assert(q.subrange(0, n - 1) =~= es.subrange(0, n - 1));
        assert(q[n - 1] == es[n - 1]);
        lemma_entries_round_trip(es, js, fi, n - 1);
        assert(well_formed(es[n - 1].1));
        assert(decreases_to!(es => es[n - 1]));
        assert(decreases_to!(es[n - 1] => es[n - 1].1));
        law_value_json_round_trip(es[n - 1].1, fi);
        let p = js.subrange(0, n);
        assert(p.subrange(0, n - 1) =~= js.subrange(0, n - 1));
        assert(p[n - 1] == js[n - 1]);
        assert(es.subrange(0, n) =~= es.subrange(0, n - 1).push(es[n - 1]));
    } else {
        assert(js.subrange(0, 0) =~= Seq::<(Seq<char>, SJson)>::empty());
        assert(es.subrange(0, 0) =~= Seq::<(Seq<char>, SValue)>::empty());
    }
}

/// Every literal in the expression is a well-formed value.
pub open spec fn literals_well_formed(e: SExp) -> bool
    decreases e, 1int,
{
    match e {
        SExp::Literal(v) => well_formed(v),
        SExp::Var(_) => true,
        SExp::Neg(x) => literals_well_formed(*x),
        SExp::Or(l, r) => literals_well_formed(*l) && literals_well_formed(*r),
        SExp::And(l, r) => literals_well_formed(*l) && literals_well_formed(*r),
        SExp::Eq(l, r) => literals_well_formed(*l) && literals_well_formed(*r),
        SExp::Neq(l, r) => literals_well_formed(*l) && literals_well_formed(*r),
        SExp::Gt(l, r) => literals_well_formed(*l) && literals_well_formed(*r),
        SExp::Lt(l, r) => literals_well_formed(*l) && literals_well_formed(*r),
        SExp::Geq(l, r) => literals_well_formed(*l) && literals_well_formed(*r),
        SExp::Leq(l, r) => literals_well_formed(*l) && literals_well_formed(*r),
        SExp::FnCall(_, args) => all_literals_well_formed(args),
        SExp::Array(items) => all_literals_well_formed(items),
        SExp::Object(es) => entry_literals_well_formed(es),
    }
}

/// Every literal in the expressions is well formed.
pub open spec fn all_literals_well_formed(s: Seq<SExp>) -> bool
    decreases s, 0int,
{
    if s.len() == 0 {
        true
    } else {
        literals_well_formed(s[0]) && all_literals_well_formed(s.subrange(1, s.len() as int))
    }
}

/// Every literal in the entries' expressions is well formed.
pub open spec fn entry_literals_well_formed(es: Seq<(Seq<char>, SExp)>) -> bool
    decreases es, 0int,
{
    if es.len() == 0 {
        true
    } else {
        literals_well_formed(es[0].1) && entry_literals_well_formed(es.subrange(1, es.len() as int))
    }
}

/// Every value that the callbacks give is well formed.
pub open spec fn answers_well_formed(ans: spec_fn(FnCallback, Seq<SValue>) -> Outcome) -> bool {
    forall|cb: FnCallback, args: Seq<SValue>| #[trigger] ans(cb, args) matches Outcome::Val(v) ==> well_formed(v)
}

/// Every binding holds a well-formed value.
pub open spec fn bindings_well_formed(env: SEnv) -> bool {
    forall|i: int| 0 <= i < env.bindings.len() ==> #[trigger] well_formed(env.bindings[i].1)
}

proof fn lemma_all_literals(s: Seq<SExp>)
    requires
        all_literals_well_formed(s),
    ensures
        forall|i: int| 0 <= i < s.len() ==> #[trigger] literals_well_formed(s[i]),
    decreases s.len(),
{
    if s.len() > 0 {
        let t = s.subrange(1, s.len() as int);
        lemma_all_literals(t);
        assert forall|i: int| 0 <= i < s.len() implies #[trigger] literals_well_formed(s[i]) by {
            if i > 0 {
                assert(t[i - 1] == s[i]);
            }
        }
    }
}

proof fn lemma_entry_literals(es: Seq<(Seq<char>, SExp)>)
    requires
        entry_literals_well_formed(es),
    ensures
        forall|i: int| 0 <= i < es.len() ==> #[trigger] literals_well_formed(es[i].1),
    decreases es.len(),
{
    if es.len() > 0 {
        let t = es.subrange(1, es.len() as int);
        lemma_entry_literals(t);
        assert forall|i: int| 0 <= i < es.len() implies #[trigger] literals_well_formed(es[i].1) by {
            if i > 0 {
                assert(t[i - 1] == es[i]);
            }
        }
    }
}

/// What a key maps to among entries with well-formed values is well formed.
proof fn lemma_lookup_wf(m: Seq<(Seq<char>, SValue)>, k: Seq<char>)
    requires
        forall|i: int| 0 <= i < m.len() ==> #[trigger] well_formed(m[i].1),
    ensures
        lookup(m, k) matches Some(v) ==> well_formed(v),
{
    lemma_first_index(m, k);
    match first_index(m, k) {
        Some(i) => {
            assert(well_formed(m[i].1));
        },
        None => {},
    }
}

/// An index applied to a well-formed value gives a well-formed value.
proof fn lemma_apply_index_wf(var: SVarName, v: SValue)
    requires
        well_formed(v),
    ensures
        apply_index(var, v) matches Ok(x) ==> well_formed(x),
{
    match (var.index, v) {
        (Some(i), SValue::Array(a)) => {
            lemma_items_well_formed(a);
            if i < a.len() {
                assert(well_formed(a[i as int]));
            }
        },
        _ => {},
    }
}

/// Walking a well-formed value reaches well-formed values.
proof fn lemma_access_path_wf(names: Seq<SVarName>, cur: SValue)
    requires
        well_formed(cur),
    ensures
        access_path(names, cur) matches Ok(v) ==> well_formed(v),
    decreases names.len(),
{
    if names.len() > 0 {
        match cur {
            SValue::Object(o) => {
                lemma_entries_well_formed(o);
                lemma_lookup_wf(o, names[0].name);
                match lookup(o, names[0].name) {
                    Some(next) => {
                        lemma_apply_index_wf(names[0], next);
                        match apply_index(names[0], next) {
                            Ok(c) => lemma_access_path_wf(names.drop_first(), c),
                            Err(_) => {},
                        }
                    },
                    None => {},
                }
            },
            _ => {},
        }
    }
}

/// Reading a variable from well-formed bindings gives a well-formed value.
proof fn lemma_access_bindings_wf(names: Seq<SVarName>, env: SEnv)
    requires
        bindings_well_formed(env),
    ensures
        access_bindings_spec(names, env.bindings) matches Ok(v) ==> well_formed(v),
{
    if names.len() > 0 {
        lemma_lookup_wf(env.bindings, names[0].name);
        match lookup(env.bindings, names[0].name) {
            Some(v) => {
                lemma_apply_index_wf(names[0], v);
                match apply_index(names[0], v) {
                    Ok(c) => lemma_access_path_wf(names.drop_first(), c),
                    Err(_) => {},
                }
            },
            None => {},
        }
    }
}

/// Evaluation keeps values well formed: where the bindings, the literals
/// and the callbacks' answers are well formed, so is the value an
/// expression gives; its objects hold their keys sorted, each once, at
/// every depth.
#[verifier::spinoff_prover]
pub proof fn law_eval_well_formed(e: SExp, env: SEnv, ans: spec_fn(FnCallback, Seq<SValue>) -> Outcome)
    requires
        literals_well_formed(e),
        bindings_well_formed(env),
        answers_well_formed(ans),
    ensures
        eval_spec(e, env, ans) matches Outcome::Val(v) ==> well_formed(v),
    decreases e, 1int,
{
    match e {
        SExp::Literal(x) => {
            assert(literals_well_formed(SExp::Literal(x)) == well_formed(x));
        },
        SExp::Var(names) => lemma_access_bindings_wf(names, env),
        SExp::Neg(_) => {},
        SExp::Or(l, r) => {
            law_eval_well_formed(*l, env, ans);
            law_eval_well_formed(*r, env, ans);
        },
        SExp::And(l, r) => {
            law_eval_well_formed(*l, env, ans);
            law_eval_well_formed(*r, env, ans);
        },
        SExp::Eq(_, _) => {},
        SExp::Neq(_, _) => {},
        SExp::Gt(_, _) => {},
        SExp::Lt(_, _) => {},
        SExp::Geq(_, _) => {},
        SExp::Leq(_, _) => {},
        SExp::FnCall(name, args) => {
            lemma_args_fail(args, env, ans);
            match eval_args(args, env, ans) {
                Ok(vs) => match lookup(env.vtable, name) {
                    Some(cb) => {
                        assert(ans(cb, vs) matches Outcome::Val(v) ==> well_formed(v));
                    },
                    None => {},
                },
                Err(_) => {},
            }
        },
        SExp::Array(items) => {
            lemma_all_literals(items);
            lemma_items_wf(items, env, ans);
            lemma_args_fail(items, env, ans);
            match eval_args(items, env, ans) {
                Ok(vs) => {
                    lemma_items_well_formed(vs);
                    assert(well_formed(SValue::Array(vs)) == items_well_formed(vs));
                },
                Err(_) => {},
            }
        },
        SExp::Object(es) => {
            lemma_entry_literals(es);
            lemma_entries_wf(es, env, ans);
            lemma_entries_fail(es, env, ans);
            match eval_entries(es, env, ans) {
                Ok(ps) => {
                    let e0 = Seq::<(Seq<char>, SValue)>::empty();
                    lemma_insert_all_values_wf(e0, ps);
                    lemma_insert_all_sorted(e0, ps);
                    lemma_entries_well_formed(insert_all(e0, ps));
                },
                Err(_) => {},
            }
        },
    }
}

/// Arguments that give no values give the outcome of one that gave none.
proof fn lemma_args_fail(args: Seq<SExp>, env: SEnv, ans: spec_fn(FnCallback, Seq<SValue>) -> Outcome)
    ensures
        eval_args(args, env, ans) matches Err(o) ==> !(o is Val),
    decreases args.len(),
{
    if args.len() > 0 {
        lemma_args_fail(args.subrange(1, args.len() as int), env, ans);
    }
}

/// Object entries that give no values give the outcome of one that gave
/// none.
proof fn lemma_entries_fail(es: Seq<(Seq<char>, SExp)>, env: SEnv, ans: spec_fn(FnCallback, Seq<SValue>) -> Outcome)
    ensures
        eval_entries(es, env, ans) matches Err(o) ==> !(o is Val),
    decreases es.len(),
{
    if es.len() > 0 {
        lemma_entries_fail(es.subrange(0, es.len() - 1), env, ans);
    }
}

/// The values of array items are well formed.
proof fn lemma_items_wf(items: Seq<SExp>, env: SEnv, ans: spec_fn(FnCallback, Seq<SValue>) -> Outcome)
    requires
        forall|i: int| 0 <= i < items.len() ==> #[trigger] literals_well_formed(items[i]),
        bindings_well_formed(env),
        answers_well_formed(ans),
    ensures
        eval_args(items, env, ans) matches Ok(vs) ==> forall|i: int| 0 <= i < vs.len() ==> #[trigger] well_formed(vs[i]),
    decreases items, 0int,
{
    if items.len() > 0 {
        let p = items.subrange(1, items.len() as int);
        assert forall|i: int| 0 <= i < p.len() implies #[trigger] literals_well_formed(p[i]) by {
            assert(p[i] == items[i + 1]);
        }
        assert(literals_well_formed(items[0]));
        law_eval_well_formed(items[0], env, ans);
        lemma_items_wf(p, env, ans);
        match eval_args(items, env, ans) {
            Ok(vs) => {
                let ws = eval_args(p, env, ans)->Ok_0;
                assert forall|i: int| 0 <= i < vs.len() implies #[trigger] well_formed(vs[i]) by {
                    if i > 0 {
                        assert(vs[i] == ws[i - 1]);
                    }
                }
            },
            Err(_) => {},
        }
    }
}

/// The values of object entries are well formed.
proof fn lemma_entries_wf(es: Seq<(Seq<char>, SExp)>, env: SEnv, ans: spec_fn(FnCallback, Seq<SValue>) -> Outcome)
    requires
        forall|i: int| 0 <= i < es.len() ==> #[trigger] literals_well_formed(es[i].1),
        bindings_well_formed(env),
        answers_well_formed(ans),
    ensures
        eval_entries(es, env, ans) matches Ok(ps) ==> forall|i: int| 0 <= i < ps.len() ==> #[trigger] well_formed(ps[i].1),
    decreases es, 0int,
{
    if es.len() > 0 {
        let n = es.len() - 1;
        let p = es.subrange(0, n);
        assert forall|i: int| 0 <= i < p.len() implies #[trigger] literals_well_formed(p[i].1) by {
            assert(p[i] == es[i]);
        }
        let last = es[n];
        assert(literals_well_formed(last.1));
        assert(decreases_to!(es => es[n]));
        law_eval_well_formed(last.1, env, ans);
        lemma_entries_wf(p, env, ans);
        match eval_entries(es, env, ans) {
            Ok(ps) => {
                let ws = eval_entries(p, env, ans)->Ok_0;
                assert forall|i: int| 0 <= i < ps.len() implies #[trigger] well_formed(ps[i].1) by {
                    if i < ws.len() {
                        assert(ps[i] == ws[i]);
                    }
                }
            },
            Err(_) => {},
        }
    }
}

/// `!a` is `true` where `a` gives a falsy value and `false` where it gives
/// a truthy one; where `a` fails or stops, so does `!a`.
pub proof fn law_neg(x: SExp, env: SEnv, ans: spec_fn(FnCallback, Seq<SValue>) -> Outcome)
    ensures
        eval_spec(SExp::Neg(Box::new(x)), env, ans) == match eval_spec(x, env, ans) {
            Outcome::Val(v) => Outcome::Val(SValue::Bool(!truthy(v))),
            o => o,
        },
{
}

/// Evaluation never fails with a value error of its own: a value error
/// comes only from a called function, inside the error of that call. In
/// particular no evaluation ends in the error of an empty value stack.
pub proof fn law_no_bare_value_error(e: SExp, env: SEnv, ans: spec_fn(FnCallback, Seq<SValue>) -> Outcome)
    ensures
        !bare_value_error(eval_spec(e, env, ans)),
        eval_spec(e, env, ans) != Outcome::Fail(SEvalError::ValueError(no_value_text())),
    decreases e, 1int,
{
    match e {
        SExp::Neg(x) => law_no_bare_value_error(*x, env, ans),
        SExp::Or(l, r) => {
            law_no_bare_value_error(*l, env, ans);
            law_no_bare_value_error(*r, env, ans);
        },
        SExp::And(l, r) => {
            law_no_bare_value_error(*l, env, ans);
            law_no_bare_value_error(*r, env, ans);
        },
        SExp::Eq(l, r) => {
            law_no_bare_value_error(*l, env, ans);
            law_no_bare_value_error(*r, env, ans);
        },
        SExp::Neq(l, r) => {
            law_no_bare_value_error(*l, env, ans);
            law_no_bare_value_error(*r, env, ans);
        },
        SExp::Gt(l, r) => {
            law_no_bare_value_error(*l, env, ans);
            law_no_bare_value_error(*r, env, ans);
        },
        SExp::Lt(l, r) => {
            law_no_bare_value_error(*l, env, ans);
            law_no_bare_value_error(*r, env, ans);
        },
        SExp::Geq(l, r) => {
            law_no_bare_value_error(*l, env, ans);
            law_no_bare_value_error(*r, env, ans);
        },
        SExp::Leq(l, r) => {
            law_no_bare_value_error(*l, env, ans);
            law_no_bare_value_error(*r, env, ans);
        },
        SExp::FnCall(_, args) => lemma_args_no_value_error(args, env, ans),
        SExp::Array(items) => lemma_args_no_value_error(items, env, ans),
        SExp::Object(es) => lemma_entries_no_value_error(es, env, ans),
        _ => {},
    }
}

/// Arguments that give no values give no value error of their own.
proof fn lemma_args_no_value_error(args: Seq<SExp>, env: SEnv, ans: spec_fn(FnCallback, Seq<SValue>) -> Outcome)
    ensures
        eval_args(args, env, ans) matches Err(o) ==> !bare_value_error(o),
    decreases args, 0int,
{
    if args.len() > 0 {
        law_no_bare_value_error(args[0], env, ans);
        lemma_args_no_value_error(args.subrange(1, args.len() as int), env, ans);
    }
}

/// Object entries that give no values give no value error of their own.
proof fn lemma_entries_no_value_error(es: Seq<(Seq<char>, SExp)>, env: SEnv, ans: spec_fn(FnCallback, Seq<SValue>) -> Outcome)
    ensures
        eval_entries(es, env, ans) matches Err(o) ==> !bare_value_error(o),
    decreases es, 0int,
{
    if es.len() > 0 {
        assert(decreases_to!(es => es[es.len() - 1]));
        law_no_bare_value_error(es[es.len() - 1].1, env, ans);
        lemma_entries_no_value_error(es.subrange(0, es.len() - 1), env, ans);
    }
}

/// Joining a first text and nonempty others is the first text, the
/// separator, and the others joined.
proof fn lemma_join_front(a: Seq<char>, rest: Seq<Seq<char>>, sep: Seq<char>)
    requires
        rest.len() >= 1,
    ensures
        join_texts(seq![a] + rest, sep) == a + sep + join_texts(rest, sep),
    decreases rest.len(),
{
    let q = seq![a] + rest;
    if rest.len() == 1 {
        assert(q.drop_last() =~= seq![a]);
        assert(q.last() == rest[0]);
        assert(join_texts(seq![a], sep) == a);
        assert(join_texts(rest, sep) == rest[0]);
    } else {
        assert(q.drop_last() =~= seq![a] + rest.drop_last());
        assert(q.last() == rest.last());
        lemma_join_front(a, rest.drop_last(), sep);
        assert(join_texts(q, sep) =~= a + sep + join_texts(rest, sep));
    }
}

/// The pieces of a split are never none.
proof fn lemma_split_pieces_len(s: Seq<char>, p: Seq<char>, acc: Seq<char>)
    ensures
        split_pieces(s, p, acc).len() >= 1,
    decreases s.len(),
{
    if !(p.len() == 0 || s.len() < p.len()) {
        if s.take(p.len() as int) == p {
            lemma_split_pieces_len(s.skip(p.len() as int), p, Seq::empty());
        } else {
            lemma_split_pieces_len(s.drop_first(), p, acc.push(s[0]));
        }
    }
}

/// The pieces of `s` at a nonempty separator, joined by it, give the start
/// of the current piece followed by `s`.
proof fn lemma_join_split_pieces(s: Seq<char>, p: Seq<char>, acc: Seq<char>)
    requires
        p.len() > 0,
    ensures
        join_texts(split_pieces(s, p, acc), p) == acc + s,
    decreases s.len(),
{
    if s.len() < p.len() {
        assert(join_texts(seq![acc + s], p) == acc + s);
    } else if s.take(p.len() as int) == p {
        let s2 = s.skip(p.len() as int);
        lemma_join_split_pieces(s2, p, Seq::empty());
        lemma_split_pieces_len(s2, p, Seq::empty());
        lemma_join_front(acc, split_pieces(s2, p, Seq::empty()), p);
        assert(Seq::<char>::empty() + s2 =~= s2);
        assert(acc + p + s2 =~= acc + s) by {
            assert(s =~= s.take(p.len() as int) + s2);
        }
    } else {
        lemma_join_split_pieces(s.drop_first(), p, acc.push(s[0]));
        assert(acc.push(s[0]) + s.drop_first() =~= acc + s);
    }
}

/// One-character pieces after an empty one, joined by nothing, give the
/// characters.
proof fn lemma_join_chars(s: Seq<char>, k: nat)
    requires
        k <= s.len(),
    ensures
        join_texts(seq![Seq::<char>::empty()] + Seq::new(k, |i: int| seq![s[i]]), Seq::<char>::empty()) == s.take(k as int),
    decreases k,
{
    let q = seq![Seq::<char>::empty()] + Seq::new(k, |i: int| seq![s[i]]);
    if k == 0 {
        assert(q =~= seq![Seq::<char>::empty()]);
        assert(s.take(0) =~= Seq::<char>::empty());
    } else {
        lemma_join_chars(s, (k - 1) as nat);
        assert(q.drop_last() =~= seq![Seq::<char>::empty()] + Seq::new((k - 1) as nat, |i: int| seq![s[i]]));
        assert(q.last() == seq![s[k - 1]]);
        assert(join_texts(q, Seq::<char>::empty()) =~= s.take(k as int));
    }
}

/// The pieces of a split, joined by the separator, give the text.
proof fn lemma_join_split(s: Seq<char>, sep: Seq<char>)
    ensures
        join_texts(split_spec(s, sep), sep) == s,
{
    if sep.len() == 0 {
        let n = s.len();
        let q = seq![Seq::<char>::empty()] + Seq::new(n, |i: int| seq![s[i]]);
        let ts = split_spec(s, sep);
        assert(sep =~= Seq::<char>::empty());
        lemma_join_chars(s, n);
        assert(ts =~= q.push(Seq::<char>::empty()));
        assert(ts.drop_last() =~= q);
        assert(ts.last() == Seq::<char>::empty());
        assert(s.take(n as int) =~= s);
        assert(join_texts(ts, sep) == join_texts(q, sep) + sep + Seq::<char>::empty());
        assert(join_texts(ts, sep) =~= s);
    } else {
        lemma_join_split_pieces(s, sep, Seq::empty());
        assert(Seq::<char>::empty() + s =~= s);
    }
}

/// Joining the parts of a split by the separator gives the text back:
/// `join(split(s, sep), sep)` is `s`, for every text and separator.
pub proof fn law_join_undoes_split(s: Seq<char>, sep: Seq<char>, fs: FloatSpec)
    ensures
        match builtin_spec(Builtin::Split, seq![SValue::Str(s), SValue::Str(sep)], fs) {
            Outcome::Val(parts) => builtin_spec(Builtin::Join, seq![parts, SValue::Str(sep)], fs)
                == Outcome::Val(SValue::Str(s)),
            _ => false,
        },
{
    let args = seq![SValue::Str(s), SValue::Str(sep)];
    let ts = split_spec(s, sep);
    assert(builtin_spec(Builtin::Split, args, fs) == Outcome::Val(SValue::Array(str_values(ts))));
    let xs = str_values(ts);
    assert(!any_stops(xs)) by {
        assert forall|i: int| 0 <= i < xs.len() implies !render_stops(#[trigger] xs[i]) by {
            assert(xs[i] == SValue::Str(ts[i]));
        }
    }
    assert(texts_of(xs, fs.text) =~= ts) by {
        assert forall|i: int| 0 <= i < ts.len() implies #[trigger] texts_of(xs, fs.text)[i] == ts[i] by {
            assert(xs[i] == SValue::Str(ts[i]));
        }
    }
    lemma_join_split(s, sep);
    let t = seq![SValue::Array(xs), SValue::Str(sep)];
    assert(t[0] == SValue::Array(xs));
    assert(t[1] == SValue::Str(sep));
}

/// What two objects give for one key agrees: neither has it, or both have
/// it with equal values.
pub open spec fn lookups_agree(a: Option<SValue>, b: Option<SValue>) -> bool {
    match (a, b) {
        (None, None) => true,
        (Some(x), Some(y)) => value_eq(x, y),
        _ => false,
    }
}

/// The keys of entries, each with nothing beside it.
spec fn keys_of(es: Seq<(Seq<char>, SValue)>) -> Seq<(Seq<char>, ())> {
    es.map_values(|e: (Seq<char>, SValue)| (e.0, ()))
}

/// A key is among the keys exactly where it is among the entries.
proof fn lemma_lookup_keys(es: Seq<(Seq<char>, SValue)>, k: Seq<char>)
    ensures
        lookup(keys_of(es), k) == if lookup(es, k) is Some { Some(()) } else { None::<()> },
    decreases es.len(),
{
    if es.len() > 0 {
        assert(keys_of(es)[0] == (es[0].0, ()));
        assert(keys_of(es).drop_first() =~= keys_of(es.drop_first()));
        lemma_lookup_keys(es.drop_first(), k);
    }
}

/// In sorted entries, each entry's key finds that entry.
proof fn lemma_sorted_lookup_at(es: Seq<(Seq<char>, SValue)>, i: int)
    requires
        keys_sorted(es),
        0 <= i < es.len(),
    ensures
        lookup(es, es[i].0) == Some(es[i].1),
{
    let k = es[i].0;
    lemma_first_index(es, k);
    match first_index(es, k) {
        Some(j) => {
            if j < i {
                assert(seq_lt(es[j].0, es[i].0));
                lemma_seq_lt_irreflexive(k);
            } else if j > i {
                assert(es[i].0 != k);
            }
        },
        None => {
            assert(es[i].0 != k);
        },
    }
}

/// Entries with the same keys at the same places find a key at the same
/// place.
proof fn lemma_same_keys_first_index(xs: Seq<(Seq<char>, SValue)>, ys: Seq<(Seq<char>, SValue)>, k: Seq<char>)
    requires
        xs.len() == ys.len(),
        forall|i: int| 0 <= i < xs.len() ==> #[trigger] xs[i].0 == ys[i].0,
    ensures
        first_index(xs, k) == first_index(ys, k),
{
    lemma_first_index(xs, k);
    lemma_first_index(ys, k);
    match (first_index(xs, k), first_index(ys, k)) {
        (Some(i), Some(j)) => {
            if i < j {
                assert(ys[i].0 == k);
            } else if j < i {
                assert(xs[j].0 == k);
            }
        },
        (Some(i), None) => {
            assert(ys[i].0 == k);
        },
        (None, Some(j)) => {
            assert(xs[j].0 == k);
        },
        (None, None) => {},
    }
}

/// Objects are equal as maps are: two objects are equal exactly when they
/// have the same keys and, under each key, equal values.
pub proof fn law_object_eq_is_map_eq(xs: Seq<(Seq<char>, SValue)>, ys: Seq<(Seq<char>, SValue)>)
    requires
        keys_sorted(xs),
        keys_sorted(ys),
    ensures
        value_eq(SValue::Object(xs), SValue::Object(ys))
            == forall|k: Seq<char>| #[trigger] lookups_agree(lookup(xs, k), lookup(ys, k)),
{
    if value_eq(SValue::Object(xs), SValue::Object(ys)) {
        assert forall|k: Seq<char>| #[trigger] lookups_agree(lookup(xs, k), lookup(ys, k)) by {
            assert forall|i: int| 0 <= i < xs.len() implies #[trigger] xs[i].0 == ys[i].0 by {
                assert(xs[i].0 == ys[i].0 && value_eq(xs[i].1, ys[i].1));
            }
            lemma_same_keys_first_index(xs, ys, k);
            lemma_first_index(xs, k);
            lemma_first_index(ys, k);
            match first_index(xs, k) {
                Some(i) => {
                    assert(xs[i].0 == ys[i].0 && value_eq(xs[i].1, ys[i].1));
                },
                None => {},
            }
        }
    }
    if forall|k: Seq<char>| #[trigger] lookups_agree(lookup(xs, k), lookup(ys, k)) {
        let xk = keys_of(xs);
        let yk = keys_of(ys);
        assert forall|k: Seq<char>| #[trigger] lookup(xk, k) == lookup(yk, k) by {
            lemma_lookup_keys(xs, k);
            lemma_lookup_keys(ys, k);
            assert(lookups_agree(lookup(xs, k), lookup(ys, k)));
        }
        assert(keys_sorted(xk)) by {
            assert forall|i: int, j: int| 0 <= i < j < xk.len() implies seq_lt(#[trigger] xk[i].0, #[trigger] xk[j].0) by {
                assert(xk[i].0 == xs[i].0);
                assert(xk[j].0 == xs[j].0);
            }
        }
        assert(keys_sorted(yk)) by {
            assert forall|i: int, j: int| 0 <= i < j < yk.len() implies seq_lt(#[trigger] yk[i].0, #[trigger] yk[j].0) by {
                assert(yk[i].0 == ys[i].0);
                assert(yk[j].0 == ys[j].0);
            }
        }
        lemma_sorted_lookup_ext(xk, yk);
        assert(xs.len() == xk.len() && ys.len() == yk.len());
        assert forall|i: int| #![trigger xs[i]] 0 <= i < xs.len() implies xs[i].0 == ys[i].0 && value_eq(xs[i].1, ys[i].1) by {
            assert(xk[i].0 == xs[i].0);
            assert(yk[i].0 == ys[i].0);
            lemma_sorted_lookup_at(xs, i);
            lemma_sorted_lookup_at(ys, i);
            assert(lookups_agree(lookup(xs, xs[i].0), lookup(ys, xs[i].0)));
        }
    }
}

/// Every call in the expression names a function that the table does not
/// map to a synchronous callback of the host.
pub open spec fn calls_no_host(e: SExp, env: SEnv) -> bool
    decreases e, 1int,
{
    match e {
        SExp::Literal(_) => true,
        SExp::Var(_) => true,
        SExp::Neg(x) => calls_no_host(*x, env),
        SExp::Or(l, r) => calls_no_host(*l, env) && calls_no_host(*r, env),
        SExp::And(l, r) => calls_no_host(*l, env) && calls_no_host(*r, env),
        SExp::Eq(l, r) => calls_no_host(*l, env) && calls_no_host(*r, env),
        SExp::Neq(l, r) => calls_no_host(*l, env) && calls_no_host(*r, env),
        SExp::Gt(l, r) => calls_no_host(*l, env) && calls_no_host(*r, env),
        SExp::Lt(l, r) => calls_no_host(*l, env) && calls_no_host(*r, env),
        SExp::Geq(l, r) => calls_no_host(*l, env) && calls_no_host(*r, env),
        SExp::Leq(l, r) => calls_no_host(*l, env) && calls_no_host(*r, env),
        SExp::FnCall(name, args) => !(lookup(env.vtable, name) matches Some(FnCallback::Sync(_)))
            && all_call_no_host(args, env),
        SExp::Array(items) => all_call_no_host(items, env),
        SExp::Object(es) => entries_call_no_host(es, env),
    }
}

/// Every call in the expressions names no synchronous callback of the host.
pub open spec fn all_call_no_host(s: Seq<SExp>, env: SEnv) -> bool
    decreases s, 0int,
{
    if s.len() == 0 {
        true
    } else {
        calls_no_host(s[0], env) && all_call_no_host(s.subrange(1, s.len() as int), env)
    }
}

/// Every call in the entries' expressions names no synchronous callback of
/// the host.
pub open spec fn entries_call_no_host(es: Seq<(Seq<char>, SExp)>, env: SEnv) -> bool
    decreases es, 0int,
{
    if es.len() == 0 {
        true
    } else {
        calls_no_host(es[es.len() - 1].1, env) && entries_call_no_host(es.subrange(0, es.len() - 1), env)
    }
}

/// An expression whose calls name no synchronous callback of the host gives
/// the same under two ways of answering calls that differ only there.
proof fn lemma_same_outcome(
    e: SExp,
    env: SEnv,
    o1: spec_fn(FnCallback, Seq<SValue>) -> Outcome,
    o2: spec_fn(FnCallback, Seq<SValue>) -> Outcome,
)
    requires
        calls_no_host(e, env),
        agree_off_host(o1, o2),
    ensures
        eval_spec(e, env, o1) == eval_spec(e, env, o2),
    decreases e, 1int,
{
    match e {
        SExp::Neg(x) => lemma_same_outcome(*x, env, o1, o2),
        SExp::Or(l, r) => {
            lemma_same_outcome(*l, env, o1, o2);
            lemma_same_outcome(*r, env, o1, o2);
        },
        SExp::And(l, r) => {
            lemma_same_outcome(*l, env, o1, o2);
            lemma_same_outcome(*r, env, o1, o2);
        },
        SExp::Eq(l, r) => {
            lemma_same_outcome(*l, env, o1, o2);
            lemma_same_outcome(*r, env, o1, o2);
        },
        SExp::Neq(l, r) => {
            lemma_same_outcome(*l, env, o1, o2);
            lemma_same_outcome(*r, env, o1, o2);
        },
        SExp::Gt(l, r) => {
            lemma_same_outcome(*l, env, o1, o2);
            lemma_same_outcome(*r, env, o1, o2);
        },
        SExp::Lt(l, r) => {
            lemma_same_outcome(*l, env, o1, o2);
            lemma_same_outcome(*r, env, o1, o2);
        },
        SExp::Geq(l, r) => {
            lemma_same_outcome(*l, env, o1, o2);
            lemma_same_outcome(*r, env, o1, o2);
        },
        SExp::Leq(l, r) => {
            lemma_same_outcome(*l, env, o1, o2);
            lemma_same_outcome(*r, env, o1, o2);
        },
        SExp::FnCall(name, args) => {
            lemma_all_same_outcome(args, env, o1, o2);
            match eval_args(args, env, o1) {
                Ok(vs) => match lookup(env.vtable, name) {
                    Some(cb) => {
                        assert(o1(cb, vs) == o2(cb, vs));
                    },
                    None => {},
                },
                Err(_) => {},
            }
        },
        SExp::Array(items) => lemma_all_same_outcome(items, env, o1, o2),
        SExp::Object(es) => lemma_entries_same_outcome(es, env, o1, o2),
        _ => {},
    }
}

/// Arguments whose calls name no synchronous callback of the host give the
/// same under both ways of answering.
proof fn lemma_all_same_outcome(
    s: Seq<SExp>,
    env: SEnv,
    o1: spec_fn(FnCallback, Seq<SValue>) -> Outcome,
    o2: spec_fn(FnCallback, Seq<SValue>) -> Outcome,
)
    requires
        all_call_no_host(s, env),
        agree_off_host(o1, o2),
    ensures
        eval_args(s, env, o1) == eval_args(s, env, o2),
    decreases s, 0int,
{
    if s.len() > 0 {
        lemma_same_outcome(s[0], env, o1, o2);
        lemma_all_same_outcome(s.subrange(1, s.len() as int), env, o1, o2);
    }
}

/// Entries whose calls name no synchronous callback of the host give the
/// same under both ways of answering.
proof fn lemma_entries_same_outcome(
    es: Seq<(Seq<char>, SExp)>,
    env: SEnv,
    o1: spec_fn(FnCallback, Seq<SValue>) -> Outcome,
    o2: spec_fn(FnCallback, Seq<SValue>) -> Outcome,
)
    requires
        entries_call_no_host(es, env),
        agree_off_host(o1, o2),
    ensures
        eval_entries(es, env, o1) == eval_entries(es, env, o2),
    decreases es, 0int,
{
    if es.len() > 0 {
        assert(decreases_to!(es => es[es.len() - 1]));
        lemma_same_outcome(es[es.len() - 1].1, env, o1, o2);
        lemma_entries_same_outcome(es.subrange(0, es.len() - 1), env, o1, o2);
    }
}

/// An expression whose calls name no synchronous callback of the host does
/// not depend on the host's answers, so `Exp::eval` gives what
/// [`eval_spec`] gives, whatever the host.
pub proof fn law_calls_no_host_independent(e: SExp, env: SEnv, fs: FloatSpec)
    requires
        calls_no_host(e, env),
    ensures
        host_independent(e, env, fs),
{
    assert forall|o: spec_fn(FnCallback, Seq<SValue>) -> Outcome|
        agree_off_host(o, builtin_oracle(fs)) implies #[trigger] eval_spec(e, env, o) == eval_spec(e, env, builtin_oracle(fs)) by {
        lemma_same_outcome(e, env, o, builtin_oracle(fs));
    }
}

/// The last entry of a key is the one that lookups from the end find.
proof fn lemma_last_lookup_at<T>(es: Seq<(Seq<char>, T)>, j: int, k: Seq<char>)
    requires
        0 <= j < es.len(),
        es[j].0 == k,
        forall|t: int| j < t < es.len() ==> #[trigger] es[t].0 != k,
    ensures
        last_lookup(es, k) == Some(es[j].1),
    decreases es.len(),
{
    if es.len() - 1 > j {
        let p = es.drop_last();
        assert(es.last().0 != k);
        assert forall|t: int| j < t < p.len() implies #[trigger] p[t].0 != k by {
            assert(p[t] == es[t]);
        }
        lemma_last_lookup_at(p, j, k);
    }
}

/// The default function table calls each built-in function by its own
/// name.
pub proof fn law_default_table_names()
    ensures
        lookup(default_table(), "matches"@) == Some(FnCallback::Builtin(Builtin::Matches)),
        lookup(default_table(), "len"@) == Some(FnCallback::Builtin(Builtin::Len)),
        lookup(default_table(), "startsWith"@) == Some(FnCallback::Builtin(Builtin::StartsWith)),
        lookup(default_table(), "endsWith"@) == Some(FnCallback::Builtin(Builtin::EndsWith)),
        lookup(default_table(), "contains"@) == Some(FnCallback::Builtin(Builtin::Contains)),
        lookup(default_table(), "bool"@) == Some(FnCallback::Builtin(Builtin::Bool)),
        lookup(default_table(), "string"@) == Some(FnCallback::Builtin(Builtin::String)),
        lookup(default_table(), "int"@) == Some(FnCallback::Builtin(Builtin::Int)),
        lookup(default_table(), "float"@) == Some(FnCallback::Builtin(Builtin::Float)),
        lookup(default_table(), "base64Encode"@) == Some(FnCallback::Builtin(Builtin::Base64Encode)),
        lookup(default_table(), "base64Decode"@) == Some(FnCallback::Builtin(Builtin::Base64Decode)),
        lookup(default_table(), "replace"@) == Some(FnCallback::Builtin(Builtin::Replace)),
        lookup(default_table(), "format"@) == Some(FnCallback::Builtin(Builtin::Format)),
        lookup(default_table(), "join"@) == Some(FnCallback::Builtin(Builtin::Join)),
        lookup(default_table(), "split"@) == Some(FnCallback::Builtin(Builtin::Split)),
{
    reveal_strlit("matches");
    reveal_strlit("len");
    reveal_strlit("startsWith");
    reveal_strlit("endsWith");
    reveal_strlit("contains");
    reveal_strlit("bool");
    reveal_strlit("string");
    reveal_strlit("int");
    reveal_strlit("float");
    reveal_strlit("base64Encode");
    reveal_strlit("base64Decode");
    reveal_strlit("replace");
    reveal_strlit("format");
    reveal_strlit("join");
    reveal_strlit("split");
    let es = builtin_entries();
    assert forall|t: int| 0 < t < es.len() implies #[trigger] es[t].0 != "matches"@ by {
        assert(es[t].0.len() != "matches"@.len() || es[t].0[0] != "matches"@[0] || es[t].0[1] != "matches"@[1] || es[t].0[4] != "matches"@[4] || es[t].0[es[t].0.len() - 1] != "matches"@["matches"@.len() - 1]);
    }
    lemma_last_lookup_at(es, 0, "matches"@);
    lemma_insert_all_lookup(Seq::<(Seq<char>, FnCallback)>::empty(), es, "matches"@);
    assert forall|t: int| 1 < t < es.len() implies #[trigger] es[t].0 != "len"@ by {
        assert(es[t].0.len() != "len"@.len() || es[t].0[0] != "len"@[0] || es[t].0[1] != "len"@[1] || es[t].0[4] != "len"@[4] || es[t].0[es[t].0.len() - 1] != "len"@["len"@.len() - 1]);
    }
    lemma_last_lookup_at(es, 1, "len"@);
    lemma_insert_all_lookup(Seq::<(Seq<char>, FnCallback)>::empty(), es, "len"@);
    assert forall|t: int| 2 < t < es.len() implies #[trigger] es[t].0 != "startsWith"@ by {
        assert(es[t].0.len() != "startsWith"@.len() || es[t].0[0] != "startsWith"@[0] || es[t].0[1] != "startsWith"@[1] || es[t].0[4] != "startsWith"@[4] || es[t].0[es[t].0.len() - 1] != "startsWith"@["startsWith"@.len() - 1]);
    }
    lemma_last_lookup_at(es, 2, "startsWith"@);
    lemma_insert_all_lookup(Seq::<(Seq<char>, FnCallback)>::empty(), es, "startsWith"@);
    assert forall|t: int| 3 < t < es.len() implies #[trigger] es[t].0 != "endsWith"@ by {
        assert(es[t].0.len() != "endsWith"@.len() || es[t].0[0] != "endsWith"@[0] || es[t].0[1] != "endsWith"@[1] || es[t].0[4] != "endsWith"@[4] || es[t].0[es[t].0.len() - 1] != "endsWith"@["endsWith"@.len() - 1]);
    }
    lemma_last_lookup_at(es, 3, "endsWith"@);
    lemma_insert_all_lookup(Seq::<(Seq<char>, FnCallback)>::empty(), es, "endsWith"@);
    assert forall|t: int| 4 < t < es.len() implies #[trigger] es[t].0 != "contains"@ by {
        assert(es[t].0.len() != "contains"@.len() || es[t].0[0] != "contains"@[0] || es[t].0[1] != "contains"@[1] || es[t].0[4] != "contains"@[4] || es[t].0[es[t].0.len() - 1] != "contains"@["contains"@.len() - 1]);
    }
    lemma_last_lookup_at(es, 4, "contains"@);
    lemma_insert_all_lookup(Seq::<(Seq<char>, FnCallback)>::empty(), es, "contains"@);
    assert forall|t: int| 5 < t < es.len() implies #[trigger] es[t].0 != "bool"@ by {
        assert(es[t].0.len() != "bool"@.len() || es[t].0[0] != "bool"@[0] || es[t].0[1] != "bool"@[1] || es[t].0[4] != "bool"@[4] || es[t].0[es[t].0.len() - 1] != "bool"@["bool"@.len() - 1]);
    }
    lemma_last_lookup_at(es, 5, "bool"@);
    lemma_insert_all_lookup(Seq::<(Seq<char>, FnCallback)>::empty(), es, "bool"@);
    assert forall|t: int| 6 < t < es.len() implies #[trigger] es[t].0 != "string"@ by {
        assert(es[t].0.len() != "string"@.len() || es[t].0[0] != "string"@[0] || es[t].0[1] != "string"@[1] || es[t].0[4] != "string"@[4] || es[t].0[es[t].0.len() - 1] != "string"@["string"@.len() - 1]);
    }
    lemma_last_lookup_at(es, 6, "string"@);
    lemma_insert_all_lookup(Seq::<(Seq<char>, FnCallback)>::empty(), es, "string"@);
    assert forall|t: int| 7 < t < es.len() implies #[trigger] es[t].0 != "int"@ by {
        assert(es[t].0.len() != "int"@.len() || es[t].0[0] != "int"@[0] || es[t].0[1] != "int"@[1] || es[t].0[4] != "int"@[4] || es[t].0[es[t].0.len() - 1] != "int"@["int"@.len() - 1]);
    }
    lemma_last_lookup_at(es, 7, "int"@);
    lemma_insert_all_lookup(Seq::<(Seq<char>, FnCallback)>::empty(), es, "int"@);
    assert forall|t: int| 8 < t < es.len() implies #[trigger] es[t].0 != "float"@ by {
        assert(es[t].0.len() != "float"@.len() || es[t].0[0] != "float"@[0] || es[t].0[1] != "float"@[1] || es[t].0[4] != "float"@[4] || es[t].0[es[t].0.len() - 1] != "float"@["float"@.len() - 1]);
    }
    lemma_last_lookup_at(es, 8, "float"@);
    lemma_insert_all_lookup(Seq::<(Seq<char>, FnCallback)>::empty(), es, "float"@);
    assert forall|t: int| 9 < t < es.len() implies #[trigger] es[t].0 != "base64Encode"@ by {
        assert(es[t].0.len() != "base64Encode"@.len() || es[t].0[0] != "base64Encode"@[0] || es[t].0[1] != "base64Encode"@[1] || es[t].0[4] != "base64Encode"@[4] || es[t].0[es[t].0.len() - 1] != "base64Encode"@["base64Encode"@.len() - 1] || es[t].0[6] != "base64Encode"@[6]);
    }
    lemma_last_lookup_at(es, 9, "base64Encode"@);
    lemma_insert_all_lookup(Seq::<(Seq<char>, FnCallback)>::empty(), es, "base64Encode"@);
    assert forall|t: int| 10 < t < es.len() implies #[trigger] es[t].0 != "base64Decode"@ by {
        assert(es[t].0.len() != "base64Decode"@.len() || es[t].0[0] != "base64Decode"@[0] || es[t].0[1] != "base64Decode"@[1] || es[t].0[4] != "base64Decode"@[4] || es[t].0[es[t].0.len() - 1] != "base64Decode"@["base64Decode"@.len() - 1] || es[t].0[6] != "base64Decode"@[6]);
    }
    lemma_last_lookup_at(es, 10, "base64Decode"@);
    lemma_insert_all_lookup(Seq::<(Seq<char>, FnCallback)>::empty(), es, "base64Decode"@);
    assert forall|t: int| 11 < t < es.len() implies #[trigger] es[t].0 != "replace"@ by {
        assert(es[t].0.len() != "replace"@.len() || es[t].0[0] != "replace"@[0] || es[t].0[1] != "replace"@[1] || es[t].0[4] != "replace"@[4] || es[t].0[es[t].0.len() - 1] != "replace"@["replace"@.len() - 1]);
    }
    lemma_last_lookup_at(es, 11, "replace"@);
    lemma_insert_all_lookup(Seq::<(Seq<char>, FnCallback)>::empty(), es, "replace"@);
    assert forall|t: int| 12 < t < es.len() implies #[trigger] es[t].0 != "format"@ by {
        assert(es[t].0.len() != "format"@.len() || es[t].0[0] != "format"@[0] || es[t].0[1] != "format"@[1] || es[t].0[4] != "format"@[4] || es[t].0[es[t].0.len() - 1] != "format"@["format"@.len() - 1]);
    }
    lemma_last_lookup_at(es, 12, "format"@);
    lemma_insert_all_lookup(Seq::<(Seq<char>, FnCallback)>::empty(), es, "format"@);
    assert forall|t: int| 13 < t < es.len() implies #[trigger] es[t].0 != "join"@ by {
        assert(es[t].0.len() != "join"@.len() || es[t].0[0] != "join"@[0] || es[t].0[1] != "join"@[1] || es[t].0[4] != "join"@[4] || es[t].0[es[t].0.len() - 1] != "join"@["join"@.len() - 1]);
    }
    lemma_last_lookup_at(es, 13, "join"@);
    lemma_insert_all_lookup(Seq::<(Seq<char>, FnCallback)>::empty(), es, "join"@);
    assert forall|t: int| 14 < t < es.len() implies #[trigger] es[t].0 != "split"@ by {
        assert(es[t].0.len() != "split"@.len() || es[t].0[0] != "split"@[0] || es[t].0[1] != "split"@[1] || es[t].0[4] != "split"@[4] || es[t].0[es[t].0.len() - 1] != "split"@["split"@.len() - 1]);
    }
    lemma_last_lookup_at(es, 14, "split"@);
    lemma_insert_all_lookup(Seq::<(Seq<char>, FnCallback)>::empty(), es, "split"@);
}

/// Calling `int` or `float` by name through the default table: `int` gives
/// integers only, and an integer back as it is; `float` gives floats only,
/// and a float back as it is.
pub proof fn law_int_and_float_by_name(args: Seq<SValue>, env: SEnv, fs: FloatSpec, i: i64, b: u64)
    requires
        env.vtable == default_table(),
    ensures
        call_spec("int"@, args, env, builtin_oracle(fs)) matches Outcome::Val(w) ==> w is Int,
        call_spec("float"@, args, env, builtin_oracle(fs)) matches Outcome::Val(w) ==> w is Float,
        call_spec("int"@, seq![SValue::Int(i)], env, builtin_oracle(fs)) == Outcome::Val(SValue::Int(i)),
        call_spec("float"@, seq![SValue::Float(b)], env, builtin_oracle(fs)) == Outcome::Val(SValue::Float(b)),
{
    law_default_table_names();
}

} // verus!
