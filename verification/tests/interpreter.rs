use sosaku::env::{Env, EnvBuilder};
use sosaku::errors::{EvalError, FnCallError, VarAccessError};
use sosaku::exp::{Exp, FunctionItem};
use sosaku::float::FloatSupport;
use sosaku::functions::{FnCallback, default_vtable};
use sosaku::value::Value;
use sosaku::interpreter::{Machine, Step};

fn floats() -> FloatSupport<
    impl Fn(&str) -> Option<u64>,
    impl Fn(u64) -> String,
    impl Fn(u64) -> String,
    impl Fn(i64) -> u64,
> {
    FloatSupport {
        parse: |s: &str| s.parse::<f64>().ok().map(f64::to_bits),
        text: |b: u64| f64::from_bits(b).to_string(),
        debug: |b: u64| format!("{:?}", f64::from_bits(b)),
        from_i64: |i: i64| (i as f64).to_bits(),
    }
}

fn no_host(_id: u64, _args: &Vec<Value>) -> Result<Value, EvalError> {
    Err(EvalError::ValueError { message: "no host".to_string() })
}

fn s(text: &str) -> Value {
    Value::String(text.to_string())
}

fn test_env() -> Env {
    let nested = Value::Array(vec![Value::Int(1), Value::Int(2), Value::Int(3)]);
    let qux = Value::object_from(vec![("nested".to_string(), nested)]);
    let foo = Value::object_from(vec![
        ("bar".to_string(), Value::Int(123)),
        ("baz".to_string(), s("world")),
        ("qux".to_string(), qux),
    ]);
    let mut b: EnvBuilder = Env::new();
    b.bind("x", Value::Int(42)).bind("y", s("hello")).bind("z", Value::Bool(true)).bind("foo", foo);
    b.build()
}

fn eval_text(text: &str, env: &Env) -> Result<Value, EvalError> {
    let fs = floats();
    let exp = Exp::new(text, &fs).unwrap().unwrap();
    exp.eval(env, &fs, &no_host).unwrap()
}

fn eval_exp(exp: &Exp, env: &Env) -> Result<Value, EvalError> {
    exp.eval(env, &floats(), &no_host).unwrap()
}

fn var(text: &str) -> Exp {
    Exp::varname(text).unwrap().unwrap()
}

#[test]
fn interpreter_test_exps() {
    let env = test_env();
    let cases: Vec<(&str, Result<Value, EvalError>)> = vec![
        (r#"startsWith(y, "hel") && z && foo.bar > 100"#, Ok(Value::Bool(true))),
        (r#"len(y) == 5 && foo.baz == "world""#, Ok(Value::Bool(true))),
        (r#"matches(y, "^h.*o$") && foo.qux.nested[1] == 2"#, Ok(Value::Bool(true))),
        ("!false", Ok(Value::Bool(true))),
        ("!x", Ok(Value::Bool(false))),
        ("!y", Ok(Value::Bool(false))),
        (r#""" || z"#, Ok(Value::Bool(true))),
        ("0 || z", Ok(Value::Bool(true))),
        ("z && x", Ok(Value::Int(42))),
        ("z || x", Ok(Value::Bool(true))),
        ("false && unknownVar", Ok(Value::Bool(false))),
        ("z || unknownVar", Ok(Value::Bool(true))),
        ("x == y", Ok(Value::Bool(false))),
        ("x != z", Ok(Value::Bool(true))),
        ("x >= 42", Ok(Value::Bool(true))),
        ("x <= 42", Ok(Value::Bool(true))),
        ("foo.qux.nested[0] < foo.qux.nested[2]", Ok(Value::Bool(true))),
        ("foo.qux.nested == [1, 2, 3]", Ok(Value::Bool(true))),
        (
            "foo == {\"baz\": \"world\", \"bar\": 123, \"qux\": {\"nested\": [1, 2, 3]}}",
            Ok(Value::Bool(true)),
        ),
        (r#"endsWith(y, "lo")"#, Ok(Value::Bool(true))),
        (r#"contains(y, "ell")"#, Ok(Value::Bool(true))),
        (r#"contains(y, "xyz")"#, Ok(Value::Bool(false))),
        ("contains(foo.qux.nested, 2)", Ok(Value::Bool(true))),
        ("contains(foo.qux.nested, 42)", Ok(Value::Bool(false))),
        (r#"contains(foo, "bar")"#, Ok(Value::Bool(true))),
        (r#"contains(foo, "nonexistent")"#, Ok(Value::Bool(false))),
        (r#"!matches(y, "^w")"#, Ok(Value::Bool(true))),
        (r#""hello" == y"#, Ok(Value::Bool(true))),
        ("false || false", Ok(Value::Bool(false))),
        (
            "x > y",
            Err(EvalError::TypeError {
                message: "Cannot compare values of different types: int and string".to_string(),
            }),
        ),
        (
            "unknownFunc()",
            Err(EvalError::FunctionNotFound { fn_name: "unknownFunc".to_string() }),
        ),
        (
            "unknownVar",
            Err(EvalError::VarAccess(VarAccessError::VariableNotFound {
                variable: "unknownVar".to_string(),
            })),
        ),
        (
            "len(42)",
            Err(EvalError::FnCallError(FnCallError {
                fn_name: "len".to_string(),
                reason: Box::new(EvalError::TypeError {
                    message: "Expected a string, array, or object, got: 'int'".to_string(),
                }),
            })),
        ),
    ];
    for (text, expected) in cases {
        println!("Testing expression: {text}");
        assert_eq!(eval_text(text, &env), expected);
    }
}

#[test]
fn interpreter_test_eval_literal() {
    let env = test_env();
    let exp = Exp::literal(Value::Int(42));
    assert_eq!(eval_exp(&exp, &env), Ok(Value::Int(42)));
}

#[test]
fn interpreter_test_eval_var() {
    let env = test_env();
    assert_eq!(eval_exp(&var("x"), &env), Ok(Value::Int(42)));
    assert_eq!(eval_exp(&var("y"), &env), Ok(s("hello")));
    assert_eq!(eval_exp(&var("foo.qux.nested[1]"), &env), Ok(Value::Int(2)));
}

#[test]
fn interpreter_test_eval_fncall() {
    let env = test_env();
    let exp = Exp::fn_call(FunctionItem::new("len", vec![var("y")]));
    assert_eq!(eval_exp(&exp, &env), Ok(Value::Int(5)));
}

#[test]
fn interpreter_test_eval_neg() {
    let env = test_env();
    let exp = Exp::neg(var("z"));
    assert_eq!(eval_exp(&exp, &env), Ok(Value::Bool(false)));
}

#[test]
fn interpreter_test_eval_and_or() {
    let env = test_env();
    let exp = Exp::and(var("z"), var("x"));
    assert_eq!(eval_exp(&exp, &env), Ok(Value::Int(42)));
    let exp = Exp::or(var("z"), var("x"));
    assert_eq!(eval_exp(&exp, &env), Ok(Value::Bool(true)));
}

#[test]
fn interpreter_test_eval_eq_neq() {
    let env = test_env();
    let exp = Exp::eq(var("x"), Exp::literal(Value::Int(42)));
    assert_eq!(eval_exp(&exp, &env), Ok(Value::Bool(true)));
    let exp = Exp::neq(var("x"), Exp::literal(Value::Int(42)));
    assert_eq!(eval_exp(&exp, &env), Ok(Value::Bool(false)));
}

#[test]
fn test_eval_fncall_async_in_sync() {
    let mut vtable = default_vtable();
    vtable.insert("asyncFunc", FnCallback::new_async(7));
    let mut b: EnvBuilder = Env::new();
    b.use_vtable(vtable).bind("x", Value::Int(42));
    let env = b.build();
    let exp = Exp::fn_call(FunctionItem::new("asyncFunc", vec![]));
    assert_eq!(
        eval_exp(&exp, &env),
        Err(EvalError::FnCallError(FnCallError {
            fn_name: "asyncFunc".to_string(),
            reason: Box::new(EvalError::CallSyncinAsync),
        }))
    );
}

#[test]
fn sync_host_callback_is_called_with_its_arguments() {
    let mut vtable = default_vtable();
    vtable.insert("twice", FnCallback::new_sync(3));
    let mut b: EnvBuilder = Env::new();
    b.use_vtable(vtable).bind("x", Value::Int(21));
    let env = b.build();
    let host = |id: u64, args: &Vec<Value>| -> Result<Value, EvalError> {
        match (id, args.as_slice()) {
            (3, [Value::Int(i)]) => Ok(Value::Int(i * 2)),
            _ => Err(EvalError::ValueError { message: "bad call".to_string() }),
        }
    };
    let fs = floats();
    let exp = Exp::new("twice(x) == 42", &fs).unwrap().unwrap();
    assert_eq!(exp.eval(&env, &fs, &host).unwrap(), Ok(Value::Bool(true)));
    let exp = Exp::new("twice()", &fs).unwrap().unwrap();
    assert_eq!(
        exp.eval(&env, &fs, &host).unwrap(),
        Err(EvalError::FnCallError(FnCallError {
            fn_name: "twice".to_string(),
            reason: Box::new(EvalError::ValueError { message: "bad call".to_string() }),
        }))
    );
}

#[test]
fn short_circuit_skips_the_right_operand() {
    let env = test_env();
    assert_eq!(eval_text("0 && unknownFunc()", &env), Ok(Value::Bool(false)));
    assert_eq!(eval_text("1 || unknownFunc()", &env), Ok(Value::Int(1)));
    assert_eq!(
        eval_text("1 && unknownFunc()", &env),
        Err(EvalError::FunctionNotFound { fn_name: "unknownFunc".to_string() })
    );
}

#[test]
fn comparisons_of_mismatched_types_fail_but_equality_does_not() {
    let env = test_env();
    assert_eq!(eval_text("y == 5", &env), Ok(Value::Bool(false)));
    assert_eq!(eval_text("y != 5", &env), Ok(Value::Bool(true)));
    assert_eq!(
        eval_text("z < 1", &env),
        Err(EvalError::TypeError {
            message: "Cannot compare values of different types: bool and int".to_string(),
        })
    );
}

#[test]
fn literals_arrays_and_objects_evaluate_to_values() {
    let env = test_env();
    assert_eq!(
        eval_text("[x, \"a\", null]", &env),
        Ok(Value::Array(vec![Value::Int(42), s("a"), Value::Null]))
    );
    assert_eq!(
        eval_text("{\"b\": 1, \"a\": z}", &env),
        Ok(Value::object_from(vec![
            ("a".to_string(), Value::Bool(true)),
            ("b".to_string(), Value::Int(1)),
        ]))
    );
    assert_eq!(eval_text("1.5 < 2.5", &env), Ok(Value::Bool(true)));
    assert_eq!(
        eval_text("\"abc\" < \"abd\"", &env),
        Err(EvalError::TypeError {
            message: "Cannot compare values of different types: string and string".to_string(),
        })
    );
}

#[test]
fn variable_access_errors_are_reported() {
    let env = test_env();
    assert!(matches!(
        eval_text("foo.qux.nested[5]", &env),
        Err(EvalError::VarAccess(VarAccessError::IndexOutOfBounds { .. }))
    ));
    assert!(matches!(
        eval_text("foo.missing", &env),
        Err(EvalError::VarAccess(VarAccessError::VariableNotFound { .. }))
    ));
}

#[test]
fn object_entry_order_does_not_matter() {
    let a = Value::object_from(vec![
        ("k".to_string(), Value::Int(1)),
        ("a".to_string(), Value::Null),
        ("z".to_string(), s("q")),
    ]);
    let b = Value::object_from(vec![
        ("z".to_string(), s("q")),
        ("k".to_string(), Value::Int(1)),
        ("a".to_string(), Value::Null),
    ]);
    assert_eq!(a, b);
    let env = test_env();
    assert_eq!(
        eval_text("{\"k\": 1, \"a\": null} == {\"a\": null, \"k\": 1}", &env),
        Ok(Value::Bool(true))
    );
    let dup_first = Value::object_from(vec![("a".to_string(), Value::Int(1)), ("a".to_string(), Value::Int(2))]);
    assert_eq!(dup_first, Value::object_from(vec![("a".to_string(), Value::Int(2))]));
}

#[test]
fn readme_examples_evaluate_to_true() {
    let test = Value::object_from(vec![
        ("var".to_string(), Value::Int(5)),
        ("var2".to_string(), s("hello world")),
        (
            "nested".to_string(),
            Value::object_from(vec![(
                "var3".to_string(),
                Value::Array(vec![Value::Int(1), Value::Int(2), Value::Int(3)]),
            )]),
        ),
    ]);
    let mut b: EnvBuilder = Env::new();
    b.bind_ref("test", &test);
    let env = b.build();
    assert_eq!(
        eval_text("test.var == 5 && startsWith(test.var2, 'hello')", &env),
        Ok(Value::Bool(true))
    );
    assert_eq!(
        eval_text("test.var == 5 && startsWith(test.var2, 'hello') && test.nested.var3[1] == 2", &env),
        Ok(Value::Bool(true))
    );
    let fs = floats();
    assert_eq!(Value::Bool(true).display(&fs), Some("true".to_string()));
}

#[test]
fn machine_hands_out_calls_and_takes_answers_back() {

    let mut vtable = default_vtable();
    vtable.insert("asyncFunc", FnCallback::new_async(9));
    let mut b: EnvBuilder = Env::new();
    b.use_vtable(vtable).bind("x", Value::Int(42));
    let env = b.build();
    let exp = Exp::fn_call(FunctionItem::new("asyncFunc", vec![var("x")]));
    let mut m = Machine::new(&exp);
    let mut calls = 0;
    let result = loop {
        match m.step(&env) {
            Step::Continue => {},
            Step::Done(r) => break r,
            Step::Call { callback, name, args } => {
                calls += 1;
                assert_eq!(callback, FnCallback::Async(9));
                assert_eq!(name, "asyncFunc");
                assert_eq!(args, vec![Value::Int(42)]);
                assert_eq!(m.resume(&name, Ok(s("async result"))), None);
            },
        }
    };
    assert_eq!(calls, 1);
    assert_eq!(result, Ok(s("async result")));
}

#[test]
fn items_run_first_to_last_and_entries_last_to_first() {
    let env = test_env();
    let missing = |name: &str| {
        Err(EvalError::VarAccess(VarAccessError::VariableNotFound { variable: name.to_string() }))
    };
    assert_eq!(eval_text("[unknownA, unknownB]", &env), missing("unknownA"));
    assert_eq!(eval_text("[x, unknownB, unknownC]", &env), missing("unknownB"));
    // An object's entries are held in the order of their keys and run from
    // the last key to the first.
    assert_eq!(eval_text("{\"z\": unknownA, \"a\": unknownB}", &env), missing("unknownA"));
    assert_eq!(eval_text("{\"a\": 1, \"b\": unknownB, \"c\": unknownC}", &env), missing("unknownC"));
    assert_eq!(eval_text("{\"a\": unknownA, \"b\": unknownB}", &env), missing("unknownB"));
}

#[test]
fn a_host_that_answers_each_call_anew_is_not_reached_where_no_call_names_it() {
    let mut table = default_vtable();
    table.insert("next", FnCallback::Sync(7));
    let mut b: EnvBuilder = Env::new();
    b.bind("x", Value::Int(3)).use_vtable(table);
    let env = b.build();
    let fs = floats();
    let count = std::cell::Cell::new(0i64);
    let host = |_id: u64, _args: &Vec<Value>| -> Result<Value, EvalError> {
        count.set(count.get() + 1);
        Ok(Value::Int(count.get()))
    };
    let exp = Exp::new("len(\"ab\") == 2 && x > 1", &fs).unwrap().unwrap();
    assert_eq!(exp.eval(&env, &fs, &host).unwrap(), Ok(Value::Bool(true)));
    assert_eq!(count.get(), 0);
    let called = Exp::new("next() == next()", &fs).unwrap().unwrap();
    assert_eq!(called.eval(&env, &fs, &host).unwrap(), Ok(Value::Bool(false)));
    assert_eq!(count.get(), 2);
}
