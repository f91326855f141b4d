use sosaku::cli::parse_var_arg;
use sosaku::env::{Env, EnvBuilder};
use sosaku::errors::{Error, ErrorKind, EvalError, FnCallError, ParseError, VarAccessError};
use sosaku::value::Value;
use sosaku::var::VarAccess;

fn obj(entries: Vec<(&str, Value)>) -> Value {
    Value::object_from(entries.into_iter().map(|(k, v)| (k.to_string(), v)).collect())
}

fn bar() -> Value {
    Value::Array(vec![obj(vec![("baz", Value::Int(42))]), obj(vec![("baz", Value::Int(43))])])
}

fn test_value_1() -> Value {
    obj(vec![("foo", obj(vec![("bar", bar())]))])
}

fn test_value_2() -> Value {
    obj(vec![
        ("foo", obj(vec![("bar", bar())])),
        ("arr", Value::Array(vec![Value::Int(1), Value::Int(2), Value::Int(3)])),
        ("null_value", Value::Null),
        ("string_value", Value::String("hello".to_string())),
        ("bool_value", Value::Bool(true)),
        ("float_value", Value::Float(3.145f64.to_bits())),
    ])
}

fn access(text: &str) -> VarAccess {
    VarAccess::parse(text).unwrap().unwrap()
}

fn check_access() {
    let result = access("foo.bar[0].baz").access(&test_value_1());
    assert_eq!(result, Ok(Value::Int(42)));
}

fn check_access_from_bindings() {
    let v1 = test_value_1();
    let v2 = test_value_2();
    let mut b: EnvBuilder = Env::new();
    b.bind_ref("test", &v1).bind_ref("other", &v2);
    let env = b.build();
    let result = access("test.foo.bar[1].baz").access_from_bindings(env.bindings());
    assert_eq!(result, Ok(Value::Int(43)));
    let result = access("other.arr[1]").access_from_bindings(env.bindings());
    assert_eq!(result, Ok(Value::Int(2)));
}

#[test]
fn types_test_var_access() {
    check_access();
}

#[test]
fn types_test_var_access_from_bindings() {
    check_access_from_bindings();
}

#[test]
fn var_test_var_access() {
    check_access();
}

#[test]
fn var_test_var_access_from_bindings() {
    check_access_from_bindings();
}

#[test]
fn access_errors() {
    let v = test_value_2();
    assert_eq!(
        access("nope").access_from_bindings(&vec![("x".to_string(), Value::Int(1))]),
        Err(VarAccessError::VariableNotFound { variable: "nope".to_string() })
    );
    assert!(matches!(access("arr[9]").access(&v), Err(VarAccessError::IndexOutOfBounds { .. })));
    assert!(matches!(access("x.arr[9]").access(&obj(vec![("arr", Value::Int(1))])), Err(_)));
    assert_eq!(
        access("arr[0].y").access(&v),
        Err(VarAccessError::TypeError { message: "Expected object at 'y', received int".to_string() })
    );
}

#[test]
fn field_of_a_number_is_a_type_error() {
    let v = obj(vec![("x", Value::Int(5))]);
    assert_eq!(
        access("x.y").access(&v),
        Err(VarAccessError::TypeError { message: "Expected object at 'y', received int".to_string() })
    );
    assert_eq!(
        access("x.y").access_from_bindings(&vec![("x".to_string(), Value::Int(5))]),
        Err(VarAccessError::TypeError { message: "Expected object at 'y', received int".to_string() })
    );
}

#[test]
fn an_index_is_applied_once() {
    let nested = Value::Array(vec![
        Value::Array(vec![Value::Int(1), Value::Int(2)]),
        Value::Array(vec![Value::Int(3)]),
    ]);
    let v = obj(vec![("a", nested.copy())]);
    assert_eq!(access("a[0]").access(&v), Ok(Value::Array(vec![Value::Int(1), Value::Int(2)])));
    assert_eq!(
        access("a[1]").access_from_bindings(&vec![("a".to_string(), nested)]),
        Ok(Value::Array(vec![Value::Int(3)]))
    );
    assert_eq!(
        access("a[0]").access(&obj(vec![("a", Value::Int(1))])),
        Err(VarAccessError::TypeError { message: "Expected array at 'a', received int".to_string() })
    );
}

#[test]
fn bind_then_get_gives_the_last_value_bound() {
    let mut b: EnvBuilder = Env::new();
    b.bind("a", Value::Int(1)).bind("b", Value::Int(2)).bind("a", Value::Int(3));
    assert_eq!(b.get_binding("a"), Some(&Value::Int(3)));
    assert_eq!(b.get_binding("b"), Some(&Value::Int(2)));
    assert!(b.is_bound("b"));
    assert!(!b.is_bound("c"));
    let env = b.build();
    assert_eq!(env.bindings().len(), 2);
}

#[test]
fn bind_multiple_binds_each_pair_in_turn() {
    let mut b: EnvBuilder = Env::new();
    b.bind_multiple(vec![
        ("k".to_string(), Value::Int(1)),
        ("j".to_string(), Value::Null),
        ("k".to_string(), Value::Int(5)),
    ]);
    assert_eq!(b.get_binding("k"), Some(&Value::Int(5)));
    assert_eq!(b.get_binding("j"), Some(&Value::Null));
}

#[test]
fn var_arguments_split_at_the_first_equals_sign() {
    assert_eq!(parse_var_arg(" test = {\"a\": 1} "), Ok(("test".to_string(), "{\"a\": 1}".to_string())));
    assert_eq!(parse_var_arg("a=b=c"), Ok(("a".to_string(), "b=c".to_string())));
    assert_eq!(parse_var_arg("novalue"), Err("Missing variable value".to_string()));
    assert_eq!(parse_var_arg("=\t"), Ok(("".to_string(), "".to_string())));
}

#[test]
fn bind_ref_multiple_copies_each_value() {
    let vars = vec![("p".to_string(), Value::Int(7)), ("q".to_string(), Value::Bool(false))];
    let mut b: EnvBuilder = Env::new();
    b.bind_ref_multiple(&vars);
    assert_eq!(b.get_binding("p"), Some(&Value::Int(7)));
    assert_eq!(b.get_binding("q"), Some(&Value::Bool(false)));
    assert_eq!(vars.len(), 2);
}

#[test]
fn error_conversions_wrap_without_change() {
    use_error_conversions();
}

fn use_error_conversions() {
    let v = VarAccessError::EmptyAccess;
    assert_eq!(EvalError::from_var_access(v), EvalError::VarAccess(VarAccessError::EmptyAccess));
    let f = FnCallError { fn_name: "f".to_string(), reason: Box::new(EvalError::CallSyncinAsync) };
    assert!(matches!(EvalError::from_fn_call(f), EvalError::FnCallError(_)));
    assert_eq!(Error::from_eval(EvalError::CallSyncinAsync), Error::Eval(EvalError::CallSyncinAsync));
    let p = ParseError { input: String::new(), code: ErrorKind::Eof };
    assert!(matches!(Error::from_parse(p), Error::Parse(_)));
}

#[test]
fn var_access_text_reads_back_as_the_access() {
    let v = VarAccess::new(vec![
        sosaku::var::VarName::new("a1", None),
        sosaku::var::VarName::new("B", Some(10)),
        sosaku::var::VarName::new("c", Some(0)),
    ]);
    let text = v.to_string();
    assert_eq!(text, "a1.B[10].c[0]");
    assert_eq!(VarAccess::parse(&text).unwrap(), Ok(v));
}
