use sosaku::errors::{ErrorKind, ParseError};
use sosaku::exp::{Exp, FunctionItem};
use sosaku::float::FloatSupport;
use sosaku::lexer::{p_literal_exec, p_var_exec};
use sosaku::parser::{parse_atom, parse_comp, parse_exp, parse_fn, parse_neg};
use sosaku::value::Value;
use sosaku::var::{VarAccess, VarName};

fn floats() -> FloatSupport<
    impl Fn(&str) -> Option<u64>,
    impl Fn(u64) -> String,
    impl Fn(u64) -> String,
    impl Fn(i64) -> u64,
> {
    FloatSupport {
        parse: |s: &str| s.parse::<f64>().ok().map(f64::to_bits),
        text: |b: u64| f64::from_bits(b).to_string(),
        debug: |b: u64| format!("{:?}", f64::from_bits(b)),
        from_i64: |i: i64| (i as f64).to_bits(),
    }
}

fn chars(text: &str) -> Vec<char> {
    text.chars().collect()
}

fn int_lit(i: i64) -> Exp {
    Exp::literal(Value::Int(i))
}

fn boolean(b: bool) -> Exp {
    Exp::literal(Value::Bool(b))
}

fn string(text: &str) -> Exp {
    Exp::literal(Value::String(text.to_string()))
}

fn var(text: &str) -> Exp {
    Exp::varname(text).unwrap().unwrap()
}

/// Parses the whole text with `f`, which must read all of it.
fn whole(
    f: fn(&Vec<char>, usize, &FloatSupport<
        Box<dyn Fn(&str) -> Option<u64>>,
        Box<dyn Fn(u64) -> String>,
        Box<dyn Fn(u64) -> String>,
        Box<dyn Fn(i64) -> u64>,
    >) -> Result<(Exp, usize), sosaku::lexer::ParseFail>,
    text: &str,
) -> Option<Exp> {
    let fs: FloatSupport<
        Box<dyn Fn(&str) -> Option<u64>>,
        Box<dyn Fn(u64) -> String>,
        Box<dyn Fn(u64) -> String>,
        Box<dyn Fn(i64) -> u64>,
    > = FloatSupport {
        parse: Box::new(|s: &str| s.parse::<f64>().ok().map(f64::to_bits)),
        text: Box::new(|b: u64| f64::from_bits(b).to_string()),
        debug: Box::new(|b: u64| format!("{:?}", f64::from_bits(b))),
        from_i64: Box::new(|i: i64| (i as f64).to_bits()),
    };
    let s = chars(text);
    match f(&s, 0, &fs) {
        Ok((e, j)) if j == s.len() => Some(e),
        _ => None,
    }
}

fn atom(text: &str) -> Option<Exp> {
    whole(parse_atom, text)
}

fn exp(text: &str) -> Option<Exp> {
    whole(parse_exp, text)
}

fn call(text: &str) -> Option<FunctionItem> {
    match whole(parse_fn, text) {
        Some(Exp::FnCall(f)) => Some(f),
        _ => None,
    }
}

#[test]
fn test_atom() {
    assert_eq!(atom("123"), Some(int_lit(123)));
    assert_eq!(atom("-123  "), Some(int_lit(-123)));
    assert_eq!(atom("123.456  "), Some(Exp::literal(Value::Float(123.456f64.to_bits()))));
    assert_eq!(atom("-123.456  "), Some(Exp::literal(Value::Float((-123.456f64).to_bits()))));
    assert_eq!(atom("true  "), Some(boolean(true)));
    assert_eq!(atom("false  "), Some(boolean(false)));
    assert_eq!(atom("abc"), Some(var("abc")));
    assert_eq!(atom("'hello\\' world'    "), Some(string("hello' world")));
    assert_eq!(atom("null "), Some(Exp::literal(Value::Null)));
}

#[test]
fn parser_test_var_access() {
    let s = chars("foo.bar[ 0 ].baz");
    let (v, j) = p_var_exec(&s, 0).unwrap();
    assert_eq!(j, s.len());
    assert_eq!(
        v,
        VarAccess::new(vec![
            VarName::new("foo", None),
            VarName::new("bar", Some(0)),
            VarName::new("baz", None),
        ])
    );
    let s = chars("foo1.bar2[3].baz4");
    let (v, j) = p_var_exec(&s, 0).unwrap();
    assert_eq!(j, s.len());
    assert_eq!(
        v,
        VarAccess::new(vec![
            VarName::new("foo1", None),
            VarName::new("bar2", Some(3)),
            VarName::new("baz4", None),
        ])
    );
    let s = chars("foo.0bar");
    assert!(p_var_exec(&s, 0).is_err());
}

#[test]
fn test_neg() {
    assert_eq!(whole(parse_neg, "!123"), Some(Exp::neg(int_lit(123))));
    assert_eq!(whole(parse_neg, "!true"), Some(Exp::neg(boolean(true))));
    assert_eq!(whole(parse_neg, "!false"), Some(Exp::neg(boolean(false))));
    assert_eq!(whole(parse_neg, "!abc"), Some(Exp::neg(var("abc"))));
}

#[test]
fn test_comp() {
    assert_eq!(whole(parse_comp, "123 > 456"), Some(Exp::gt(int_lit(123), int_lit(456))));
    assert_eq!(whole(parse_comp, "123 < 456"), Some(Exp::lt(int_lit(123), int_lit(456))));
    assert_eq!(whole(parse_comp, "123 >= 456"), Some(Exp::geq(int_lit(123), int_lit(456))));
    assert_eq!(whole(parse_comp, "123 <= 456"), Some(Exp::leq(int_lit(123), int_lit(456))));
}

#[test]
fn test_eq() {
    assert_eq!(exp("1 == 2"), Some(Exp::eq(int_lit(1), int_lit(2))));
    let fs = floats();
    assert!(parse_exp(&chars("1 == 2 == 3"), 0, &fs).is_err());
}

#[test]
fn test_neq() {
    assert_eq!(exp("1 != 2"), Some(Exp::neq(int_lit(1), int_lit(2))));
    let fs = floats();
    assert!(parse_exp(&chars("1 != 2 != 3"), 0, &fs).is_err());
}

#[test]
fn test_and() {
    assert_eq!(exp("true && false"), Some(Exp::and(boolean(true), boolean(false))));
    assert_eq!(
        exp("true && false && true"),
        Some(Exp::and(Exp::and(boolean(true), boolean(false)), boolean(true)))
    );
}

#[test]
fn test_and_or_precedence() {
    assert_eq!(
        exp("true || false && false"),
        Some(Exp::or(boolean(true), Exp::and(boolean(false), boolean(false))))
    );
}

#[test]
fn test_or() {
    assert_eq!(exp("true || false"), Some(Exp::or(boolean(true), boolean(false))));
    assert_eq!(
        exp("true || false || true"),
        Some(Exp::or(Exp::or(boolean(true), boolean(false)), boolean(true)))
    );
}

#[test]
fn test_parens() {
    assert_eq!(
        exp("(true || false) && true"),
        Some(Exp::and(Exp::or(boolean(true), boolean(false)), boolean(true)))
    );
}

#[test]
fn test_variable_names() {
    assert_eq!(exp("foo"), Some(var("foo")));
    assert_eq!(exp("foo||bar"), Some(Exp::or(var("foo"), var("bar"))));
    assert_eq!(exp("foo    && bar"), Some(Exp::and(var("foo"), var("bar"))));
}

#[test]
fn test_crazy_nested() {
    assert_eq!(
        exp("!(1 > 2) && (3 <= 4 || 5 != 6)"),
        Some(Exp::and(
            Exp::neg(Exp::gt(int_lit(1), int_lit(2))),
            Exp::or(Exp::leq(int_lit(3), int_lit(4)), Exp::neq(int_lit(5), int_lit(6)))
        ))
    );
}

#[test]
fn test_crazy_nested_fn() {
    assert_eq!(
        exp("!startsWith('hello') && (3 <= 4 || 5 != 6)"),
        Some(Exp::and(
            Exp::neg(Exp::fn_call(FunctionItem::new("startsWith", vec![string("hello")]))),
            Exp::or(Exp::leq(int_lit(3), int_lit(4)), Exp::neq(int_lit(5), int_lit(6)))
        ))
    );
}

#[test]
fn test_string_literal() {
    let fs = floats();
    let cases = [
        ("'hello world'", "hello world"),
        ("\"hello world\"", "hello world"),
        ("'hello \\'world\\''", "hello 'world'"),
        ("\"hello \\\"world\\\"\"", "hello \"world\""),
    ];
    for (text, expected) in cases {
        let s = chars(text);
        let (v, j) = p_literal_exec(&s, 0, &fs).unwrap();
        assert_eq!(j, s.len());
        assert_eq!(v, Value::String(expected.to_string()));
    }
}

#[test]
fn test_fn_parser() {
    let f = call("startsWith('hello')").expect("Failed to parse matcher function");
    assert_eq!(f.name(), "startsWith");
    assert_eq!(f.args(), vec![string("hello")]);
}

#[test]
fn test_fn_parser_noargs() {
    let f = call("isEmpty()").expect("Failed to parse matcher function");
    assert_eq!(f.name(), "isEmpty");
    assert_eq!(f.args(), vec![]);
}

#[test]
fn test_fn_parser_doublequote() {
    let f = call("startsWith(\"hello\")").expect("Failed to parse matcher function");
    assert_eq!(f.name(), "startsWith");
    assert_eq!(f.args(), vec![string("hello")]);
}

#[test]
fn test_fn_parser_multiple_args() {
    let f = call("between(1, 10)").expect("Failed to parse matcher function");
    assert_eq!(f.name(), "between");
    assert_eq!(f.args(), vec![int_lit(1), int_lit(10)]);
}

#[test]
fn test_fn_parser_trailing_comma() {
    let f = call("between(1, 10,)").expect("Failed to parse matcher function");
    assert_eq!(f.name(), "between");
    assert_eq!(f.args(), vec![int_lit(1), int_lit(10)]);
}

#[test]
fn test_fn_parser_nested_args() {
    let f = call("between(length('hello'), 10)").expect("Failed to parse matcher function");
    assert_eq!(f.name(), "between");
    assert_eq!(
        f.args(),
        vec![Exp::fn_call(FunctionItem::new("length", vec![string("hello")])), int_lit(10)]
    );
}

#[test]
fn test_whitespace_between_fn_and_parentheses() {
    let f = call("startsWith   (  'hello'  )").expect("Failed to parse matcher function");
    assert_eq!(f.name(), "startsWith");
    assert_eq!(f.args(), vec![string("hello")]);
}

#[test]
fn test_missing_parentheses() {
    let fs = floats();
    assert!(parse_fn(&chars("startsWith'hello')"), 0, &fs).is_err());
}

#[test]
fn test_missing_quotes() {
    let fs = floats();
    assert!(parse_fn(&chars("startsWith('hello)"), 0, &fs).is_err());
}

#[test]
fn test_empty_value() {
    let f = call("startsWith('')").expect("Failed to parse matcher function");
    assert_eq!(f.name(), "startsWith");
    assert_eq!(f.args(), vec![string("")]);
}

#[test]
fn new_reports_the_unparsed_rest() {
    let fs = floats();
    assert_eq!(
        Exp::new("1 == 2 == 3", &fs).unwrap(),
        Err(ParseError { input: "".to_string(), code: ErrorKind::Count })
    );
    assert_eq!(
        Exp::new("x y", &fs).unwrap(),
        Err(ParseError { input: "y".to_string(), code: ErrorKind::Eof })
    );
    assert_eq!(Exp::new("x   ", &fs).unwrap(), Ok(var("x")));
}

#[test]
fn arrays_and_objects_parse() {
    assert_eq!(exp("[1, 'a']"), Some(Exp::array(vec![int_lit(1), string("a")])));
    assert_eq!(
        exp("{\"b\": 1, \"a\": 2}"),
        Some(Exp::object(vec![("a".to_string(), int_lit(2)), ("b".to_string(), int_lit(1))]))
    );
}

#[test]
fn var_access_parse_and_text_round_trip() {
    let v = VarAccess::parse("foo.bar[2].baz").unwrap().unwrap();
    assert_eq!(v.to_string(), "foo.bar[2].baz");
    assert!(VarAccess::parse("").unwrap().is_err());
}
