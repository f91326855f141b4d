use sosaku::builtins::{call_builtin, replace_text, split_text};
use sosaku::display::escape_str_for_json;
use sosaku::errors::EvalError;
use sosaku::float::FloatSupport;
use sosaku::functions::{Builtin, FnCallback, VTable, default_vtable};
use sosaku::value::Value;

fn floats() -> FloatSupport<
    impl Fn(&str) -> Option<u64>,
    impl Fn(u64) -> String,
    impl Fn(u64) -> String,
    impl Fn(i64) -> u64,
> {
    FloatSupport {
        parse: |s: &str| s.parse::<f64>().ok().map(f64::to_bits),
        text: |b: u64| f64::from_bits(b).to_string(),
        debug: |b: u64| format!("{:?}", f64::from_bits(b)),
        from_i64: |i: i64| (i as f64).to_bits(),
    }
}

fn s(text: &str) -> Value {
    Value::String(text.to_string())
}

fn call(b: Builtin, args: Vec<Value>) -> Result<Value, EvalError> {
    call_builtin(b, &args, &floats()).unwrap()
}

#[test]
fn test_format() {
    let args = vec![s("Hello, {0}! You have {1} new messages."), s("Alice"), Value::Int(5)];
    assert_eq!(call(Builtin::Format, args), Ok(s("Hello, Alice! You have 5 new messages.")));
}

#[test]
fn test_format_escaped_braces() {
    let args = vec![s("This is a literal brace: {{0}}. Placeholder: {0}"), s("test")];
    assert_eq!(call(Builtin::Format, args), Ok(s("This is a literal brace: {0}. Placeholder: test")));
}

#[test]
fn test_format_placeholder_oob() {
    let args = vec![s("Invalid placeholder: {123}")];
    assert!(call(Builtin::Format, args).is_err());
}

#[test]
fn format_makes_doubled_braces_single() {
    assert_eq!(call(Builtin::Format, vec![s("a {{b}} c")]), Ok(s("a {b} c")));
    assert_eq!(call(Builtin::Format, vec![s("{{{0}}}"), s("x")]), Ok(s("{x}")));
    assert_eq!(call(Builtin::Format, vec![s("{{0}} and {0}}}"), s("é")]), Ok(s("{0} and é}")));
    assert_eq!(call(Builtin::Format, vec![s("é{0}é"), Value::Int(7)]), Ok(s("é7é")));
    assert_eq!(call(Builtin::Format, vec![s("{ } }")]), Ok(s("{ } }")));
}

#[test]
fn format_errors() {
    assert_eq!(
        call(Builtin::Format, vec![s("{1}"), s("x")]),
        Err(EvalError::ArgumentCount { expected: 2, got: 2 })
    );
    assert_eq!(
        call(Builtin::Format, vec![s("{99999999999999999999999}")]),
        Err(EvalError::ValueError {
            message: "Invalid format placeholder index '99999999999999999999999': number too large to fit in target type"
                .to_string()
        })
    );
    assert_eq!(call(Builtin::Format, vec![]), Err(EvalError::ArgumentCount { expected: 1, got: 0 }));
}

#[test]
fn test_matches() {
    let args = vec![s("hello world"), s(r"^hello\s\w+$")];
    assert_eq!(call(Builtin::Matches, args), Ok(Value::Bool(true)));
}

#[test]
fn test_matches_invalid_regex() {
    let args = vec![s("test"), s(r"invalid(regex")];
    assert!(call(Builtin::Matches, args).is_err());
}

#[test]
fn test_base64_encode_decode() {
    let original = "Hello, world!";
    let encoded = call(Builtin::Base64Encode, vec![s(original)]).unwrap();
    let decoded = call(Builtin::Base64Decode, vec![encoded]).unwrap();
    assert_eq!(decoded, s(original));
}

#[test]
fn test_len() {
    assert_eq!(call(Builtin::Len, vec![s("hello")]), Ok(Value::Int(5)));
    let arr = Value::Array(vec![Value::Int(1), Value::Int(2), Value::Int(3)]);
    assert_eq!(call(Builtin::Len, vec![arr]), Ok(Value::Int(3)));
}

#[test]
fn test_contains() {
    assert_eq!(call(Builtin::Contains, vec![s("hello world"), s("world")]), Ok(Value::Bool(true)));
    let arr = Value::Array(vec![Value::Int(1), Value::Int(2), Value::Int(3)]);
    assert_eq!(call(Builtin::Contains, vec![arr, Value::Int(2)]), Ok(Value::Bool(true)));
}

#[test]
fn test_replace() {
    let args = vec![s("the quick brown fox"), s("quick"), s("lazy")];
    assert_eq!(call(Builtin::Replace, args), Ok(s("the lazy brown fox")));
}

#[test]
fn test_type_conversions() {
    assert_eq!(call(Builtin::String, vec![Value::Int(42)]), Ok(s("42")));
    assert_eq!(call(Builtin::Bool, vec![s("true")]), Ok(Value::Bool(true)));
    assert_eq!(call(Builtin::Float, vec![s("3.12")]), Ok(Value::Float(3.12f64.to_bits())));
}

#[test]
fn test_starts_with() {
    assert_eq!(call(Builtin::StartsWith, vec![s("hello world"), s("hello")]), Ok(Value::Bool(true)));
    assert_eq!(call(Builtin::StartsWith, vec![s("hello world"), s("world")]), Ok(Value::Bool(false)));
}

#[test]
fn test_ends_with() {
    assert_eq!(call(Builtin::EndsWith, vec![s("hello world"), s("world")]), Ok(Value::Bool(true)));
    assert_eq!(call(Builtin::EndsWith, vec![s("hello world"), s("hello")]), Ok(Value::Bool(false)));
}

#[test]
fn test_join() {
    let arr = Value::Array(vec![s("apple"), s("banana"), s("cherry")]);
    assert_eq!(call(Builtin::Join, vec![arr, s(", ")]), Ok(s("apple, banana, cherry")));
}

#[test]
fn test_split() {
    let args = vec![s("apple,banana,cherry"), s(",")];
    assert_eq!(
        call(Builtin::Split, args),
        Ok(Value::Array(vec![s("apple"), s("banana"), s("cherry")]))
    );
}

#[test]
fn join_undoes_split() {
    for (text, sep) in [("apple,banana,cherry", ","), ("a--b----c", "--"), ("abc", ""), ("", ","), ("éx", "x")] {
        let parts = call(Builtin::Split, vec![s(text), s(sep)]).unwrap();
        assert_eq!(call(Builtin::Join, vec![parts, s(sep)]), Ok(s(text)));
    }
    assert_eq!(
        call(Builtin::Split, vec![s("ab"), s("")]),
        Ok(Value::Array(vec![s(""), s("a"), s("b"), s("")]))
    );
}

#[test]
fn test_escape_str_for_json() {
    let input = "Hello \"world\"!\nThis is a test.\tBackslash: \\";
    let expected = "Hello \\\"world\\\"!\\nThis is a test.\\tBackslash: \\\\";
    assert_eq!(escape_str_for_json(input), Some(expected.to_string()));
}

#[test]
fn escape_str_for_json_refuses_a_single_quote() {
    assert_eq!(escape_str_for_json("it's"), None);
    assert_eq!(escape_str_for_json("\r"), Some("\\r".to_string()));
}

#[test]
fn argument_count_errors() {
    assert_eq!(call(Builtin::Len, vec![]), Err(EvalError::ArgumentCount { expected: 1, got: 0 }));
    assert_eq!(
        call(Builtin::Replace, vec![s("a"), s("b")]),
        Err(EvalError::ArgumentCount { expected: 3, got: 2 })
    );
}

#[test]
fn base64_encode_gives_the_standard_alphabet_with_padding() {
    assert_eq!(call(Builtin::Base64Encode, vec![s("hi")]), Ok(s("aGk=")));
    assert_eq!(call(Builtin::Base64Encode, vec![s("")]), Ok(s("")));
    assert_eq!(call(Builtin::Base64Encode, vec![s("a")]), Ok(s("YQ==")));
    assert_eq!(call(Builtin::Base64Encode, vec![s("abc")]), Ok(s("YWJj")));
    assert_eq!(call(Builtin::Base64Encode, vec![s("é?>")]), Ok(s("w6k/Pg==")));
    assert_eq!(call(Builtin::Base64Decode, vec![s("aGk=")]), Ok(s("hi")));
    assert!(call(Builtin::Base64Decode, vec![s("not base64!")]).is_err());
}

#[test]
fn int_and_float_conversions() {
    assert_eq!(call(Builtin::Int, vec![s("-17")]), Ok(Value::Int(-17)));
    assert_eq!(call(Builtin::Int, vec![Value::Bool(true)]), Ok(Value::Int(1)));
    assert_eq!(call(Builtin::Float, vec![Value::Int(2)]), Ok(Value::Float(2.0f64.to_bits())));
    assert!(call(Builtin::Int, vec![s("x")]).is_err());
}

#[test]
fn string_of_values() {
    assert_eq!(call(Builtin::String, vec![Value::Bool(false)]), Ok(s("false")));
    assert_eq!(call(Builtin::String, vec![Value::Null]), Ok(s("null")));
    assert_eq!(call(Builtin::String, vec![s("a")]), Ok(s("a")));
    assert_eq!(
        call(Builtin::String, vec![Value::Array(vec![Value::Int(1), s("b")])]),
        Ok(s("[1, \"b\"]"))
    );
}

#[test]
fn replace_and_split_text() {
    assert_eq!(replace_text("aaa", "a", "b"), "bbb");
    assert_eq!(replace_text("abc", "", "-"), "-a-b-c-");
    assert_eq!(split_text("a,,b", ","), vec!["a".to_string(), "".to_string(), "b".to_string()]);
    assert_eq!(split_text("abc", ""), vec!["".to_string(), "a".to_string(), "b".to_string(), "c".to_string(), "".to_string()]);
}

#[test]
fn vtable_insert_then_get() {
    let mut t = VTable::new();
    assert_eq!(t.insert("f", FnCallback::Sync(1)), None);
    assert_eq!(t.insert("f", FnCallback::Sync(2)), Some(FnCallback::Sync(1)));
    assert_eq!(t.get("f"), Some(FnCallback::Sync(2)));
    assert_eq!(t.get("g"), None);
    assert_eq!(default_vtable().get("len"), Some(FnCallback::Builtin(Builtin::Len)));
}

#[test]
fn base64_round_trip_of_non_ascii_text() {
    for text in ["", "héllo ✓", "a\nb\u{1F600}"] {
        let encoded = call(Builtin::Base64Encode, vec![s(text)]).unwrap();
        assert_eq!(call(Builtin::Base64Decode, vec![encoded]), Ok(s(text)));
    }
}

#[test]
fn conversion_errors_show_the_value_as_debug_writes_it() {
    assert_eq!(
        call(Builtin::Int, vec![s("x\"y")]),
        Err(EvalError::TypeError {
            message: "Expected a value that can be converted to 'i64', got 'String(\"x\\\"y\")'".to_string()
        })
    );
    assert_eq!(
        call(Builtin::Float, vec![Value::Array(vec![Value::Float(2.5f64.to_bits()), Value::Null])]),
        Err(EvalError::TypeError {
            message: "Expected a value that can be converted to 'f64', got 'Array([Float(2.5), Null])'".to_string()
        })
    );
}
