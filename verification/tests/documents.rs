use sosaku::errors::{
    Error, ErrorKind, EvalError, FnCallError, ParseError, PySosakuError, VarAccessError,
};
use sosaku::float::FloatSupport;
use sosaku::json::{Json, JsonNumber, Yaml, YamlKey, YamlNumber, normalize_into_json};
use sosaku::value::Value;

fn floats() -> FloatSupport<
    impl Fn(&str) -> Option<u64>,
    impl Fn(u64) -> String,
    impl Fn(u64) -> String,
    impl Fn(i64) -> u64,
> {
    FloatSupport {
        parse: |s: &str| s.parse::<f64>().ok().map(f64::to_bits),
        text: |b: u64| f64::from_bits(b).to_string(),
        debug: |b: u64| format!("{:?}", f64::from_bits(b)),
        from_i64: |i: i64| (i as f64).to_bits(),
    }
}

fn jint(i: i64) -> Json {
    Json::Number(JsonNumber { as_i64: Some(i), as_f64: Some((i as f64).to_bits()) })
}

fn yint(i: i64) -> Yaml {
    Yaml::Number(YamlNumber {
        as_i64: Some(i),
        as_u64: if i >= 0 { Some(i as u64) } else { None },
        as_f64: Some((i as f64).to_bits()),
        text: i.to_string(),
    })
}

fn yfloat(f: f64) -> YamlNumber {
    YamlNumber { as_i64: None, as_u64: None, as_f64: Some(f.to_bits()), text: f.to_string() }
}

#[test]
fn json_documents_become_values_with_sorted_keys() {
    let doc = Json::Object(vec![
        ("b".to_string(), Json::Array(vec![jint(1), Json::Null, Json::Bool(true)])),
        ("a".to_string(), Json::String("x".to_string())),
        (
            "c".to_string(),
            Json::Number(JsonNumber { as_i64: None, as_f64: Some(2.5f64.to_bits()) }),
        ),
    ]);
    assert_eq!(
        Value::from_json_object(doc),
        Ok(Value::object_from(vec![
            ("a".to_string(), Value::String("x".to_string())),
            ("b".to_string(), Value::Array(vec![Value::Int(1), Value::Null, Value::Bool(true)])),
            ("c".to_string(), Value::Float(2.5f64.to_bits())),
        ]))
    );
}

#[test]
fn json_number_that_reads_as_nothing_is_unsupported() {
    let doc = Json::Array(vec![jint(1), Json::Number(JsonNumber { as_i64: None, as_f64: None })]);
    assert_eq!(Value::from_json_object_ref(&doc), Err("Unsupported value type".to_string()));
}

#[test]
fn yaml_becomes_json() {
    let fs = floats();
    let doc = Yaml::Mapping(vec![
        (YamlKey::String("s".to_string()), Yaml::Sequence(vec![yint(-3), Yaml::Bool(false)])),
        (YamlKey::Number(YamlNumber { as_i64: Some(1), as_u64: Some(1), as_f64: Some(1.0f64.to_bits()), text: "1".to_string() }), Yaml::Null),
        (YamlKey::Bool(true), Yaml::Tagged(Box::new(Yaml::String("t".to_string())))),
        (YamlKey::Null, Yaml::Number(yfloat(0.5))),
    ]);
    assert_eq!(
        normalize_into_json(doc, &fs),
        Ok(Json::Object(vec![
            ("1".to_string(), Json::Null),
            ("null".to_string(), Json::Number(JsonNumber { as_i64: None, as_f64: Some(0.5f64.to_bits()) })),
            ("s".to_string(), Json::Array(vec![jint(-3), Json::Bool(false)])),
            ("true".to_string(), Json::String("t".to_string())),
        ]))
    );
}

#[test]
fn yaml_errors() {
    let fs = floats();
    let dup = Yaml::Mapping(vec![
        (YamlKey::String("true".to_string()), Yaml::Null),
        (YamlKey::Bool(true), Yaml::Null),
    ]);
    assert_eq!(
        normalize_into_json(dup, &fs),
        Err("Duplicate key found in YAML mapping: true".to_string())
    );
    let complex = Yaml::Mapping(vec![(YamlKey::Other("Sequence []".to_string()), Yaml::Null)]);
    assert_eq!(
        normalize_into_json(complex, &fs),
        Err("Failed to convert YAML key 'Sequence []' to string - Only string keys are supported in JSON mappings"
            .to_string())
    );
    let inf = Yaml::Number(yfloat(f64::INFINITY));
    assert_eq!(
        normalize_into_json(inf, &fs),
        Err("Failed to convert float inf to JSON number".to_string())
    );
    let big = Yaml::Number(YamlNumber {
        as_i64: None,
        as_u64: Some(u64::MAX),
        as_f64: Some((u64::MAX as f64).to_bits()),
        text: u64::MAX.to_string(),
    });
    assert_eq!(
        normalize_into_json(big, &fs),
        Ok(Json::Number(JsonNumber { as_i64: None, as_f64: Some((u64::MAX as f64).to_bits()) }))
    );
}

#[test]
fn error_texts() {
    let e = EvalError::FnCallError(FnCallError {
        fn_name: "len".to_string(),
        reason: Box::new(EvalError::ArgumentCount { expected: 1, got: 2 }),
    });
    assert_eq!(
        e.to_string(),
        "Error calling function 'len': Argument Error: Expected 1 arguments, but got 2"
    );
    let v = VarAccessError::ObjectKeyError { object: "o".to_string(), key: "k".to_string() };
    assert_eq!(v.to_string(), "Object 'o' does not contain key 'k'");
    let p = Error::Parse(ParseError { input: "== 3".to_string(), code: ErrorKind::Count });
    assert_eq!(p.to_string(), "Parse Error: error Count at: == 3");
    assert_eq!(
        Error::Eval(EvalError::CallSyncinAsync).to_string(),
        "Cannot call an async function in a sync context"
    );
}

#[test]
fn python_exceptions_for_errors() {
    // Every error is raised as a Python ValueError; these are its messages.
    let call = PySosakuError::new(Error::Eval(EvalError::FnCallError(FnCallError {
        fn_name: "f".to_string(),
        reason: Box::new(EvalError::TypeError { message: "bad".to_string() }),
    })));
    assert_eq!(call.exception(), "bad".to_string());
    let var = PySosakuError::new(Error::Eval(EvalError::VarAccess(VarAccessError::VariableNotFound {
        variable: "x".to_string(),
    })));
    assert_eq!(var.exception(), "Variable not found: x".to_string());
    let count = PySosakuError::new(Error::Eval(EvalError::ArgumentCount { expected: 2, got: 0 }));
    assert_eq!(count.exception(), "Expected 2 arguments, got 0".to_string());
    let unknown = PySosakuError::new(Error::Eval(EvalError::FunctionNotFound { fn_name: "g".to_string() }));
    assert_eq!(unknown.exception(), "Undefined function: g".to_string());
    let parse = PySosakuError::new(Error::Parse(ParseError { input: "x".to_string(), code: ErrorKind::Eof }));
    assert_eq!(parse.exception(), "error Eof at: x".to_string());
}

#[test]
fn a_value_read_as_json_gives_itself_back() {
    let fs = floats();
    let v = Value::object_from(vec![
        ("n".to_string(), Value::Int(-4)),
        ("f".to_string(), Value::Float(0.25f64.to_bits())),
        (
            "a".to_string(),
            Value::Array(vec![Value::Null, Value::Bool(true), Value::String("s".to_string())]),
        ),
        ("o".to_string(), Value::object_from(vec![("k".to_string(), Value::Int(1))])),
    ]);
    let j = v.to_json(&fs);
    assert_eq!(Value::from_json_object(j), Ok(v));
}

#[test]
fn value_accessors() {
    let fs = floats();
    assert_eq!(Value::Int(3).as_i64(), Some(3));
    assert_eq!(Value::Int(-3).as_u64(), None);
    assert_eq!(Value::Int(3).as_u64(), Some(3));
    assert_eq!(Value::Int(2).as_f64(&fs), Some(2.0f64.to_bits()));
    assert_eq!(Value::Bool(true).as_f64(&fs), None);
    assert_eq!(Value::Bool(true).as_bool(), Some(true));
    assert_eq!(Value::String("x".to_string()).as_str(), Some("x"));
    assert_eq!(Value::Null.as_null(), Some(()));
    assert_eq!(Value::Int(0).as_null(), None);
    let arr = Value::Array(vec![Value::Null]);
    assert_eq!(arr.as_array(), Some(&vec![Value::Null]));
    assert_eq!(arr.into_array(), Some(vec![Value::Null]));
    let obj = Value::object_from(vec![("a".to_string(), Value::Null)]);
    assert_eq!(obj.as_object().map(|m| m.len()), Some(1));
    assert_eq!(obj.into_object(), Some(vec![("a".to_string(), Value::Null)]));
    assert_eq!(Value::String("y".to_string()).into_string(), Some("y".to_string()));
}

#[test]
fn object_entries_stay_in_key_order() {
    let obj = Value::object_from(vec![
        ("b".to_string(), Value::Int(1)),
        ("a".to_string(), Value::Int(2)),
        ("b".to_string(), Value::Int(3)),
    ]);
    let m = obj.as_object().unwrap();
    assert_eq!(m.len(), 2);
    assert_eq!(
        m.entries(),
        &vec![("a".to_string(), Value::Int(2)), ("b".to_string(), Value::Int(3))]
    );
}
