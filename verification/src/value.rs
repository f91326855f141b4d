//! Values: the JSON-like data that expressions are evaluated over.
use vstd::prelude::*;
use crate::text::{
    char_len, chars_eq, chars_lt, int_text, lit, seq_lt, str_chars, str_eq, lemma_seq_lt_trans,
    lemma_seq_lt_total,
};
use crate::float::{float_eq, float_eq_exec, float_truthy, float_truthy_exec};

verus! {

broadcast use vstd::string::group_string_axioms;

/// The type of a value.
#[derive(Debug, Clone, Copy, PartialEq, Eq, Hash)]
pub enum Type {
    /// A signed 64-bit integer.
    Integer,
    /// A UTF-8 string.
    String,
    /// A boolean.
    Bool,
    /// An IEEE-754 binary64 number.
    Float,
    /// A sequence of values.
    Array,
    /// A mapping of string keys to values.
    Object,
    /// The null value.
    NullType,
}

/// The name of a type, as its `Display` writes it.
pub open spec fn type_text(t: Type) -> Seq<char> {
    match t {
        Type::Integer => "int"@,
        Type::String => "string"@,
        Type::Bool => "bool"@,
        Type::Float => "float"@,
        Type::NullType => "null"@,
        Type::Array => "array"@,
        Type::Object => "object"@,
    }
}

impl Type {
    /// The name of the type: `int`, `string`, `bool`, `float`, `array`,
    /// `object` or `null`.
    pub fn to_string(&self) -> (r: String)
        ensures
            r@ == type_text(*self),
    {
        match self {
            Type::Integer => lit("int"),
            Type::String => lit("string"),
            Type::Bool => lit("bool"),
            Type::Float => lit("float"),
            Type::NullType => lit("null"),
            Type::Array => lit("array"),
            Type::Object => lit("object"),
        }
    }
}

/// The mathematical model of a [`Value`].
pub enum SValue {
    Int(i64),
    Float(u64),
    Bool(bool),
    Str(Seq<char>),
    Array(Seq<SValue>),
    Object(Seq<(Seq<char>, SValue)>),
    Null,
}

/// A value that expressions produce and bindings hold.
///
/// A float is held by the bits of its IEEE-754 binary64 representation.
#[derive(Debug, PartialEq)]
pub enum Value {
    Int(i64),
    Float(u64),
    Bool(bool),
    String(String),
    Array(Vec<Value>),
    Object(ObjectMap),
    Null,
}

/// The entries of an object, ordered by key, each key once, as a
/// `BTreeMap` holds them. Every way to build one keeps that order.
#[derive(Debug, PartialEq)]
pub struct ObjectMap {
    pub(crate) entries: Vec<(String, Value)>,
}

impl ObjectMap {
    /// The entries are ordered by key, each key once.
    #[verifier::type_invariant]
    pub(crate) open spec fn keys_in_order(self) -> bool {
        keys_sorted(entry_models(self.entries@))
    }

    /// The entries, in key order.
    pub fn entries(&self) -> (r: &Vec<(String, Value)>)
        ensures
            Value::Object(*self)@ == SValue::Object(entry_models(r@)),
            keys_sorted(entry_models(r@)),
    {
        proof {
            use_type_invariant(self);
            lemma_object_model(*self);
        }
        &self.entries
    }

    /// The number of entries.
    pub fn len(&self) -> (r: usize)
        ensures
            Value::Object(*self)@ matches SValue::Object(es) && r == es.len(),
    {
        proof {
            lemma_object_model(*self);
        }
        self.entries.len()
    }

    /// The entries, in key order, taken out of the map.
    pub fn into_entries(self) -> (r: Vec<(String, Value)>)
        ensures
            Value::Object(self)@ == SValue::Object(entry_models(r@)),
            keys_sorted(entry_models(r@)),
    {
        proof {
            use_type_invariant(&self);
            lemma_object_model(self);
        }
        self.entries
    }
}

impl Value {
    /// The model of the value.
    pub open(crate) spec fn model(self) -> SValue
        decreases self,
    {
        match self {
            Value::Int(i) => SValue::Int(i),
            Value::Float(b) => SValue::Float(b),
            Value::Bool(b) => SValue::Bool(b),
            Value::String(s) => SValue::Str(s@),
            Value::Array(v) => SValue::Array(
                Seq::new(v@.len(), |i: int| if 0 <= i < v@.len() { v@[i].model() } else { SValue::Null }),
            ),
            Value::Object(m) => SValue::Object(
                Seq::new(
                    m.entries@.len(),
                    |i: int|
                        if 0 <= i < m.entries@.len() {
                            (m.entries@[i].0@, m.entries@[i].1.model())
                        } else {
                            (Seq::empty(), SValue::Null)
                        },
                ),
            ),
            Value::Null => SValue::Null,
        }
    }
}

impl View for Value {
    type V = SValue;

    open spec fn view(&self) -> SValue {
        self.model()
    }
}

/// The models of a list of values.
pub open spec fn models(v: Seq<Value>) -> Seq<SValue> {
    v.map_values(|x: Value| x@)
}

/// The model of an array is the list of its elements' models.
pub proof fn lemma_array_model(v: Vec<Value>)
    ensures
        Value::Array(v)@ == SValue::Array(models(v@)),
{
    assert(Value::Array(v)@->Array_0 =~= models(v@));
}

/// The model of an object is the list of its entries' models.
pub(crate) proof fn lemma_object_model(m: ObjectMap)
    ensures
        Value::Object(m)@ == SValue::Object(entry_models(m.entries@)),
{
    assert(Value::Object(m)@->Object_0 =~= entry_models(m.entries@));
}

/// The type of a modelled value.
pub open spec fn svalue_type(v: SValue) -> Type {
    match v {
        SValue::Int(_) => Type::Integer,
        SValue::Float(_) => Type::Float,
        SValue::Bool(_) => Type::Bool,
        SValue::Str(_) => Type::String,
        SValue::Null => Type::NullType,
        SValue::Array(_) => Type::Array,
        SValue::Object(_) => Type::Object,
    }
}

/// Truthiness: integers and floats are false when zero, strings, arrays and
/// objects when empty, null always; booleans are themselves.
pub open spec fn truthy(v: SValue) -> bool {
    match v {
        SValue::Int(i) => i != 0,
        SValue::Float(b) => float_truthy(b),
        SValue::Bool(b) => b,
        SValue::Str(s) => s.len() != 0,
        SValue::Null => false,
        SValue::Array(a) => a.len() != 0,
        SValue::Object(o) => o.len() != 0,
    }
}

/// Equality of values: same variant and equal contents, floats compared as
/// IEEE numbers, objects entry by entry in key order.
pub open spec fn value_eq(a: SValue, b: SValue) -> bool
    decreases a,
{
    match a {
        SValue::Int(x) => b == SValue::Int(x),
        SValue::Float(x) => match b {
            SValue::Float(y) => float_eq(x, y),
            _ => false,
        },
        SValue::Bool(x) => b == SValue::Bool(x),
        SValue::Str(x) => b == SValue::Str(x),
        SValue::Null => b == SValue::Null,
        SValue::Array(xs) => match b {
            SValue::Array(ys) => xs.len() == ys.len() && forall|i: int|
                #![trigger xs[i]] 0 <= i < xs.len() ==> value_eq(xs[i], ys[i]),
            _ => false,
        },
        SValue::Object(xs) => match b {
            SValue::Object(ys) => xs.len() == ys.len() && forall|i: int|
                #![trigger xs[i]] 0 <= i < xs.len() ==> xs[i].0 == ys[i].0 && value_eq(xs[i].1, ys[i].1),
            _ => false,
        },
    }
}

/// Keys strictly increasing: the order and uniqueness of a `BTreeMap`.
pub open spec fn keys_sorted<T>(m: Seq<(Seq<char>, T)>) -> bool {
    forall|i: int, j: int| 0 <= i < j < m.len() ==> seq_lt(#[trigger] m[i].0, #[trigger] m[j].0)
}

/// Every object in the value, at any depth, has sorted keys.
pub open spec fn well_formed(v: SValue) -> bool
    decreases v, 1int,
{
    match v {
        SValue::Array(xs) => items_well_formed(xs),
        SValue::Object(es) => keys_sorted(es) && entries_well_formed(es),
        _ => true,
    }
}

/// Every item is well formed.
pub open spec fn items_well_formed(xs: Seq<SValue>) -> bool
    decreases xs, 0int,
{
    if xs.len() == 0 {
        true
    } else {
        items_well_formed(xs.subrange(0, xs.len() - 1)) && well_formed(xs[xs.len() - 1])
    }
}

/// Every entry's value is well formed.
pub open spec fn entries_well_formed(es: Seq<(Seq<char>, SValue)>) -> bool
    decreases es, 0int,
{
    if es.len() == 0 {
        true
    } else {
        entries_well_formed(es.subrange(0, es.len() - 1)) && well_formed(es[es.len() - 1].1)
    }
}

/// The items are well formed exactly when each is.
pub proof fn lemma_items_well_formed(xs: Seq<SValue>)
    ensures
        items_well_formed(xs) <==> forall|i: int| 0 <= i < xs.len() ==> #[trigger] well_formed(xs[i]),
    decreases xs.len(),
{
    if xs.len() > 0 {
        let p = xs.subrange(0, xs.len() - 1);
        lemma_items_well_formed(p);
        assert(items_well_formed(xs) == (items_well_formed(p) && well_formed(xs[xs.len() - 1])));
        if items_well_formed(xs) {
            assert forall|i: int| 0 <= i < xs.len() implies #[trigger] well_formed(xs[i]) by {
                if i < xs.len() - 1 {
                    assert(p[i] == xs[i]);
                }
            }
        }
        if forall|i: int| 0 <= i < xs.len() ==> #[trigger] well_formed(xs[i]) {
            assert forall|i: int| 0 <= i < p.len() implies #[trigger] well_formed(p[i]) by {
                assert(p[i] == xs[i]);
            }
        }
    }
}

/// The entries' values are well formed exactly when each is.
pub proof fn lemma_entries_well_formed(es: Seq<(Seq<char>, SValue)>)
    ensures
        entries_well_formed(es) <==> forall|i: int| 0 <= i < es.len() ==> #[trigger] well_formed(es[i].1),
    decreases es.len(),
{
    if es.len() > 0 {
        let p = es.subrange(0, es.len() - 1);
        lemma_entries_well_formed(p);
        assert(entries_well_formed(es) == (entries_well_formed(p) && well_formed(es[es.len() - 1].1)));
        if entries_well_formed(es) {
            assert forall|i: int| 0 <= i < es.len() implies #[trigger] well_formed(es[i].1) by {
                if i < es.len() - 1 {
                    assert(p[i] == es[i]);
                }
            }
        }
        if forall|i: int| 0 <= i < es.len() ==> #[trigger] well_formed(es[i].1) {
            assert forall|i: int| 0 <= i < p.len() implies #[trigger] well_formed(p[i].1) by {
                assert(p[i] == es[i]);
            }
        }
    }
}

/// The entry of `key`, if any: the first entry with that key.
pub open spec fn lookup<T>(m: Seq<(Seq<char>, T)>, key: Seq<char>) -> Option<T>
    decreases m.len(),
{
    if m.len() == 0 {
        None
    } else if m[0].0 == key {
        Some(m[0].1)
    } else {
        lookup(m.drop_first(), key)
    }
}

/// The position of the first entry with `key`, if any.
pub open spec fn first_index<T>(m: Seq<(Seq<char>, T)>, key: Seq<char>) -> Option<int>
    decreases m.len(),
{
    if m.len() == 0 {
        None
    } else if m[0].0 == key {
        Some(0)
    } else {
        match first_index(m.drop_first(), key) {
            Some(i) => Some(i + 1),
            None => None,
        }
    }
}

/// `first_index` finds the first match, and `lookup` gives its value.
pub proof fn lemma_first_index<T>(m: Seq<(Seq<char>, T)>, key: Seq<char>)
    ensures
        match first_index(m, key) {
            Some(i) => 0 <= i < m.len() && m[i].0 == key && lookup(m, key) == Some(m[i].1)
                && forall|j: int| 0 <= j < i ==> #[trigger] m[j].0 != key,
            None => lookup(m, key) is None && forall|j: int| 0 <= j < m.len() ==> #[trigger] m[j].0 != key,
        },
    decreases m.len(),
{
    if m.len() > 0 && m[0].0 != key {
        lemma_first_index(m.drop_first(), key);
        assert forall|j: int| 1 <= j < m.len() implies m[j].0 == m.drop_first()[j - 1].0 by {}
    }
}

/// The entries after setting `key` to `val` in a sorted entry list:
/// replaced in place if present, else inserted before the first larger key.
pub open spec fn sorted_insert<T>(m: Seq<(Seq<char>, T)>, key: Seq<char>, val: T) -> Seq<(Seq<char>, T)>
    decreases m.len(),
{
    if m.len() == 0 {
        seq![(key, val)]
    } else if m[0].0 == key {
        m.update(0, (key, val))
    } else if seq_lt(key, m[0].0) {
        seq![(key, val)] + m
    } else {
        seq![m[0]] + sorted_insert(m.drop_first(), key, val)
    }
}

/// Joins texts with a separator.
pub open spec fn join_texts(parts: Seq<Seq<char>>, sep: Seq<char>) -> Seq<char>
    decreases parts.len(),
{
    if parts.len() == 0 {
        Seq::empty()
    } else if parts.len() == 1 {
        parts[0]
    } else {
        join_texts(parts.drop_last(), sep) + sep + parts.last()
    }
}

/// The escaped form of one character in a JSON string.
pub open spec fn escape_char(c: char) -> Seq<char> {
    if c == '\\' {
        seq!['\\', '\\']
    } else if c == '"' {
        seq!['\\', '"']
    } else if c == '\n' {
        seq!['\\', 'n']
    } else if c == '\r' {
        seq!['\\', 'r']
    } else if c == '\t' {
        seq!['\\', 't']
    } else {
        seq![c]
    }
}

/// The text with backslash, double quote, newline, carriage return and tab
/// escaped as in JSON.
pub open spec fn escape_json(s: Seq<char>) -> Seq<char>
    decreases s.len(),
{
    if s.len() == 0 {
        Seq::empty()
    } else {
        escape_json(s.drop_last()) + escape_char(s.last())
    }
}

/// Whether a string element or object entry is rendered in quotes: strings
/// nested in arrays and objects are, with escapes.
pub open spec fn quoted(s: Seq<char>) -> Seq<char> {
    seq!['"'] + escape_json(s) + seq!['"']
}

/// The text of a value as its `Display` writes it; `ft` gives the text of
/// a float.
pub open spec fn render(v: SValue, ft: spec_fn(u64) -> Seq<char>) -> Seq<char>
    decreases v, 1int,
{
    match v {
        SValue::Int(i) => int_text(i as int),
        SValue::Float(b) => ft(b),
        SValue::Bool(b) => if b { "true"@ } else { "false"@ },
        SValue::Str(s) => s,
        SValue::Null => "null"@,
        SValue::Array(xs) => seq!['['] + join_texts(item_texts(xs, ft), ", "@) + seq![']'],
        SValue::Object(xs) => seq!['{'] + join_texts(entry_texts(xs, ft), ", "@) + seq!['}'],
    }
}

/// The texts of array items: strings quoted and escaped, other values
/// rendered.
pub open spec fn item_texts(xs: Seq<SValue>, ft: spec_fn(u64) -> Seq<char>) -> Seq<Seq<char>>
    decreases xs, 0int,
{
    Seq::new(
        xs.len(),
        |i: int|
            if 0 <= i < xs.len() {
                match xs[i] {
                    SValue::Str(s) => quoted(s),
                    _ => render(xs[i], ft),
                }
            } else {
                Seq::empty()
            },
    )
}

/// The texts of object entries: the key quoted, a colon, and the value as
/// in arrays.
pub open spec fn entry_texts(xs: Seq<(Seq<char>, SValue)>, ft: spec_fn(u64) -> Seq<char>) -> Seq<Seq<char>>
    decreases xs, 0int,
{
    Seq::new(
        xs.len(),
        |i: int|
            if 0 <= i < xs.len() {
                seq!['"'] + xs[i].0 + "\": "@ + match xs[i].1 {
                    SValue::Str(s) => quoted(s),
                    _ => render(xs[i].1, ft),
                }
            } else {
                Seq::empty()
            },
    )
}

/// Whether rendering the value would meet a string holding `'` inside an
/// array or object: the escaping there stops the program on that character.
pub open spec fn render_stops(v: SValue) -> bool
    decreases v,
{
    match v {
        SValue::Array(xs) => exists|i: int|
            0 <= i < xs.len() && match #[trigger] xs[i] {
                SValue::Str(s) => s.contains('\''),
                _ => render_stops(xs[i]),
            },
        SValue::Object(xs) => exists|i: int|
            0 <= i < xs.len() && match #[trigger] xs[i].1 {
                SValue::Str(s) => s.contains('\''),
                _ => render_stops(xs[i].1),
            },
        _ => false,
    }
}

impl Value {
    /// The type of the value.
    pub fn type_of(&self) -> (t: Type)
        ensures
            t == svalue_type(self@),
    {
        match self {
            Value::Int(_) => Type::Integer,
            Value::Float(_) => Type::Float,
            Value::Bool(_) => Type::Bool,
            Value::String(_) => Type::String,
            Value::Null => Type::NullType,
            Value::Array(_) => Type::Array,
            Value::Object(_) => Type::Object,
        }
    }

    /// The truthiness of the value.
    pub fn truthy(&self) -> (r: bool)
        ensures
            r == truthy(self@),
    {
        match self {
            Value::Int(i) => *i != 0,
            Value::Float(b) => float_truthy_exec(*b),
            Value::Bool(b) => *b,
            Value::String(s) => char_len(s.as_str()) != 0,
            Value::Null => false,
            Value::Array(a) => a.len() != 0,
            Value::Object(o) => o.len() != 0,
        }
    }

    /// Equality of values: same variant and equal contents, floats compared
    /// as numbers.
    pub fn equals(&self, other: &Value) -> (r: bool)
        ensures
            r == value_eq(self@, other@),
        decreases self@,
    {
        match (self, other) {
            (Value::Int(x), Value::Int(y)) => *x == *y,
            (Value::Float(x), Value::Float(y)) => float_eq_exec(*x, *y),
            (Value::Bool(x), Value::Bool(y)) => *x == *y,
            (Value::String(x), Value::String(y)) => str_eq(x.as_str(), y.as_str()),
            (Value::Null, Value::Null) => true,
            (Value::Array(xs), Value::Array(ys)) => {
                proof {
                    lemma_array_model(*xs);
                    lemma_array_model(*ys);
                    assert(self@ == SValue::Array(models(xs@)));
                    assert(other@ == SValue::Array(models(ys@)));
                }
                if xs.len() != ys.len() {
                    proof {
                        assert(models(xs@).len() != models(ys@).len());
                    }
                    return false;
                }
                let mut i: usize = 0;
                while i < xs.len()
                    invariant
                        i <= xs@.len(),
                        xs@.len() == ys@.len(),
                        *self == Value::Array(*xs),
                        *other == Value::Array(*ys),
                        self@ == SValue::Array(models(xs@)),
                        other@ == SValue::Array(models(ys@)),
                        forall|j: int| #![trigger self@->Array_0[j]] 0 <= j < i ==> value_eq(self@->Array_0[j], other@->Array_0[j]),
                    decreases xs@.len() - i,
                {
                    proof {
                        assert(self@->Array_0[i as int] == xs@[i as int]@);
                        assert(other@->Array_0[i as int] == ys@[i as int]@);
                    }
                    if !xs[i].equals(&ys[i]) {
                        proof {
                            assert(!value_eq(self@->Array_0[i as int], other@->Array_0[i as int]));
                        }
                        return false;
                    }
                    i = i + 1;
                }
                true
            },
            (Value::Object(xo), Value::Object(yo)) => {
                let xs = &xo.entries;
                let ys = &yo.entries;
                proof {
                    lemma_object_model(*xo);
                    lemma_object_model(*yo);
                    assert(self@ == SValue::Object(entry_models(xs@)));
                    assert(other@ == SValue::Object(entry_models(ys@)));
                }
                if xs.len() != ys.len() {
                    proof {
                        assert(entry_models(xs@).len() != entry_models(ys@).len());
                    }
                    return false;
                }
                let mut i: usize = 0;
                while i < xs.len()
                    invariant
                        i <= xs@.len(),
                        xs@.len() == ys@.len(),
                        *self == Value::Object(*xo),
                        *other == Value::Object(*yo),
                        xs == &xo.entries,
                        ys == &yo.entries,
                        self@ == SValue::Object(entry_models(xs@)),
                        other@ == SValue::Object(entry_models(ys@)),
                        forall|j: int| #![trigger self@->Object_0[j]]
                            0 <= j < i ==> self@->Object_0[j].0 == other@->Object_0[j].0
                                && value_eq(self@->Object_0[j].1, other@->Object_0[j].1),
                    decreases xs@.len() - i,
                {
                    proof {
                        assert(self@->Object_0[i as int] == (xs@[i as int].0@, xs@[i as int].1@));
                        assert(other@->Object_0[i as int] == (ys@[i as int].0@, ys@[i as int].1@));
                    }
                    if !str_eq(xs[i].0.as_str(), ys[i].0.as_str()) {
                        proof {
                            assert(self@->Object_0[i as int].0 != other@->Object_0[i as int].0);
                        }
                        return false;
                    }
                    proof {
                        assert(decreases_to!(self@ => self@->Object_0));
                        assert(decreases_to!(self@->Object_0 => self@->Object_0[i as int]));
                        assert(decreases_to!(self@->Object_0[i as int] => self@->Object_0[i as int].1));
                    }
                    if !xs[i].1.equals(&ys[i].1) {
                        proof {
                            assert(!value_eq(self@->Object_0[i as int].1, other@->Object_0[i as int].1));
                        }
                        return false;
                    }
                    i = i + 1;
                }
                true
            },
            _ => false,
        }
    }

    /// A copy of the value with the same model.
    pub fn copy(&self) -> (r: Value)
        ensures
            r@ == self@,
        decreases self@,
    {
        match self {
            Value::Int(i) => Value::Int(*i),
            Value::Float(b) => Value::Float(*b),
            Value::Bool(b) => Value::Bool(*b),
            Value::String(s) => Value::String(s.clone()),
            Value::Null => Value::Null,
            Value::Array(xs) => {
                proof {
                    lemma_array_model(*xs);
                }
                let mut out: Vec<Value> = Vec::new();
                let mut i: usize = 0;
                while i < xs.len()
                    invariant
                        i <= xs@.len(),
                        out@.len() == i,
                        *self == Value::Array(*xs),
                        forall|j: int| 0 <= j < i ==> #[trigger] out@[j]@ == xs@[j]@,
                    decreases xs@.len() - i,
                {
                    proof {
                        assert(self@->Array_0[i as int] == xs@[i as int]@);
                    }
                    out.push(xs[i].copy());
                    i = i + 1;
                }
                proof {
                    lemma_array_model(out);
                    assert(models(out@) =~= models(xs@));
                }
                Value::Array(out)
            },
            Value::Object(xo) => {
                let xs = &xo.entries;
                proof {
                    lemma_object_model(*xo);
                    use_type_invariant(xo);
                }
                let mut out: Vec<(String, Value)> = Vec::new();
                let mut i: usize = 0;
                while i < xs.len()
                    invariant
                        i <= xs@.len(),
                        out@.len() == i,
                        *self == Value::Object(*xo),
                        xs == &xo.entries,
                        forall|j: int| 0 <= j < i ==> #[trigger] out@[j].0@ == xs@[j].0@ && out@[j].1@ == xs@[j].1@,
                    decreases xs@.len() - i,
                {
                    proof {
                        assert(self@->Object_0[i as int] == (xs@[i as int].0@, xs@[i as int].1@));
                    }
                    proof {
                        assert(decreases_to!(self@ => self@->Object_0));
                        assert(decreases_to!(self@->Object_0 => self@->Object_0[i as int]));
                        assert(decreases_to!(self@->Object_0[i as int] => self@->Object_0[i as int].1));
                    }
                    let k = xs[i].0.clone();
                    let v = xs[i].1.copy();
                    let ghost before = out@;
                    out.push((k, v));
                    proof {
                        assert(out@[i as int] == (k, v));
                        assert forall|j: int| 0 <= j < i + 1 implies #[trigger] out@[j].0@ == xs@[j].0@ && out@[j].1@ == xs@[j].1@ by {
                            if j < i {
                                assert(out@[j] == before[j]);
                            }
                        }
                    }
                    i = i + 1;
                }
                proof {
                    assert(entry_models(out@) =~= entry_models(xs@));
                }
                Value::from_sorted_entries(out)
            },
        }
    }

    /// The value itself: a value here owns its data already.
    pub fn into_owned(self) -> (r: Value)
        ensures
            r@ == self@,
    {
        self
    }

    /// An object built from entries, each inserted in turn, so that a later
    /// entry for a key replaces an earlier one and the keys end up sorted.
    pub fn object_from(entries: Vec<(String, Value)>) -> (r: Value)
        ensures
            r@ == SValue::Object(insert_all(Seq::empty(), entries@.map_values(|e: (String, Value)| (e.0@, e.1@)))),
            r@ matches SValue::Object(xs) && keys_sorted(xs),
    {
        let mut m: Vec<(String, Value)> = Vec::new();
        let ghost src = entries@.map_values(|e: (String, Value)| (e.0@, e.1@));
        let mut rest = entries;
        let mut i: usize = 0;
        let n = rest.len();
        proof {
            assert(src.take(0) =~= Seq::<(Seq<char>, SValue)>::empty());
            assert(entry_models(m@) =~= Seq::<(Seq<char>, SValue)>::empty());
        }
        // Take the entries out one by one, from the front.
        let mut items: Vec<(String, Value)> = Vec::new();
        while rest.len() > 0
            invariant
                items@.len() + rest@.len() == n,
                forall|j: int| 0 <= j < items@.len() ==> #[trigger] items@[j] == entries@[n - 1 - j],
                forall|j: int| 0 <= j < rest@.len() ==> #[trigger] rest@[j] == entries@[j],
                entries@.len() == n,
            decreases rest@.len(),
        {
            let e = rest.pop().unwrap();
            items.push(e);
        }
        while i < n
            invariant
                i <= n,
                items@.len() == n - i,
                entries@.len() == n,
                src == entries@.map_values(|e: (String, Value)| (e.0@, e.1@)),
                forall|j: int| 0 <= j < items@.len() ==> #[trigger] items@[j] == entries@[n - 1 - j],
                entry_models(m@) == insert_all(Seq::empty(), src.take(i as int)),
            decreases n - i,
        {
            let e = items.pop().unwrap();
            proof {
                assert(e == entries@[i as int]);
                assert(src.take(i + 1) =~= src.take(i as int).push(src[i as int]));
                lemma_insert_all_push(Seq::empty(), src.take(i as int), src[i as int]);
            }
            object_insert(&mut m, e.0, e.1);
            i = i + 1;
        }
        proof {
            assert(src.take(n as int) =~= src);
            lemma_insert_all_sorted(Seq::<(Seq<char>, SValue)>::empty(), src);
        }
        Value::from_sorted_entries(m)
    }

    /// The object of entries already ordered by key, each key once.
    pub(crate) fn from_sorted_entries(entries: Vec<(String, Value)>) -> (r: Value)
        requires
            keys_sorted(entry_models(entries@)),
        ensures
            r@ == SValue::Object(entry_models(entries@)),
    {
        let m = ObjectMap { entries };
        proof {
            lemma_object_model(m);
        }
        Value::Object(m)
    }
}

/// The models of a list of entries.
pub open spec fn entry_models(m: Seq<(String, Value)>) -> Seq<(Seq<char>, SValue)> {
    m.map_values(|e: (String, Value)| (e.0@, e.1@))
}

/// Inserting a list of entries in turn.
pub open spec fn insert_all<T>(m: Seq<(Seq<char>, T)>, es: Seq<(Seq<char>, T)>) -> Seq<(Seq<char>, T)>
    decreases es.len(),
{
    if es.len() == 0 {
        m
    } else {
        sorted_insert(insert_all(m, es.drop_last()), es.last().0, es.last().1)
    }
}

pub proof fn lemma_insert_all_push<T>(m: Seq<(Seq<char>, T)>, es: Seq<(Seq<char>, T)>, e: (Seq<char>, T))
    ensures
        insert_all(m, es.push(e)) == sorted_insert(insert_all(m, es), e.0, e.1),
{
    assert(es.push(e).drop_last() =~= es);
}

/// The position of `key` among the entries, if present.
pub fn object_find(m: &Vec<(String, Value)>, key: &str) -> (r: Option<usize>)
    ensures
        r matches Some(i) ==> i < m@.len() && m@[i as int].0@ == key@,
        r is None ==> forall|i: int| 0 <= i < m@.len() ==> #[trigger] m@[i].0@ != key@,
        r matches Some(i) ==> forall|j: int| 0 <= j < i ==> #[trigger] m@[j].0@ != key@,
{
    let k = str_chars(key);
    let mut i: usize = 0;
    while i < m.len()
        invariant
            i <= m@.len(),
            k@ == key@,
            forall|j: int| 0 <= j < i ==> #[trigger] m@[j].0@ != key@,
        decreases m@.len() - i,
    {
        let ki = str_chars(m[i].0.as_str());
        if chars_eq(&ki, &k) {
            return Some(i);
        }
        i = i + 1;
    }
    None
}

/// The value of `key` in an object's entries (the first entry with it).
pub fn object_get<'a>(m: &'a Vec<(String, Value)>, key: &str) -> (r: Option<&'a Value>)
    ensures
        match r {
            Some(v) => lookup(entry_models(m@), key@) == Some(v@),
            None => lookup(entry_models(m@), key@) is None,
        },
{
    let ghost em = entry_models(m@);
    proof {
        lemma_first_index(em, key@);
    }
    match object_find(m, key) {
        Some(i) => {
            proof {
                assert(em[i as int].0 == key@);
                match first_index(em, key@) {
                    Some(k) => {
                        if k < i {
                            assert(em[k].0 == m@[k].0@);
                        } else if k > i {
                            assert(em[i as int].0 == m@[i as int].0@);
                        }
                    },
                    None => {
                        assert(em[i as int].0 == key@);
                    },
                }
            }
            Some(&m[i].1)
        },
        None => {
            proof {
                match first_index(em, key@) {
                    Some(k) => {
                        assert(em[k].0 == m@[k].0@);
                    },
                    None => {},
                }
            }
            None
        },
    }
}

/// No text orders before itself.
pub proof fn lemma_seq_lt_irreflexive(a: Seq<char>)
    ensures
        !seq_lt(a, a),
    decreases a.len(),
{
    if a.len() > 0 {
        lemma_seq_lt_irreflexive(a.drop_first());
    }
}

/// Sets `key` to `value` in sorted entries, keeping them sorted.
pub fn object_insert(m: &mut Vec<(String, Value)>, key: String, value: Value)
    ensures
        entry_models(final(m)@) == sorted_insert(entry_models(old(m)@), key@, value@),
{
    let k = str_chars(key.as_str());
    let mut i: usize = 0;
    let ghost m0 = entry_models(m@);
    proof {
        assert(m0.take(0) =~= Seq::<(Seq<char>, SValue)>::empty());
        assert(m0.skip(0) =~= m0);
    }
    // Find the first entry whose key is not smaller than `key`.
    while i < m.len()
        invariant
            i <= m@.len(),
            k@ == key@,
            m0 == entry_models(m@),
            m0 == entry_models(old(m)@),
            sorted_insert(m0, key@, value@) == m0.take(i as int) + sorted_insert(m0.skip(i as int), key@, value@),
        decreases m@.len() - i,
    {
        let ki = str_chars(m[i].0.as_str());
        if chars_eq(&ki, &k) {
            proof {
                lemma_sorted_insert_at(m0.skip(i as int), key@, value@);
            }
            let ghost old_m = m@;
            m.set(i, (key, value));
            proof {
                assert(entry_models(m@) =~= m0.take(i as int) + m0.skip(i as int).update(0, (k@, value@)));
            }
            return;
        }
        if chars_lt(&k, &ki) {
            proof {
                lemma_sorted_insert_before(m0.skip(i as int), key@, value@);
            }
            m.insert(i, (key, value));
            proof {
                assert(entry_models(m@) =~= m0.take(i as int) + (seq![(k@, value@)] + m0.skip(i as int)));
            }
            return;
        }
        proof {
            lemma_sorted_insert_skip(m0, i as int, key@, value@);
        }
        i = i + 1;
    }
    proof {
        assert(m0.skip(i as int) =~= Seq::<(Seq<char>, SValue)>::empty());
        assert(m0.take(i as int) =~= m0);
    }
    m.push((key, value));
    proof {
        assert(entry_models(m@) =~= m0 + seq![(k@, value@)]);
    }
}

pub proof fn lemma_sorted_insert_at<T>(m: Seq<(Seq<char>, T)>, key: Seq<char>, val: T)
    requires
        m.len() > 0,
        m[0].0 == key,
    ensures
        sorted_insert(m, key, val) == m.update(0, (key, val)),
{
}

pub proof fn lemma_sorted_insert_before<T>(m: Seq<(Seq<char>, T)>, key: Seq<char>, val: T)
    requires
        m.len() > 0,
        m[0].0 != key,
        seq_lt(key, m[0].0),
    ensures
        sorted_insert(m, key, val) == seq![(key, val)] + m,
{
}

pub proof fn lemma_sorted_insert_skip<T>(m: Seq<(Seq<char>, T)>, i: int, key: Seq<char>, val: T)
    requires
        0 <= i < m.len(),
        m[i].0 != key,
        !seq_lt(key, m[i].0),
        sorted_insert(m, key, val) == m.take(i) + sorted_insert(m.skip(i), key, val),
    ensures
        sorted_insert(m, key, val) == m.take(i + 1) + sorted_insert(m.skip(i + 1), key, val),
{
    let s = m.skip(i);
    assert(s[0] == m[i]);
    assert(s.drop_first() =~= m.skip(i + 1));
    assert(sorted_insert(s, key, val) == seq![s[0]] + sorted_insert(s.drop_first(), key, val));
    assert(m.take(i + 1) =~= m.take(i).push(m[i]));
    assert(m.take(i) + (seq![m[i]] + sorted_insert(m.skip(i + 1), key, val))
        =~= m.take(i + 1) + sorted_insert(m.skip(i + 1), key, val));
}

/// Entries with their keys' texts.
pub open spec fn keyed<T>(m: Seq<(String, T)>) -> Seq<(Seq<char>, T)> {
    m.map_values(|e: (String, T)| (e.0@, e.1))
}

/// Sets `key` to `value` in sorted entries, keeping them sorted.
pub fn table_insert<T>(m: &mut Vec<(String, T)>, key: String, value: T)
    ensures
        keyed(final(m)@) == sorted_insert(keyed(old(m)@), key@, value),
{
    let k = str_chars(key.as_str());
    let mut i: usize = 0;
    let ghost m0 = keyed(m@);
    proof {
        assert(m0.take(0) =~= Seq::<(Seq<char>, T)>::empty());
        assert(m0.skip(0) =~= m0);
    }
    while i < m.len()
        invariant
            i <= m@.len(),
            k@ == key@,
            m0 == keyed(m@),
            m0 == keyed(old(m)@),
            sorted_insert(m0, key@, value) == m0.take(i as int) + sorted_insert(m0.skip(i as int), key@, value),
        decreases m@.len() - i,
    {
        let ki = str_chars(m[i].0.as_str());
        if chars_eq(&ki, &k) {
            proof {
                lemma_sorted_insert_at(m0.skip(i as int), key@, value);
            }
            m.set(i, (key, value));
            proof {
                assert(keyed(m@) =~= m0.take(i as int) + m0.skip(i as int).update(0, (k@, value)));
            }
            return;
        }
        if chars_lt(&k, &ki) {
            proof {
                lemma_sorted_insert_before(m0.skip(i as int), key@, value);
            }
            m.insert(i, (key, value));
            proof {
                assert(keyed(m@) =~= m0.take(i as int) + (seq![(k@, value)] + m0.skip(i as int)));
            }
            return;
        }
        proof {
            lemma_sorted_insert_skip(m0, i as int, key@, value);
        }
        i = i + 1;
    }
    proof {
        assert(m0.skip(i as int) =~= Seq::<(Seq<char>, T)>::empty());
        assert(m0.take(i as int) =~= m0);
    }
    m.push((key, value));
    proof {
        assert(keyed(m@) =~= m0 + seq![(k@, value)]);
    }
}

/// The position of `key` among the entries, if present.
pub fn table_find<T>(m: &Vec<(String, T)>, key: &str) -> (r: Option<usize>)
    ensures
        match r {
            Some(i) => i < m@.len() && first_index(keyed(m@), key@) == Some(i as int),
            None => first_index(keyed(m@), key@) is None,
        },
{
    let k = str_chars(key);
    let ghost km = keyed(m@);
    proof {
        lemma_first_index(km, key@);
    }
    let mut i: usize = 0;
    while i < m.len()
        invariant
            i <= m@.len(),
            k@ == key@,
            km == keyed(m@),
            forall|j: int| 0 <= j < i ==> #[trigger] km[j].0 != key@,
            match first_index(km, key@) {
                Some(x) => 0 <= x < km.len() && km[x].0 == key@ && forall|j: int| 0 <= j < x ==> #[trigger] km[j].0 != key@,
                None => forall|j: int| 0 <= j < km.len() ==> #[trigger] km[j].0 != key@,
            },
        decreases m@.len() - i,
    {
        let ki = str_chars(m[i].0.as_str());
        if chars_eq(&ki, &k) {
            proof {
                assert(km[i as int].0 == key@);
                match first_index(km, key@) {
                    Some(x) => {
                        if x < i {
                            assert(km[x].0 != key@);
                        } else if x > i {
                            assert(km[i as int].0 != key@);
                        }
                    },
                    None => {
                        assert(km[i as int].0 != key@);
                    },
                }
            }
            return Some(i);
        }
        proof {
            assert(km[i as int].0 != key@);
        }
        i = i + 1;
    }
    proof {
        match first_index(km, key@) {
            Some(x) => {
                assert(km[x].0 != key@);
            },
            None => {},
        }
    }
    None
}

/// Sorted entries stay sorted without their first entry.
pub proof fn lemma_keys_sorted_tail<T>(m: Seq<(Seq<char>, T)>)
    requires
        keys_sorted(m),
        m.len() > 0,
    ensures
        keys_sorted(m.drop_first()),
        lookup(m.drop_first(), m[0].0) is None,
{
    let t = m.drop_first();
    assert forall|i: int, j: int| 0 <= i < j < t.len() implies seq_lt(#[trigger] t[i].0, #[trigger] t[j].0) by {
        assert(t[i] == m[i + 1]);
        assert(t[j] == m[j + 1]);
    }
    lemma_first_index(t, m[0].0);
    match first_index(t, m[0].0) {
        Some(i) => {
            assert(t[i] == m[i + 1]);
            lemma_seq_lt_irreflexive(m[0].0);
        },
        None => {},
    }
}

/// Setting a key in sorted entries keeps them sorted; the first entry
/// after is the key set or the first one before.
pub proof fn lemma_sorted_insert_sorted<T>(m: Seq<(Seq<char>, T)>, key: Seq<char>, val: T)
    requires
        keys_sorted(m),
    ensures
        keys_sorted(sorted_insert(m, key, val)),
        sorted_insert(m, key, val).len() > 0,
        sorted_insert(m, key, val)[0].0 == key || (m.len() > 0 && sorted_insert(m, key, val)[0].0 == m[0].0),
    decreases m.len(),
{
    let r = sorted_insert(m, key, val);
    if m.len() == 0 {
    } else if m[0].0 == key {
        assert forall|i: int, j: int| 0 <= i < j < r.len() implies seq_lt(#[trigger] r[i].0, #[trigger] r[j].0) by {
            assert(r[i].0 == m[i].0);
            assert(r[j].0 == m[j].0);
        }
    } else if seq_lt(key, m[0].0) {
        assert forall|i: int, j: int| 0 <= i < j < r.len() implies seq_lt(#[trigger] r[i].0, #[trigger] r[j].0) by {
            assert(r[j] == m[j - 1]);
            if i == 0 {
                if j > 1 {
                    lemma_seq_lt_trans(key, m[0].0, m[j - 1].0);
                }
            } else {
                assert(r[i] == m[i - 1]);
            }
        }
    } else {
        let t = m.drop_first();
        lemma_keys_sorted_tail(m);
        lemma_sorted_insert_sorted(t, key, val);
        let r2 = sorted_insert(t, key, val);
        lemma_seq_lt_total(key, m[0].0);
        assert(r == seq![m[0]] + r2);
        assert(seq_lt(m[0].0, r2[0].0)) by {
            if r2[0].0 != key {
                assert(t[0] == m[1]);
            }
        }
        assert forall|i: int, j: int| 0 <= i < j < r.len() implies seq_lt(#[trigger] r[i].0, #[trigger] r[j].0) by {
            assert(r[j] == r2[j - 1]);
            if i == 0 {
                if j > 1 {
                    lemma_seq_lt_trans(m[0].0, r2[0].0, r2[j - 1].0);
                }
            } else {
                assert(r[i] == r2[i - 1]);
            }
        }
    }
}

/// Setting a key greater than all keys present appends it.
pub proof fn lemma_sorted_insert_last<T>(m: Seq<(Seq<char>, T)>, key: Seq<char>, val: T)
    requires
        forall|i: int| 0 <= i < m.len() ==> seq_lt(#[trigger] m[i].0, key),
    ensures
        sorted_insert(m, key, val) == m.push((key, val)),
    decreases m.len(),
{
    if m.len() > 0 {
        assert(seq_lt(m[0].0, key));
        lemma_seq_lt_irreflexive(key);
        if seq_lt(key, m[0].0) {
            lemma_seq_lt_trans(key, m[0].0, key);
        }
        let t = m.drop_first();
        assert forall|i: int| 0 <= i < t.len() implies seq_lt(#[trigger] t[i].0, key) by {
            assert(t[i] == m[i + 1]);
        }
        lemma_sorted_insert_last(t, key, val);
        assert(m.push((key, val)) =~= seq![m[0]] + t.push((key, val)));
    }
}

/// Inserting sorted entries in turn into nothing gives them back.
pub proof fn lemma_insert_all_sorted_self<T>(es: Seq<(Seq<char>, T)>)
    requires
        keys_sorted(es),
    ensures
        insert_all(Seq::empty(), es) == es,
    decreases es.len(),
{
    if es.len() > 0 {
        let p = es.drop_last();
        assert forall|i: int, j: int| 0 <= i < j < p.len() implies seq_lt(#[trigger] p[i].0, #[trigger] p[j].0) by {
            assert(p[i] == es[i] && p[j] == es[j]);
        }
        lemma_insert_all_sorted_self(p);
        assert forall|i: int| 0 <= i < p.len() implies seq_lt(#[trigger] p[i].0, es.last().0) by {
            assert(p[i] == es[i]);
        }
        lemma_sorted_insert_last(p, es.last().0, es.last().1);
        assert(p.push((es.last().0, es.last().1)) =~= es);
    }
}

/// Setting a key to a well-formed value keeps every value well formed.
pub proof fn lemma_sorted_insert_values_wf(m: Seq<(Seq<char>, SValue)>, key: Seq<char>, val: SValue)
    requires
        forall|i: int| 0 <= i < m.len() ==> #[trigger] well_formed(m[i].1),
        well_formed(val),
    ensures
        forall|i: int|
            0 <= i < sorted_insert(m, key, val).len() ==> #[trigger] well_formed(sorted_insert(m, key, val)[i].1),
    decreases m.len(),
{
    let r = sorted_insert(m, key, val);
    if m.len() == 0 {
    } else if m[0].0 == key {
        assert forall|i: int| 0 <= i < r.len() implies #[trigger] well_formed(r[i].1) by {
            if i > 0 {
                assert(r[i] == m[i]);
            }
        }
    } else if seq_lt(key, m[0].0) {
        assert forall|i: int| 0 <= i < r.len() implies #[trigger] well_formed(r[i].1) by {
            if i > 0 {
                assert(r[i] == m[i - 1]);
            }
        }
    } else {
        let t = m.drop_first();
        assert forall|i: int| 0 <= i < t.len() implies #[trigger] well_formed(t[i].1) by {
            assert(t[i] == m[i + 1]);
        }
        lemma_sorted_insert_values_wf(t, key, val);
        let r2 = sorted_insert(t, key, val);
        assert(r == seq![m[0]] + r2);
        assert forall|i: int| 0 <= i < r.len() implies #[trigger] well_formed(r[i].1) by {
            if i > 0 {
                assert(r[i] == r2[i - 1]);
            }
        }
    }
}

/// Inserting entries with well-formed values in turn keeps every value
/// well formed.
pub proof fn lemma_insert_all_values_wf(m: Seq<(Seq<char>, SValue)>, es: Seq<(Seq<char>, SValue)>)
    requires
        forall|i: int| 0 <= i < m.len() ==> #[trigger] well_formed(m[i].1),
        forall|i: int| 0 <= i < es.len() ==> #[trigger] well_formed(es[i].1),
    ensures
        forall|i: int| 0 <= i < insert_all(m, es).len() ==> #[trigger] well_formed(insert_all(m, es)[i].1),
    decreases es.len(),
{
    if es.len() > 0 {
        let p = es.drop_last();
        assert forall|i: int| 0 <= i < p.len() implies #[trigger] well_formed(p[i].1) by {
            assert(p[i] == es[i]);
        }
        lemma_insert_all_values_wf(m, p);
        assert(well_formed(es[es.len() - 1].1));
        lemma_sorted_insert_values_wf(insert_all(m, p), es.last().0, es.last().1);
    }
}

/// Inserting entries in turn into sorted entries keeps them sorted.
pub proof fn lemma_insert_all_sorted<T>(m: Seq<(Seq<char>, T)>, es: Seq<(Seq<char>, T)>)
    requires
        keys_sorted(m),
    ensures
        keys_sorted(insert_all(m, es)),
    decreases es.len(),
{
    if es.len() > 0 {
        lemma_insert_all_sorted(m, es.drop_last());
        lemma_sorted_insert_sorted(insert_all(m, es.drop_last()), es.last().0, es.last().1);
    }
}

/// The value of the last entry with `key`, if any.
pub open spec fn last_lookup<T>(es: Seq<(Seq<char>, T)>, key: Seq<char>) -> Option<T>
    decreases es.len(),
{
    if es.len() == 0 {
        None
    } else if es.last().0 == key {
        Some(es.last().1)
    } else {
        last_lookup(es.drop_last(), key)
    }
}

/// After inserting entries in turn, a key maps to its last entry's value,
/// or to what it mapped to before where no entry has it.
pub proof fn lemma_insert_all_lookup<T>(m: Seq<(Seq<char>, T)>, es: Seq<(Seq<char>, T)>, key: Seq<char>)
    ensures
        lookup(insert_all(m, es), key) == match last_lookup(es, key) {
            Some(v) => Some(v),
            None => lookup(m, key),
        },
    decreases es.len(),
{
    if es.len() > 0 {
        lemma_insert_all_lookup(m, es.drop_last(), key);
        if es.last().0 == key {
            lemma_sorted_insert_lookup(insert_all(m, es.drop_last()), key, es.last().1);
        } else {
            lemma_sorted_insert_lookup_other(insert_all(m, es.drop_last()), es.last().0, es.last().1, key);
        }
    }
}

/// Sorted entries are determined by what each key maps to.
pub proof fn lemma_sorted_lookup_ext<T>(a: Seq<(Seq<char>, T)>, b: Seq<(Seq<char>, T)>)
    requires
        keys_sorted(a),
        keys_sorted(b),
        forall|k: Seq<char>| #[trigger] lookup(a, k) == lookup(b, k),
    ensures
        a == b,
    decreases a.len(),
{
    if a.len() == 0 {
        if b.len() > 0 {
            assert(lookup(a, b[0].0) is None);
        }
        assert(a =~= b);
    } else if b.len() == 0 {
        assert(lookup(b, a[0].0) is None);
        assert(lookup(a, a[0].0) is Some);
    } else {
        let x = a[0].0;
        let y = b[0].0;
        if x != y {
            assert(lookup(a, x) is Some);
            lemma_first_index(b, x);
            assert(lookup(b, y) is Some);
            lemma_first_index(a, y);
            match (first_index(b, x), first_index(a, y)) {
                (Some(i), Some(j)) => {
                    assert(seq_lt(b[0].0, b[i].0));
                    assert(seq_lt(a[0].0, a[j].0));
                    lemma_seq_lt_trans(x, y, x);
                    lemma_seq_lt_irreflexive(x);
                },
                _ => {},
            }
        }
        assert(lookup(a, x) == Some(a[0].1));
        assert(lookup(b, x) == Some(b[0].1));
        let a2 = a.drop_first();
        let b2 = b.drop_first();
        lemma_keys_sorted_tail(a);
        lemma_keys_sorted_tail(b);
        assert forall|k: Seq<char>| #[trigger] lookup(a2, k) == lookup(b2, k) by {
            if k != x {
                assert(lookup(a, k) == lookup(a2, k));
                assert(lookup(b, k) == lookup(b2, k));
            }
        }
        lemma_sorted_lookup_ext(a2, b2);
        assert(a[0] == b[0]);
        assert(a =~= seq![a[0]] + a2);
        assert(b =~= seq![b[0]] + b2);
    }
}

/// Setting a key makes it map to the new value.
pub proof fn lemma_sorted_insert_lookup<T>(m: Seq<(Seq<char>, T)>, key: Seq<char>, val: T)
    ensures
        lookup(sorted_insert(m, key, val), key) == Some(val),
    decreases m.len(),
{
    if m.len() > 0 && m[0].0 != key && !seq_lt(key, m[0].0) {
        lemma_sorted_insert_lookup(m.drop_first(), key, val);
        let r = sorted_insert(m, key, val);
        assert(r.drop_first() =~= sorted_insert(m.drop_first(), key, val));
    }
}

/// Setting a key leaves every other key as it was.
pub proof fn lemma_sorted_insert_lookup_other<T>(m: Seq<(Seq<char>, T)>, key: Seq<char>, val: T, other: Seq<char>)
    requires
        other != key,
    ensures
        lookup(sorted_insert(m, key, val), other) == lookup(m, other),
    decreases m.len(),
{
    let r = sorted_insert(m, key, val);
    if m.len() == 0 || m[0].0 == key || seq_lt(key, m[0].0) {
        assert(r[0].0 == key);
        assert(lookup(r, other) == lookup(r.drop_first(), other));
        if m.len() == 0 {
            assert(r.drop_first() =~= m);
        } else if m[0].0 == key {
            assert(r.drop_first() =~= m.drop_first());
            assert(lookup(m, other) == lookup(m.drop_first(), other));
        } else {
            assert(r.drop_first() =~= m);
        }
    } else {
        lemma_sorted_insert_lookup_other(m.drop_first(), key, val, other);
        assert(r[0] == m[0]);
        assert(r.drop_first() =~= sorted_insert(m.drop_first(), key, val));
    }
}

} // verus!
