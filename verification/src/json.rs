//! JSON and YAML documents, and the values that bindings are made of from
//! them.
use vstd::prelude::*;
use crate::text::{lit, push_all};
use crate::value::{
    SValue, Value, ObjectMap, well_formed, lemma_items_well_formed, lemma_entries_well_formed, entry_models, first_index, insert_all, keyed, lemma_insert_all_sorted, lemma_array_model, lemma_first_index,
    lemma_insert_all_push, lemma_object_model, lookup, models, object_insert, sorted_insert, table_find,
    table_insert,
};
use crate::float::{FloatSupport, float_finite, float_finite_exec};
use crate::laws::law_value_json_round_trip;

verus! {

broadcast use vstd::string::group_string_axioms;

/// A JSON number, held by what reading it as an `i64` and as an `f64`
/// gives (the float by its bits).
#[derive(Debug, Clone, Copy, PartialEq, Eq)]
pub struct JsonNumber {
    pub as_i64: Option<i64>,
    pub as_f64: Option<u64>,
}

/// A JSON document. An object holds its entries in the order in which its
/// map iterates them.
#[derive(Debug, PartialEq)]
pub enum Json {
    Null,
    Bool(bool),
    Number(JsonNumber),
    String(String),
    Array(Vec<Json>),
    Object(Vec<(String, Json)>),
}

/// The model of a [`Json`].
pub enum SJson {
    Null,
    Bool(bool),
    Number(JsonNumber),
    Str(Seq<char>),
    Array(Seq<SJson>),
    Object(Seq<(Seq<char>, SJson)>),
}

impl Json {
    /// The model of the document.
    pub open spec fn model(self) -> SJson
        decreases self,
    {
        match self {
            Json::Null => SJson::Null,
            Json::Bool(b) => SJson::Bool(b),
            Json::Number(n) => SJson::Number(n),
            Json::String(s) => SJson::Str(s@),
            Json::Array(v) => SJson::Array(
                Seq::new(v@.len(), |i: int| if 0 <= i < v@.len() { v@[i].model() } else { SJson::Null }),
            ),
            Json::Object(m) => SJson::Object(
                Seq::new(
                    m@.len(),
                    |i: int|
                        if 0 <= i < m@.len() {
                            (m@[i].0@, m@[i].1.model())
                        } else {
                            (Seq::empty(), SJson::Null)
                        },
                ),
            ),
        }
    }
}

impl View for Json {
    type V = SJson;

    open spec fn view(&self) -> SJson {
        self.model()
    }
}

/// The models of a list of documents.
pub open spec fn json_models(v: Seq<Json>) -> Seq<SJson> {
    v.map_values(|x: Json| x@)
}

/// The models of a list of entries.
pub open spec fn json_entry_models(m: Seq<(String, Json)>) -> Seq<(Seq<char>, SJson)> {
    m.map_values(|e: (String, Json)| (e.0@, e.1@))
}

/// The model of an array is the list of its items' models.
pub proof fn lemma_json_array_model(v: Vec<Json>)
    ensures
        Json::Array(v)@ == SJson::Array(json_models(v@)),
{
    assert(Json::Array(v)@->Array_0 =~= json_models(v@));
}

/// The model of an object is the list of its entries' models.
pub proof fn lemma_json_object_model(m: Vec<(String, Json)>)
    ensures
        Json::Object(m)@ == SJson::Object(json_entry_models(m@)),
{
    assert(Json::Object(m)@->Object_0 =~= json_entry_models(m@));
}

/// The value that a JSON document denotes: strings, booleans and null as
/// themselves; a number as an integer where it reads as an `i64`, else as
/// a float where it reads as an `f64`, else unsupported; arrays item by
/// item; objects entry by entry, each entry set in turn, so that keys end
/// up sorted. The first unsupported item or entry makes the whole
/// unsupported.
pub open spec fn json_value(j: SJson) -> Result<SValue, Seq<char>>
    decreases j, 1int,
{
    match j {
        SJson::Str(s) => Ok(SValue::Str(s)),
        SJson::Number(n) => match n.as_i64 {
            Some(i) => Ok(SValue::Int(i)),
            None => match n.as_f64 {
                Some(b) => Ok(SValue::Float(b)),
                None => Err("Unsupported value type"@),
            },
        },
        SJson::Bool(b) => Ok(SValue::Bool(b)),
        SJson::Null => Ok(SValue::Null),
        SJson::Array(items) => match json_items(items) {
            Ok(vs) => Ok(SValue::Array(vs)),
            Err(e) => Err(e),
        },
        SJson::Object(es) => match json_entries(es) {
            Ok(ps) => Ok(SValue::Object(insert_all(Seq::empty(), ps))),
            Err(e) => Err(e),
        },
    }
}

/// The values of a list of documents, or the first item's error.
pub open spec fn json_items(items: Seq<SJson>) -> Result<Seq<SValue>, Seq<char>>
    decreases items, 0int,
{
    if items.len() == 0 {
        Ok(Seq::empty())
    } else {
        match json_items(items.subrange(0, items.len() - 1)) {
            Err(e) => Err(e),
            Ok(vs) => match json_value(items[items.len() - 1]) {
                Ok(v) => Ok(vs.push(v)),
                Err(e) => Err(e),
            },
        }
    }
}

/// The keys with the values of a list of entries, or the first entry's
/// error.
pub open spec fn json_entries(es: Seq<(Seq<char>, SJson)>) -> Result<Seq<(Seq<char>, SValue)>, Seq<char>>
    decreases es, 0int,
{
    if es.len() == 0 {
        Ok(Seq::empty())
    } else {
        match json_entries(es.subrange(0, es.len() - 1)) {
            Err(e) => Err(e),
            Ok(ps) => match json_value(es[es.len() - 1].1) {
                Ok(v) => Ok(ps.push((es[es.len() - 1].0, v))),
                Err(e) => Err(e),
            },
        }
    }
}

/// An error of some first items is the error of all of them.
proof fn lemma_json_items_prefix(s: Seq<SJson>, n: int)
    requires
        0 <= n <= s.len(),
        json_items(s.subrange(0, n)) is Err,
    ensures
        json_items(s) == json_items(s.subrange(0, n)),
    decreases s.len(),
{
    if n == s.len() {
        assert(s.subrange(0, n) =~= s);
    } else {
        let t = s.subrange(0, s.len() - 1);
        assert(t.subrange(0, n) =~= s.subrange(0, n));
        lemma_json_items_prefix(t, n);
    }
}

/// An error of some first entries is the error of all of them.
proof fn lemma_json_entries_prefix(s: Seq<(Seq<char>, SJson)>, n: int)
    requires
        0 <= n <= s.len(),
        json_entries(s.subrange(0, n)) is Err,
    ensures
        json_entries(s) == json_entries(s.subrange(0, n)),
    decreases s.len(),
{
    if n == s.len() {
        assert(s.subrange(0, n) =~= s);
    } else {
        let t = s.subrange(0, s.len() - 1);
        assert(t.subrange(0, n) =~= s.subrange(0, n));
        lemma_json_entries_prefix(t, n);
    }
}

/// A result that agrees with a modelled one.
pub open spec fn value_res(r: Result<Value, String>, m: Result<SValue, Seq<char>>) -> bool {
    match m {
        Ok(v) => r matches Ok(x) && x@ == v,
        Err(e) => r matches Err(x) && x@ == e,
    }
}

impl Value {
    /// The value that a JSON document denotes, or why it has none.
    pub fn from_json_object(value: Json) -> (r: Result<Value, String>)
        ensures
            value_res(r, json_value(value@)),
    {
        Value::from_json_object_ref(&value)
    }

    /// The value that a borrowed JSON document denotes, or why it has none.
    pub fn from_json_object_ref(value: &Json) -> (r: Result<Value, String>)
        ensures
            value_res(r, json_value(value@)),
        decreases value@,
    {
        match value {
            Json::String(s) => Ok(Value::String(s.clone())),
            Json::Number(n) => match n.as_i64 {
                Some(i) => Ok(Value::Int(i)),
                None => match n.as_f64 {
                    Some(b) => Ok(Value::Float(b)),
                    None => Err(lit("Unsupported value type")),
                },
            },
            Json::Bool(b) => Ok(Value::Bool(*b)),
            Json::Null => Ok(Value::Null),
            Json::Array(items) => {
                proof {
                    lemma_json_array_model(*items);
                }
                let ghost src = json_models(items@);
                let mut out: Vec<Value> = Vec::new();
                let mut i: usize = 0;
                proof {
                    assert(src.subrange(0, 0) =~= Seq::<SJson>::empty());
                    assert(models(out@) =~= Seq::<SValue>::empty());
                }
                while i < items.len()
                    invariant
                        i <= items@.len(),
                        *value == Json::Array(*items),
                        value@ == SJson::Array(src),
                        src == json_models(items@),
                        json_items(src.subrange(0, i as int)) == Ok::<Seq<SValue>, Seq<char>>(models(out@)),
                    decreases items@.len() - i,
                {
                    proof {
                        assert(src[i as int] == items@[i as int]@);
                        assert(decreases_to!(value@ => src));
                        assert(decreases_to!(src => src[i as int]));
                        assert(src.subrange(0, i + 1).subrange(0, i as int) =~= src.subrange(0, i as int));
                        assert(src.subrange(0, i + 1)[i as int] == src[i as int]);
                    }
                    match Value::from_json_object_ref(&items[i]) {
                        Err(e) => {
                            proof {
                                lemma_json_items_prefix(src, i + 1);
                            }
                            return Err(e);
                        },
                        Ok(v) => {
                            let ghost before = out@;
                            out.push(v);
                            proof {
                                assert(models(out@) =~= models(before).push(v@));
                            }
                        },
                    }
                    i = i + 1;
                }
                proof {
                    assert(src.subrange(0, items@.len() as int) =~= src);
                    lemma_array_model(out);
                }
                Ok(Value::Array(out))
            },
            Json::Object(es) => {
                proof {
                    lemma_json_object_model(*es);
                }
                let ghost src = json_entry_models(es@);
                let ghost mut ps: Seq<(Seq<char>, SValue)> = Seq::empty();
                let mut m: Vec<(String, Value)> = Vec::new();
                let mut i: usize = 0;
                proof {
                    assert(entry_models(m@) =~= Seq::<(Seq<char>, SValue)>::empty());
                    assert(src.subrange(0, 0) =~= Seq::<(Seq<char>, SJson)>::empty());
                }
                while i < es.len()
                    invariant
                        i <= es@.len(),
                        *value == Json::Object(*es),
                        value@ == SJson::Object(src),
                        src == json_entry_models(es@),
                        json_entries(src.subrange(0, i as int)) == Ok::<Seq<(Seq<char>, SValue)>, Seq<char>>(ps),
                        entry_models(m@) == insert_all(Seq::empty(), ps),
                    decreases es@.len() - i,
                {
                    proof {
                        assert(src[i as int] == (es@[i as int].0@, es@[i as int].1@));
                        assert(decreases_to!(value@ => src));
                        assert(decreases_to!(src => src[i as int]));
                        assert(decreases_to!(src[i as int] => src[i as int].1));
                        assert(src.subrange(0, i + 1).subrange(0, i as int) =~= src.subrange(0, i as int));
                        assert(src.subrange(0, i + 1)[i as int] == src[i as int]);
                    }
                    match Value::from_json_object_ref(&es[i].1) {
                        Err(e) => {
                            proof {
                                lemma_json_entries_prefix(src, i + 1);
                            }
                            return Err(e);
                        },
                        Ok(v) => {
                            let k = es[i].0.clone();
                            proof {
                                lemma_insert_all_push(Seq::empty(), ps, (k@, v@));
                            }
                            let ghost vm = v@;
                            object_insert(&mut m, k, v);
                            proof {
                                ps = ps.push((es@[i as int].0@, vm));
                            }
                        },
                    }
                    i = i + 1;
                }
                proof {
                    assert(src.subrange(0, es@.len() as int) =~= src);
                    lemma_insert_all_sorted(Seq::<(Seq<char>, SValue)>::empty(), ps);
                }
                Ok(Value::from_sorted_entries(m))
            },
        }
    }
}

/// A value read as a JSON document: an integer reads as an `i64` and, by
/// `fi`, as an `f64`; a float only as an `f64`; arrays and objects item by
/// item, entry by entry.
pub open spec fn value_json(v: SValue, fi: spec_fn(i64) -> u64) -> SJson
    decreases v,
{
    match v {
        SValue::Int(i) => SJson::Number(JsonNumber { as_i64: Some(i), as_f64: Some(fi(i)) }),
        SValue::Float(b) => SJson::Number(JsonNumber { as_i64: None, as_f64: Some(b) }),
        SValue::Bool(b) => SJson::Bool(b),
        SValue::Str(s) => SJson::Str(s),
        SValue::Null => SJson::Null,
        SValue::Array(xs) => SJson::Array(
            Seq::new(xs.len(), |i: int| if 0 <= i < xs.len() { value_json(xs[i], fi) } else { SJson::Null }),
        ),
        SValue::Object(es) => SJson::Object(
            Seq::new(
                es.len(),
                |i: int|
                    if 0 <= i < es.len() {
                        (es[i].0, value_json(es[i].1, fi))
                    } else {
                        (Seq::empty(), SJson::Null)
                    },
            ),
        ),
    }
}

impl Value {
    /// The integer, where the value is one.
    pub fn as_i64(&self) -> (r: Option<i64>)
        ensures
            r == match self@ {
                SValue::Int(i) => Some(i),
                _ => None,
            },
    {
        match self {
            Value::Int(i) => Some(*i),
            _ => None,
        }
    }

    /// The integer, where the value is one and not negative.
    pub fn as_u64(&self) -> (r: Option<u64>)
        ensures
            r == match self@ {
                SValue::Int(i) => if i >= 0 { Some(i as u64) } else { None },
                _ => None,
            },
    {
        match self {
            Value::Int(i) => if *i >= 0 { Some(*i as u64) } else { None },
            _ => None,
        }
    }

    /// The value as a float (by its bits): a float as itself, an integer as
    /// the float nearest to it.
    pub fn as_f64<P, T, D, I>(&self, fs: &FloatSupport<P, T, D, I>) -> (r: Option<u64>) where
        P: Fn(&str) -> Option<u64>,
        T: Fn(u64) -> String,
        D: Fn(u64) -> String,
        I: Fn(i64) -> u64,

        requires
            fs.wf(),
        ensures
            r == match self@ {
                SValue::Float(b) => Some(b),
                SValue::Int(i) => Some((fs.spec().from_i64)(i)),
                _ => None,
            },
    {
        match self {
            Value::Float(b) => Some(*b),
            Value::Int(i) => Some(fs.float_from_i64(*i)),
            _ => None,
        }
    }

    /// The boolean, where the value is one.
    pub fn as_bool(&self) -> (r: Option<bool>)
        ensures
            r == match self@ {
                SValue::Bool(b) => Some(b),
                _ => None,
            },
    {
        match self {
            Value::Bool(b) => Some(*b),
            _ => None,
        }
    }

    /// The string, where the value is one.
    pub fn as_str(&self) -> (r: Option<&str>)
        ensures
            match self@ {
                SValue::Str(s) => r matches Some(x) && x@ == s,
                _ => r is None,
            },
    {
        match self {
            Value::String(s) => Some(s.as_str()),
            _ => None,
        }
    }

    /// Something where the value is null.
    pub fn as_null(&self) -> (r: Option<()>)
        ensures
            r is Some <==> self@ is Null,
    {
        match self {
            Value::Null => Some(()),
            _ => None,
        }
    }

    /// The items, where the value is an array.
    pub fn as_array(&self) -> (r: Option<&Vec<Value>>)
        ensures
            match self {
                Value::Array(v) => r == Some(v),
                _ => r is None,
            },
    {
        match self {
            Value::Array(v) => Some(v),
            _ => None,
        }
    }

    /// The entries, where the value is an object.
    pub fn as_object(&self) -> (r: Option<&ObjectMap>)
        ensures
            match self {
                Value::Object(m) => r == Some(m),
                _ => r is None,
            },
    {
        match self {
            Value::Object(m) => Some(m),
            _ => None,
        }
    }

    /// The items, where the value is an array.
    pub fn into_array(self) -> (r: Option<Vec<Value>>)
        ensures
            match self {
                Value::Array(v) => r == Some(v),
                _ => r is None,
            },
    {
        match self {
            Value::Array(v) => Some(v),
            _ => None,
        }
    }

    /// The entries, where the value is an object.
    pub fn into_object(self) -> (r: Option<Vec<(String, Value)>>)
        ensures
            match self@ {
                SValue::Object(es) => r matches Some(v) && entry_models(v@) == es,
                _ => r is None,
            },
    {
        match self {
            Value::Object(m) => Some(m.into_entries()),
            _ => None,
        }
    }

    /// The string, where the value is one.
    pub fn into_string(self) -> (r: Option<String>)
        ensures
            match self {
                Value::String(s) => r == Some(s),
                _ => r is None,
            },
    {
        match self {
            Value::String(s) => Some(s),
            _ => None,
        }
    }

    /// The value read as a JSON document: see [`value_json`]. The document
    /// denotes the value again: [`Value::from_json_object`] gives it back.
    pub fn to_json<P, T, D, I>(&self, fs: &FloatSupport<P, T, D, I>) -> (r: Json) where
        P: Fn(&str) -> Option<u64>,
        T: Fn(u64) -> String,
        D: Fn(u64) -> String,
        I: Fn(i64) -> u64,

        requires
            fs.wf(),
        ensures
            r@ == value_json(self@, fs.spec().from_i64),
            json_value(r@) == Ok::<SValue, Seq<char>>(self@),
    {
        let r = self.json_of(fs);
        proof {
            law_value_json_round_trip(self@, fs.spec().from_i64);
        }
        r
    }

    /// The value read as a JSON document, and that the value's objects hold
    /// their keys in order at every depth.
    fn json_of<P, T, D, I>(&self, fs: &FloatSupport<P, T, D, I>) -> (r: Json) where
        P: Fn(&str) -> Option<u64>,
        T: Fn(u64) -> String,
        D: Fn(u64) -> String,
        I: Fn(i64) -> u64,

        requires
            fs.wf(),
        ensures
            r@ == value_json(self@, fs.spec().from_i64),
            well_formed(self@),
        decreases self@,
    {
        let ghost fi = fs.spec().from_i64;
        match self {
            Value::Int(i) => Json::Number(JsonNumber { as_i64: Some(*i), as_f64: Some(fs.float_from_i64(*i)) }),
            Value::Float(b) => Json::Number(JsonNumber { as_i64: None, as_f64: Some(*b) }),
            Value::Bool(b) => Json::Bool(*b),
            Value::String(s) => Json::String(s.clone()),
            Value::Null => Json::Null,
            Value::Array(xs) => {
                proof {
                    lemma_array_model(*xs);
                }
                let mut out: Vec<Json> = Vec::new();
                let mut i: usize = 0;
                while i < xs.len()
                    invariant
                        i <= xs@.len(),
                        fs.wf(),
                        fi == fs.spec().from_i64,
                        *self == Value::Array(*xs),
                        self@ == SValue::Array(models(xs@)),
                        out@.len() == i,
                        forall|j: int| 0 <= j < i ==> #[trigger] out@[j]@ == value_json(xs@[j]@, fi),
                        forall|j: int| 0 <= j < i ==> #[trigger] well_formed(models(xs@)[j]),
                    decreases xs@.len() - i,
                {
                    proof {
                        assert(self@->Array_0[i as int] == xs@[i as int]@);
                        assert(decreases_to!(self@ => self@->Array_0));
                        assert(decreases_to!(self@->Array_0 => self@->Array_0[i as int]));
                    }
                    let j = xs[i].json_of(fs);
                    out.push(j);
                    proof {
                        assert(models(xs@)[i as int] == xs@[i as int]@);
                    }
                    i = i + 1;
                }
                proof {
                    lemma_json_array_model(out);
                    assert(json_models(out@) =~= value_json(self@, fi)->Array_0);
                    lemma_items_well_formed(models(xs@));
                }
                Json::Array(out)
            },
            Value::Object(es_map) => {
                let es = &es_map.entries;
                proof {
                    lemma_object_model(*es_map);
                    use_type_invariant(es_map);
                }
                let mut out: Vec<(String, Json)> = Vec::new();
                let mut i: usize = 0;
                while i < es.len()
                    invariant
                        i <= es@.len(),
                        fs.wf(),
                        fi == fs.spec().from_i64,
                        *self == Value::Object(*es_map),
                        es == &es_map.entries,
                        self@ == SValue::Object(entry_models(es@)),
                        out@.len() == i,
                        forall|j: int| 0 <= j < i ==> #[trigger] out@[j].0@ == es@[j].0@ && out@[j].1@
                            == value_json(es@[j].1@, fi),
                        forall|j: int| 0 <= j < i ==> #[trigger] well_formed(entry_models(es@)[j].1),
                    decreases es@.len() - i,
                {
                    proof {
                        assert(self@->Object_0[i as int] == (es@[i as int].0@, es@[i as int].1@));
                        assert(decreases_to!(self@ => self@->Object_0));
                        assert(decreases_to!(self@->Object_0 => self@->Object_0[i as int]));
                        assert(decreases_to!(self@->Object_0[i as int] => self@->Object_0[i as int].1));
                    }
                    let k = es[i].0.clone();
                    let j = es[i].1.json_of(fs);
                    out.push((k, j));
                    proof {
                        assert(entry_models(es@)[i as int].1 == es@[i as int].1@);
                    }
                    i = i + 1;
                }
                proof {
                    lemma_json_object_model(out);
                    assert(json_entry_models(out@) =~= value_json(self@, fi)->Object_0);
                    lemma_entries_well_formed(entry_models(es@));
                }
                Json::Object(out)
            },
        }
    }
}

/// A YAML number, held by what reading it as an `i64`, a `u64` and an
/// `f64` gives (the float by its bits), and by its text.
#[derive(Debug, Clone, PartialEq, Eq)]
pub struct YamlNumber {
    pub as_i64: Option<i64>,
    pub as_u64: Option<u64>,
    pub as_f64: Option<u64>,
    pub text: String,
}

/// A key of a YAML mapping: a scalar, or another node, known by the text
/// that its `Debug` writes.
#[derive(Debug, PartialEq, Eq)]
pub enum YamlKey {
    Null,
    Bool(bool),
    Number(YamlNumber),
    String(String),
    Other(String),
}

/// A YAML document. A tagged node is held by its value; the tag plays no
/// part here.
#[derive(Debug, PartialEq)]
pub enum Yaml {
    Null,
    Bool(bool),
    Number(YamlNumber),
    String(String),
    Sequence(Vec<Yaml>),
    Mapping(Vec<(YamlKey, Yaml)>),
    Tagged(Box<Yaml>),
}

/// The model of a [`YamlNumber`].
pub struct SYamlNumber {
    pub as_i64: Option<i64>,
    pub as_u64: Option<u64>,
    pub as_f64: Option<u64>,
    pub text: Seq<char>,
}

/// The model of a [`YamlKey`].
pub enum SYamlKey {
    Null,
    Bool(bool),
    Number(SYamlNumber),
    Str(Seq<char>),
    Other(Seq<char>),
}

/// The model of a [`Yaml`].
pub enum SYaml {
    Null,
    Bool(bool),
    Number(SYamlNumber),
    Str(Seq<char>),
    Sequence(Seq<SYaml>),
    Mapping(Seq<(SYamlKey, SYaml)>),
    Tagged(Box<SYaml>),
}

impl View for YamlNumber {
    type V = SYamlNumber;

    open spec fn view(&self) -> SYamlNumber {
        SYamlNumber { as_i64: self.as_i64, as_u64: self.as_u64, as_f64: self.as_f64, text: self.text@ }
    }
}

impl View for YamlKey {
    type V = SYamlKey;

    open spec fn view(&self) -> SYamlKey {
        match self {
            YamlKey::Null => SYamlKey::Null,
            YamlKey::Bool(b) => SYamlKey::Bool(*b),
            YamlKey::Number(n) => SYamlKey::Number(n@),
            YamlKey::String(s) => SYamlKey::Str(s@),
            YamlKey::Other(d) => SYamlKey::Other(d@),
        }
    }
}

impl Yaml {
    /// The model of the document.
    pub open spec fn model(self) -> SYaml
        decreases self,
    {
        match self {
            Yaml::Null => SYaml::Null,
            Yaml::Bool(b) => SYaml::Bool(b),
            Yaml::Number(n) => SYaml::Number(n@),
            Yaml::String(s) => SYaml::Str(s@),
            Yaml::Sequence(v) => SYaml::Sequence(
                Seq::new(v@.len(), |i: int| if 0 <= i < v@.len() { v@[i].model() } else { SYaml::Null }),
            ),
            Yaml::Mapping(m) => SYaml::Mapping(
                Seq::new(
                    m@.len(),
                    |i: int|
                        if 0 <= i < m@.len() {
                            (m@[i].0@, m@[i].1.model())
                        } else {
                            (SYamlKey::Null, SYaml::Null)
                        },
                ),
            ),
            Yaml::Tagged(inner) => SYaml::Tagged(Box::new((*inner).model())),
        }
    }
}

impl View for Yaml {
    type V = SYaml;

    open spec fn view(&self) -> SYaml {
        self.model()
    }
}

/// The models of a list of YAML documents.
pub open spec fn yaml_models(v: Seq<Yaml>) -> Seq<SYaml> {
    v.map_values(|x: Yaml| x@)
}

/// The models of a list of YAML mapping entries.
pub open spec fn yaml_entry_models(m: Seq<(YamlKey, Yaml)>) -> Seq<(SYamlKey, SYaml)> {
    m.map_values(|e: (YamlKey, Yaml)| (e.0@, e.1@))
}

/// JSON entries keyed by texts, with their documents' models.
pub open spec fn json_keyed_models(m: Seq<(Seq<char>, Json)>) -> Seq<(Seq<char>, SJson)> {
    m.map_values(|e: (Seq<char>, Json)| (e.0, e.1@))
}

/// The text that a mapping key becomes: a string as itself, a number as
/// its text, a boolean and null as their words; any other key cannot be a
/// JSON key.
pub open spec fn key_text(k: SYamlKey) -> Result<Seq<char>, Seq<char>> {
    match k {
        SYamlKey::Str(s) => Ok(s),
        SYamlKey::Number(n) => Ok(n.text),
        SYamlKey::Bool(b) => Ok(if b { "true"@ } else { "false"@ }),
        SYamlKey::Null => Ok("null"@),
        SYamlKey::Other(d) => Err(
            "Failed to convert YAML key '"@ + d + "' to string - Only string keys are supported in JSON mappings"@,
        ),
    }
}

/// The JSON number that a YAML number becomes: an integer that reads as an
/// `i64` or a `u64` stays an integer, else a float stays a float where it
/// is finite (JSON has no infinities or NaN). The new number reads as an
/// `f64` as the YAML number does.
pub open spec fn number_json(n: SYamlNumber, text: spec_fn(u64) -> Seq<char>) -> Result<SJson, Seq<char>> {
    match n.as_i64 {
        Some(i) => Ok(SJson::Number(JsonNumber { as_i64: Some(i), as_f64: n.as_f64 })),
        None => match n.as_u64 {
            Some(u) => Ok(
                SJson::Number(
                    JsonNumber { as_i64: if u <= i64::MAX { Some(u as i64) } else { None }, as_f64: n.as_f64 },
                ),
            ),
            None => match n.as_f64 {
                Some(f) => if float_finite(f) {
                    Ok(SJson::Number(JsonNumber { as_i64: None, as_f64: Some(f) }))
                } else {
                    Err("Failed to convert float "@ + text(f) + " to JSON number"@)
                },
                None => Err("Invalid YAML number: "@ + n.text),
            },
        },
    }
}

/// The JSON document that a YAML document becomes: scalars as themselves,
/// sequences item by item, mappings entry by entry with their keys made
/// texts, tagged nodes as their values. A key that makes no text, or a text
/// that an earlier key of the mapping made already, is an error; the first
/// error met is the outcome.
pub open spec fn yaml_json(y: SYaml, text: spec_fn(u64) -> Seq<char>) -> Result<SJson, Seq<char>>
    decreases y, 1int,
{
    match y {
        SYaml::Null => Ok(SJson::Null),
        SYaml::Bool(b) => Ok(SJson::Bool(b)),
        SYaml::Str(s) => Ok(SJson::Str(s)),
        SYaml::Number(n) => number_json(n, text),
        SYaml::Sequence(items) => match yaml_items(items, text) {
            Ok(js) => Ok(SJson::Array(js)),
            Err(e) => Err(e),
        },
        SYaml::Mapping(es) => match yaml_entries(es, text) {
            Ok(m) => Ok(SJson::Object(m)),
            Err(e) => Err(e),
        },
        SYaml::Tagged(inner) => yaml_json(*inner, text),
    }
}

/// The JSON documents of a list of YAML documents, or the first error.
pub open spec fn yaml_items(items: Seq<SYaml>, text: spec_fn(u64) -> Seq<char>) -> Result<Seq<SJson>, Seq<char>>
    decreases items, 0int,
{
    if items.len() == 0 {
        Ok(Seq::empty())
    } else {
        match yaml_items(items.subrange(0, items.len() - 1), text) {
            Err(e) => Err(e),
            Ok(js) => match yaml_json(items[items.len() - 1], text) {
                Ok(j) => Ok(js.push(j)),
                Err(e) => Err(e),
            },
        }
    }
}

/// The JSON object entries, sorted by key, of a list of YAML mapping
/// entries, or the first error.
pub open spec fn yaml_entries(es: Seq<(SYamlKey, SYaml)>, text: spec_fn(u64) -> Seq<char>) -> Result<Seq<(Seq<char>, SJson)>, Seq<char>>
    decreases es, 0int,
{
    if es.len() == 0 {
        Ok(Seq::empty())
    } else {
        match yaml_entries(es.subrange(0, es.len() - 1), text) {
            Err(e) => Err(e),
            Ok(m) => match key_text(es[es.len() - 1].0) {
                Err(e) => Err(e),
                Ok(k) => match yaml_json(es[es.len() - 1].1, text) {
                    Err(e) => Err(e),
                    Ok(j) => if lookup(m, k) is Some {
                        Err("Duplicate key found in YAML mapping: "@ + k)
                    } else {
                        Ok(sorted_insert(m, k, j))
                    },
                },
            },
        }
    }
}

/// An error of some first items is the error of all of them.
proof fn lemma_yaml_items_prefix(s: Seq<SYaml>, n: int, text: spec_fn(u64) -> Seq<char>)
    requires
        0 <= n <= s.len(),
        yaml_items(s.subrange(0, n), text) is Err,
    ensures
        yaml_items(s, text) == yaml_items(s.subrange(0, n), text),
    decreases s.len(),
{
    if n == s.len() {
        assert(s.subrange(0, n) =~= s);
    } else {
        let t = s.subrange(0, s.len() - 1);
        assert(t.subrange(0, n) =~= s.subrange(0, n));
        lemma_yaml_items_prefix(t, n, text);
    }
}

/// An error of some first entries is the error of all of them.
proof fn lemma_yaml_entries_prefix(s: Seq<(SYamlKey, SYaml)>, n: int, text: spec_fn(u64) -> Seq<char>)
    requires
        0 <= n <= s.len(),
        yaml_entries(s.subrange(0, n), text) is Err,
    ensures
        yaml_entries(s, text) == yaml_entries(s.subrange(0, n), text),
    decreases s.len(),
{
    if n == s.len() {
        assert(s.subrange(0, n) =~= s);
    } else {
        let t = s.subrange(0, s.len() - 1);
        assert(t.subrange(0, n) =~= s.subrange(0, n));
        lemma_yaml_entries_prefix(t, n, text);
    }
}

/// Setting a key commutes with taking the documents' models.
proof fn lemma_json_sorted_insert(m: Seq<(Seq<char>, Json)>, key: Seq<char>, val: Json)
    ensures
        json_keyed_models(sorted_insert(m, key, val)) == sorted_insert(json_keyed_models(m), key, val@),
    decreases m.len(),
{
    let mm = json_keyed_models(m);
    let r = sorted_insert(m, key, val);
    if m.len() == 0 {
        assert(json_keyed_models(r) =~= seq![(key, val@)]);
    } else if m[0].0 == key {
        assert(json_keyed_models(r) =~= mm.update(0, (key, val@)));
    } else if crate::text::seq_lt(key, m[0].0) {
        assert(json_keyed_models(r) =~= seq![(key, val@)] + mm);
    } else {
        lemma_json_sorted_insert(m.drop_first(), key, val);
        assert(json_keyed_models(m.drop_first()) =~= mm.drop_first());
        assert(r == seq![m[0]] + sorted_insert(m.drop_first(), key, val));
        assert(json_keyed_models(r) =~= seq![mm[0]] + json_keyed_models(sorted_insert(m.drop_first(), key, val)));
    }
}

/// The text of a mapping key, or why it has none.
fn key_to_text(k: &YamlKey) -> (r: Result<String, String>)
    ensures
        match key_text(k@) {
            Ok(s) => r matches Ok(x) && x@ == s,
            Err(e) => r matches Err(x) && x@ == e,
        },
{
    match k {
        YamlKey::String(s) => Ok(s.clone()),
        YamlKey::Number(n) => Ok(n.text.clone()),
        YamlKey::Bool(b) => Ok(if *b { lit("true") } else { lit("false") }),
        YamlKey::Null => Ok(lit("null")),
        YamlKey::Other(d) => {
            let mut s = lit("Failed to convert YAML key '");
            push_all(&mut s, d.as_str());
            push_all(&mut s, "' to string - Only string keys are supported in JSON mappings");
            Err(s)
        },
    }
}

/// A result that agrees with a modelled one.
pub open spec fn json_res(r: Result<Json, String>, m: Result<SJson, Seq<char>>) -> bool {
    match m {
        Ok(j) => r matches Ok(x) && x@ == j,
        Err(e) => r matches Err(x) && x@ == e,
    }
}

/// The JSON number that a YAML number becomes, or why it has none.
fn number_to_json<P, T, D, I>(n: &YamlNumber, fs: &FloatSupport<P, T, D, I>) -> (r: Result<Json, String>) where
    P: Fn(&str) -> Option<u64>,
    T: Fn(u64) -> String,
    D: Fn(u64) -> String,
    I: Fn(i64) -> u64,

    requires
        fs.wf(),
    ensures
        json_res(r, number_json(n@, fs.spec().text)),
{
    match n.as_i64 {
        Some(i) => Ok(Json::Number(JsonNumber { as_i64: Some(i), as_f64: n.as_f64 })),
        None => match n.as_u64 {
            Some(u) => {
                let i = if u <= 0x7fff_ffff_ffff_ffff { Some(u as i64) } else { None };
                Ok(Json::Number(JsonNumber { as_i64: i, as_f64: n.as_f64 }))
            },
            None => match n.as_f64 {
                Some(f) => {
                    if float_finite_exec(f) {
                        Ok(Json::Number(JsonNumber { as_i64: None, as_f64: Some(f) }))
                    } else {
                        let mut s = lit("Failed to convert float ");
                        let t = fs.float_text(f);
                        push_all(&mut s, t.as_str());
                        push_all(&mut s, " to JSON number");
                        Err(s)
                    }
                },
                None => {
                    let mut s = lit("Invalid YAML number: ");
                    push_all(&mut s, n.text.as_str());
                    Err(s)
                },
            },
        },
    }
}

/// The JSON document that a YAML document becomes, or why it has none.
fn yaml_to_json<P, T, D, I>(value: &Yaml, fs: &FloatSupport<P, T, D, I>) -> (r: Result<Json, String>) where
    P: Fn(&str) -> Option<u64>,
    T: Fn(u64) -> String,
    D: Fn(u64) -> String,
    I: Fn(i64) -> u64,

    requires
        fs.wf(),
    ensures
        json_res(r, yaml_json(value@, fs.spec().text)),
    decreases value@,
{
    let ghost text = fs.spec().text;
    match value {
        Yaml::Null => Ok(Json::Null),
        Yaml::Bool(b) => Ok(Json::Bool(*b)),
        Yaml::String(s) => Ok(Json::String(s.clone())),
        Yaml::Number(n) => number_to_json(n, fs),
        Yaml::Tagged(inner) => {
            proof {
                assert(decreases_to!(value@ => (**inner)@));
            }
            yaml_to_json(inner, fs)
        },
        Yaml::Sequence(items) => {
            let ghost src = yaml_models(items@);
            proof {
                assert(value@->Sequence_0 =~= src);
            }
            let mut out: Vec<Json> = Vec::new();
            let mut i: usize = 0;
            proof {
                assert(src.subrange(0, 0) =~= Seq::<SYaml>::empty());
                assert(json_models(out@) =~= Seq::<SJson>::empty());
            }
            while i < items.len()
                invariant
                    i <= items@.len(),
                    fs.wf(),
                    text == fs.spec().text,
                    *value == Yaml::Sequence(*items),
                    value@ == SYaml::Sequence(src),
                    src == yaml_models(items@),
                    yaml_items(src.subrange(0, i as int), text) == Ok::<Seq<SJson>, Seq<char>>(json_models(out@)),
                decreases items@.len() - i,
            {
                proof {
                    assert(src[i as int] == items@[i as int]@);
                    assert(decreases_to!(value@ => src));
                    assert(decreases_to!(src => src[i as int]));
                    assert(src.subrange(0, i + 1).subrange(0, i as int) =~= src.subrange(0, i as int));
                    assert(src.subrange(0, i + 1)[i as int] == src[i as int]);
                }
                match yaml_to_json(&items[i], fs) {
                    Err(e) => {
                        proof {
                            lemma_yaml_items_prefix(src, i + 1, text);
                        }
                        return Err(e);
                    },
                    Ok(j) => {
                        let ghost before = out@;
                        out.push(j);
                        proof {
                            assert(json_models(out@) =~= json_models(before).push(j@));
                        }
                    },
                }
                i = i + 1;
            }
            proof {
                assert(src.subrange(0, items@.len() as int) =~= src);
                lemma_json_array_model(out);
            }
            Ok(Json::Array(out))
        },
        Yaml::Mapping(es) => {
            let ghost src = yaml_entry_models(es@);
            proof {
                assert(value@->Mapping_0 =~= src);
            }
            let mut m: Vec<(String, Json)> = Vec::new();
            let mut i: usize = 0;
            proof {
                assert(src.subrange(0, 0) =~= Seq::<(SYamlKey, SYaml)>::empty());
                assert(json_entry_models(m@) =~= Seq::<(Seq<char>, SJson)>::empty());
            }
            while i < es.len()
                invariant
                    i <= es@.len(),
                    fs.wf(),
                    text == fs.spec().text,
                    *value == Yaml::Mapping(*es),
                    value@ == SYaml::Mapping(src),
                    src == yaml_entry_models(es@),
                    yaml_entries(src.subrange(0, i as int), text) == Ok::<Seq<(Seq<char>, SJson)>, Seq<char>>(
                        json_entry_models(m@),
                    ),
                decreases es@.len() - i,
            {
                let ghost pre = json_entry_models(m@);
                proof {
                    assert(src[i as int] == (es@[i as int].0@, es@[i as int].1@));
                    assert(decreases_to!(value@ => src));
                    assert(decreases_to!(src => src[i as int]));
                    assert(decreases_to!(src[i as int] => src[i as int].1));
                    assert(src.subrange(0, i + 1).subrange(0, i as int) =~= src.subrange(0, i as int));
                    assert(src.subrange(0, i + 1)[i as int] == src[i as int]);
                }
                let k = match key_to_text(&es[i].0) {
                    Err(e) => {
                        proof {
                            lemma_yaml_entries_prefix(src, i + 1, text);
                        }
                        return Err(e);
                    },
                    Ok(k) => k,
                };
                let j = match yaml_to_json(&es[i].1, fs) {
                    Err(e) => {
                        proof {
                            lemma_yaml_entries_prefix(src, i + 1, text);
                        }
                        return Err(e);
                    },
                    Ok(j) => j,
                };
                proof {
                    assert(json_entry_models(m@) =~= json_keyed_models(keyed(m@)));
                    lemma_first_index(keyed(m@), k@);
                    lemma_first_index(pre, k@);
                    assert forall|x: int| 0 <= x < m@.len() implies #[trigger] keyed(m@)[x].0 == pre[x].0 by {}
                }
                match table_find(&m, k.as_str()) {
                    Some(_) => {
                        let mut s = lit("Duplicate key found in YAML mapping: ");
                        push_all(&mut s, k.as_str());
                        proof {
                            lemma_yaml_entries_prefix(src, i + 1, text);
                        }
                        return Err(s);
                    },
                    None => {},
                }
                let ghost km = keyed(m@);
                let ghost jm = j@;
                let ghost kk = k@;
                table_insert(&mut m, k, j);
                proof {
                    lemma_json_sorted_insert(km, kk, j);
                    assert(json_entry_models(m@) =~= json_keyed_models(keyed(m@)));
                }
                i = i + 1;
            }
            proof {
                assert(src.subrange(0, es@.len() as int) =~= src);
                lemma_json_object_model(m);
            }
            Ok(Json::Object(m))
        },
    }
}

/// The JSON document that a YAML document becomes, or why it has none:
/// see [`yaml_json`].
pub fn normalize_into_json<P, T, D, I>(value: Yaml, fs: &FloatSupport<P, T, D, I>) -> (r: Result<Json, String>) where
    P: Fn(&str) -> Option<u64>,
    T: Fn(u64) -> String,
    D: Fn(u64) -> String,
    I: Fn(i64) -> u64,

    requires
        fs.wf(),
    ensures
        json_res(r, yaml_json(value@, fs.spec().text)),
{
    yaml_to_json(&value, fs)
}

} // verus!
