//! The texts of values: the one that `string()` and `format()` give, and
//! the debugging one that conversion errors quote.
use vstd::prelude::*;
use crate::text::{i64_text, int_text, lit, push_all, push_char, str_chars};
use crate::value::{
    SValue, Value, entry_models, escape_char, escape_json, join_texts, lemma_array_model,
    lemma_object_model, models, quoted, render, render_stops, item_texts, entry_texts,
};
use crate::float::{FloatSupport, FloatSpec};

verus! {

broadcast use vstd::string::group_string_axioms;

/// The text that `Debug` writes for a string: quoted, with escapes.
pub uninterp spec fn str_debug_text(s: Seq<char>) -> Seq<char>;

/// `<str as Debug>::fmt`: the string in double quotes, with the escapes
/// that `char::escape_debug` gives. Its result is named, not stated.
#[verifier::external_body]
fn str_debug(s: &str) -> (r: String)
    ensures
        r@ == str_debug_text(s@),
{
    format!("{:?}", s)
}

/// The `Debug` text of a value, as a derived `Debug` writes it;
/// `fd` gives the `Debug` text of a float.
pub open spec fn debug_render(v: SValue, fd: spec_fn(u64) -> Seq<char>) -> Seq<char>
    decreases v, 1int,
{
    match v {
        SValue::Int(i) => "Int("@ + int_text(i as int) + ")"@,
        SValue::Float(b) => "Float("@ + fd(b) + ")"@,
        SValue::Bool(b) => "Bool("@ + (if b { "true"@ } else { "false"@ }) + ")"@,
        SValue::Str(s) => "String("@ + str_debug_text(s) + ")"@,
        SValue::Null => "Null"@,
        SValue::Array(xs) => "Array(["@ + join_texts(debug_items(xs, fd), ", "@) + "])"@,
        SValue::Object(xs) => "Object({"@ + join_texts(debug_entries(xs, fd), ", "@) + "})"@,
    }
}

/// The `Debug` texts of array items.
pub open spec fn debug_items(xs: Seq<SValue>, fd: spec_fn(u64) -> Seq<char>) -> Seq<Seq<char>>
    decreases xs, 0int,
{
    Seq::new(xs.len(), |i: int| if 0 <= i < xs.len() { debug_render(xs[i], fd) } else { Seq::empty() })
}

/// The `Debug` texts of object entries: the key's, a colon, the value's.
pub open spec fn debug_entries(xs: Seq<(Seq<char>, SValue)>, fd: spec_fn(u64) -> Seq<char>) -> Seq<Seq<char>>
    decreases xs, 0int,
{
    Seq::new(
        xs.len(),
        |i: int|
            if 0 <= i < xs.len() {
                str_debug_text(xs[i].0) + ": "@ + debug_render(xs[i].1, fd)
            } else {
                Seq::empty()
            },
    )
}

/// Joining one more part.
pub proof fn lemma_join_step(parts: Seq<Seq<char>>, i: int, sep: Seq<char>)
    requires
        0 <= i < parts.len(),
    ensures
        join_texts(parts.take(i + 1), sep) == if i == 0 {
            parts[0]
        } else {
            join_texts(parts.take(i), sep) + sep + parts[i]
        },
{
    let t = parts.take(i + 1);
    assert(t.drop_last() =~= parts.take(i));
    assert(t.last() == parts[i]);
}

/// The text with JSON escapes, unless it holds a single quote: the escaping
/// matches that character but has no replacement for it, and stops.
pub fn escape_str_for_json(s: &str) -> (r: Option<String>)
    ensures
        r is None <==> s@.contains('\''),
        r matches Some(t) ==> t@ == escape_json(s@),
{
    let cs = str_chars(s);
    let mut out = String::new();
    let mut i: usize = 0;
    proof {
        assert(cs@.take(0) =~= Seq::<char>::empty());
    }
    while i < cs.len()
        invariant
            i <= cs@.len(),
            cs@ == s@,
            out@ == escape_json(cs@.take(i as int)),
            forall|j: int| 0 <= j < i ==> cs@[j] != '\'',
        decreases cs@.len() - i,
    {
        let c = cs[i];
        if c == '\'' {
            return None;
        }
        if c == '\\' {
            push_char(&mut out, '\\');
            push_char(&mut out, '\\');
        } else if c == '"' {
            push_char(&mut out, '\\');
            push_char(&mut out, '"');
        } else if c == '\n' {
            push_char(&mut out, '\\');
            push_char(&mut out, 'n');
        } else if c == '\r' {
            push_char(&mut out, '\\');
            push_char(&mut out, 'r');
        } else if c == '\t' {
            push_char(&mut out, '\\');
            push_char(&mut out, 't');
        } else {
            push_char(&mut out, c);
        }
        proof {
            let t = cs@.take(i + 1);
            assert(t.drop_last() =~= cs@.take(i as int));
            assert(t.last() == c);
            assert(out@ =~= escape_json(cs@.take(i as int)) + escape_char(c));
        }
        i = i + 1;
    }
    proof {
        assert(cs@.take(i as int) =~= cs@);
        assert(!s@.contains('\''));
    }
    Some(out)
}

/// Whether the text of an array item or object value stops.
pub open spec fn nested_stops(v: SValue) -> bool {
    match v {
        SValue::Str(s) => s.contains('\''),
        _ => render_stops(v),
    }
}

impl Value {
    /// The text of the value as `Display` writes it, or `None` where the
    /// escaping of a string inside an array or object meets a single quote
    /// and stops.
    pub fn display<P, T, D, I>(&self, fs: &FloatSupport<P, T, D, I>) -> (r: Option<String>) where
        P: Fn(&str) -> Option<u64>,
        T: Fn(u64) -> String,
        D: Fn(u64) -> String,
        I: Fn(i64) -> u64,

        requires
            fs.wf(),
        ensures
            r is None <==> render_stops(self@),
            r matches Some(t) ==> t@ == render(self@, fs.spec().text),
        decreases self@,
    {
        let ghost ft = fs.spec().text;
        match self {
            Value::Int(i) => {
                let t = i64_text(*i);
                assert(t@ == render(self@, ft));
                Some(t)
            },
            Value::Float(b) => {
                let t = fs.float_text(*b);
                assert(t@ == render(self@, ft));
                Some(t)
            },
            Value::Bool(b) => {
                let t = if *b { lit("true") } else { lit("false") };
                assert(t@ == render(self@, ft));
                Some(t)
            },
            Value::String(s) => {
                let t = s.clone();
                assert(t@ == render(self@, ft));
                Some(t)
            },
            Value::Null => {
                let t = lit("null");
                assert(t@ == render(self@, ft));
                Some(t)
            },
            Value::Array(xs) => {
                proof {
                    lemma_array_model(*xs);
                }
                let ghost sv = models(xs@);
                let ghost parts = item_texts(sv, ft);
                let mut out = lit("[");
                let mut i: usize = 0;
                proof {
                    reveal_strlit("[");
                    assert(parts.take(0) =~= Seq::<Seq<char>>::empty());
                }
                while i < xs.len()
                    invariant
                        i <= xs@.len(),
                        sv == models(xs@),
                        ft == fs.spec().text,
                        fs.wf(),
                        parts == item_texts(sv, ft),
                        self@ == SValue::Array(sv),
                        out@ == seq!['['] + join_texts(parts.take(i as int), ", "@),
                        forall|j: int| 0 <= j < i ==> !nested_stops(#[trigger] sv[j]),
                    decreases xs@.len() - i,
                {
                    let item = &xs[i];
                    proof {
                        assert(sv[i as int] == item@);
                        lemma_join_step(parts, i as int, ", "@);
                        assert(decreases_to!(self@ => self@->Array_0));
                        assert(decreases_to!(self@->Array_0 => self@->Array_0[i as int]));
                    }
                    let t = match item {
                        Value::String(s) => match escape_str_for_json(s.as_str()) {
                            None => {
                                proof {
                                    assert(nested_stops(sv[i as int]));
                                }
                                return None;
                            },
                            Some(e) => {
                                let mut q = lit("\"");
                                push_all(&mut q, e.as_str());
                                push_all(&mut q, "\"");
                                q
                            },
                        },
                        _ => match item.display(fs) {
                            None => {
                                proof {
                                    assert(nested_stops(sv[i as int]));
                                }
                                return None;
                            },
                            Some(t) => t,
                        },
                    };
                    proof {
                        reveal_strlit("\"");
                        assert(t@ == parts[i as int]);
                    }
                    if i > 0 {
                        push_all(&mut out, ", ");
                    }
                    push_all(&mut out, t.as_str());
                    i = i + 1;
                }
                proof {
                    assert(parts.take(i as int) =~= parts);
                    reveal_strlit("[");
                    reveal_strlit("]");

                }
                push_all(&mut out, "]");
                assert(out@ == render(self@, ft));
                Some(out)
            },
            Value::Object(es_map) => {
                let es = &es_map.entries;
                proof {
                    lemma_object_model(*es_map);
                }
                let ghost sv = entry_models(es@);
                let ghost parts = entry_texts(sv, ft);
                let mut out = lit("{");
                let mut i: usize = 0;
                proof {
                    reveal_strlit("{");
                    assert(parts.take(0) =~= Seq::<Seq<char>>::empty());
                }
                while i < es.len()
                    invariant
                        i <= es@.len(),
                        sv == entry_models(es@),
                        ft == fs.spec().text,
                        fs.wf(),
                        parts == entry_texts(sv, ft),
                        self@ == SValue::Object(sv),
                        out@ == seq!['{'] + join_texts(parts.take(i as int), ", "@),
                        forall|j: int| 0 <= j < i ==> !nested_stops(#[trigger] sv[j].1),
                    decreases es@.len() - i,
                {
                    let entry = &es[i];
                    proof {
                        assert(sv[i as int] == (entry.0@, entry.1@));
                        lemma_join_step(parts, i as int, ", "@);
                        assert(decreases_to!(self@ => self@->Object_0));
                        assert(decreases_to!(self@->Object_0 => self@->Object_0[i as int]));
                        assert(decreases_to!(self@->Object_0[i as int] => self@->Object_0[i as int].1));
                    }
                    let vt = match &entry.1 {
                        Value::String(s) => match escape_str_for_json(s.as_str()) {
                            None => {
                                proof {
                                    assert(nested_stops(sv[i as int].1));
                                }
                                return None;
                            },
                            Some(e) => {
                                let mut q = lit("\"");
                                push_all(&mut q, e.as_str());
                                push_all(&mut q, "\"");
                                q
                            },
                        },
                        _ => match entry.1.display(fs) {
                            None => {
                                proof {
                                    assert(nested_stops(sv[i as int].1));
                                }
                                return None;
                            },
                            Some(t) => t,
                        },
                    };
                    let mut t = lit("\"");
                    push_all(&mut t, entry.0.as_str());
                    push_all(&mut t, "\": ");
                    push_all(&mut t, vt.as_str());
                    proof {
                        reveal_strlit("\"");
                        assert(t@ =~= parts[i as int]);
                    }
                    if i > 0 {
                        push_all(&mut out, ", ");
                    }
                    push_all(&mut out, t.as_str());
                    i = i + 1;
                }
                proof {
                    assert(parts.take(i as int) =~= parts);
                    reveal_strlit("{");
                    reveal_strlit("}");

                }
                push_all(&mut out, "}");
                assert(out@ == render(self@, ft));
                Some(out)
            },
        }
    }
}

impl Value {
    /// The `Debug` text of the value.
    pub fn debug_text<P, T, D, I>(&self, fs: &FloatSupport<P, T, D, I>) -> (r: String) where
        P: Fn(&str) -> Option<u64>,
        T: Fn(u64) -> String,
        D: Fn(u64) -> String,
        I: Fn(i64) -> u64,

        requires
            fs.wf(),
        ensures
            r@ == debug_render(self@, fs.spec().debug),
        decreases self@,
    {
        let ghost fd = fs.spec().debug;
        match self {
            Value::Int(i) => {
                let mut t = lit("Int(");
                let n = i64_text(*i);
                push_all(&mut t, n.as_str());
                push_all(&mut t, ")");
                t
            },
            Value::Float(b) => {
                let mut t = lit("Float(");
                let n = fs.float_debug(*b);
                push_all(&mut t, n.as_str());
                push_all(&mut t, ")");
                t
            },
            Value::Bool(b) => {
                let mut t = lit("Bool(");
                push_all(&mut t, if *b { "true" } else { "false" });
                push_all(&mut t, ")");
                t
            },
            Value::String(s) => {
                let mut t = lit("String(");
                let d = str_debug(s.as_str());
                push_all(&mut t, d.as_str());
                push_all(&mut t, ")");
                t
            },
            Value::Null => lit("Null"),
            Value::Array(xs) => {
                proof {
                    lemma_array_model(*xs);
                }
                let ghost sv = models(xs@);
                let ghost parts = debug_items(sv, fd);
                let mut out = lit("Array([");
                let mut i: usize = 0;
                proof {
                    assert(parts.take(0) =~= Seq::<Seq<char>>::empty());
                }
                while i < xs.len()
                    invariant
                        i <= xs@.len(),
                        sv == models(xs@),
                        fd == fs.spec().debug,
                        fs.wf(),
                        parts == debug_items(sv, fd),
                        self@ == SValue::Array(sv),
                        out@ == "Array(["@ + join_texts(parts.take(i as int), ", "@),
                    decreases xs@.len() - i,
                {
                    let item = &xs[i];
                    proof {
                        assert(sv[i as int] == item@);
                        lemma_join_step(parts, i as int, ", "@);
                        assert(decreases_to!(self@ => self@->Array_0));
                        assert(decreases_to!(self@->Array_0 => self@->Array_0[i as int]));
                    }
                    let t = item.debug_text(fs);
                    if i > 0 {
                        push_all(&mut out, ", ");
                    }
                    push_all(&mut out, t.as_str());
                    i = i + 1;
                }
                proof {
                    assert(parts.take(i as int) =~= parts);
                }
                push_all(&mut out, "])");
                out
            },
            Value::Object(es_map) => {
                let es = &es_map.entries;
                proof {
                    lemma_object_model(*es_map);
                }
                let ghost sv = entry_models(es@);
                let ghost parts = debug_entries(sv, fd);
                let mut out = lit("Object({");
                let mut i: usize = 0;
                proof {
                    assert(parts.take(0) =~= Seq::<Seq<char>>::empty());
                }
                while i < es.len()
                    invariant
                        i <= es@.len(),
                        sv == entry_models(es@),
                        fd == fs.spec().debug,
                        fs.wf(),
                        parts == debug_entries(sv, fd),
                        self@ == SValue::Object(sv),
                        out@ == "Object({"@ + join_texts(parts.take(i as int), ", "@),
                    decreases es@.len() - i,
                {
                    let entry = &es[i];
                    proof {
                        assert(sv[i as int] == (entry.0@, entry.1@));
                        lemma_join_step(parts, i as int, ", "@);
                        assert(decreases_to!(self@ => self@->Object_0));
                        assert(decreases_to!(self@->Object_0 => self@->Object_0[i as int]));
                        assert(decreases_to!(self@->Object_0[i as int] => self@->Object_0[i as int].1));
                    }
                    let mut t = str_debug(entry.0.as_str());
                    push_all(&mut t, ": ");
                    let vt = entry.1.debug_text(fs);
                    push_all(&mut t, vt.as_str());
                    if i > 0 {
                        push_all(&mut out, ", ");
                    }
                    push_all(&mut out, t.as_str());
                    i = i + 1;
                }
                proof {
                    assert(parts.take(i as int) =~= parts);
                }
                push_all(&mut out, "})");
                out
            },
        }
    }
}

} // verus!
