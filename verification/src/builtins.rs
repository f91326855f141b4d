//! What the built-in functions give.
use vstd::prelude::*;
use vstd::utf8::{decode_utf8, encode_utf8, valid_utf8};
use crate::text::{all_digits, digit_value, int_text, is_digit, parse_i64_spec, char_len, chars_eq, chars_to_string, lit, parse_i64, push_all, push_char, str_chars, str_eq};
use crate::value::{SValue, Value, join_texts, render, render_stops, svalue_type, truthy, type_text, value_eq, models, entry_models, lemma_array_model, lemma_object_model};
use crate::float::{FloatSpec, FloatSupport, float_to_i64, float_to_i64_spec, float_one};
use crate::errors::{EvalError, SEvalError};
use crate::semantics::Outcome;
use crate::interpreter::result_outcome;
use crate::functions::Builtin;
use crate::display::debug_render;
use base64::Engine;

verus! {

/// The error of a call with the wrong number of arguments.
pub open spec fn arg_count(expected: usize, got: nat) -> Outcome {
    Outcome::Fail(SEvalError::ArgumentCount(expected, got as usize))
}

/// The name of a value's type.
pub open spec fn tname(v: SValue) -> Seq<char> {
    type_text(svalue_type(v))
}

/// A type error with a message.
pub open spec fn type_error(m: Seq<char>) -> Outcome {
    Outcome::Fail(SEvalError::TypeError(m))
}

/// A value error with a message.
pub open spec fn value_error(m: Seq<char>) -> Outcome {
    Outcome::Fail(SEvalError::ValueError(m))
}

/// The position-named string argument that was not a string.
pub open spec fn not_string_arg(pos: Seq<char>, v: SValue) -> Outcome {
    type_error("Expected a string as the "@ + pos + " argument, got: '"@ + tname(v) + "'"@)
}

/// A one-argument function on a string.
pub open spec fn string_unary(args: Seq<SValue>, f: spec_fn(Seq<char>) -> Outcome) -> Outcome {
    if args.len() != 1 {
        arg_count(1, args.len())
    } else {
        match args[0] {
            SValue::Str(s) => f(s),
            v => type_error("Expected a string argument, got: '"@ + tname(v) + "'"@),
        }
    }
}

/// A two-argument function on strings.
pub open spec fn string_binary(args: Seq<SValue>, f: spec_fn(Seq<char>, Seq<char>) -> Outcome) -> Outcome {
    if args.len() != 2 {
        arg_count(2, args.len())
    } else {
        match (args[0], args[1]) {
            (SValue::Str(a), SValue::Str(b)) => f(a, b),
            (SValue::Str(_), v) => not_string_arg("second"@, v),
            (v, _) => not_string_arg("first"@, v),
        }
    }
}

/// A three-argument function on strings.
pub open spec fn string_trinary(args: Seq<SValue>, f: spec_fn(Seq<char>, Seq<char>, Seq<char>) -> Outcome) -> Outcome {
    if args.len() != 3 {
        arg_count(3, args.len())
    } else {
        match (args[0], args[1], args[2]) {
            (SValue::Str(a), SValue::Str(b), SValue::Str(c)) => f(a, b, c),
            (SValue::Str(_), SValue::Str(_), v) => not_string_arg("third"@, v),
            (SValue::Str(_), v, _) => not_string_arg("second"@, v),
            (v, _, _) => not_string_arg("first"@, v),
        }
    }
}

/// Whether `p` occurs in `s` at position `i`.
pub open spec fn occurs_at(s: Seq<char>, p: Seq<char>, i: int) -> bool {
    0 <= i && i + p.len() <= s.len() && s.subrange(i, i + p.len()) == p
}

/// Whether `p` occurs in `s`.
pub open spec fn occurs(s: Seq<char>, p: Seq<char>) -> bool {
    exists|i: int| occurs_at(s, p, i)
}

/// `len`: the number of characters of a string, items of an array or
/// entries of an object.
pub open spec fn len_spec(args: Seq<SValue>) -> Outcome {
    if args.len() != 1 {
        arg_count(1, args.len())
    } else {
        match args[0] {
            SValue::Str(s) => Outcome::Val(SValue::Int(s.len() as i64)),
            SValue::Array(xs) => Outcome::Val(SValue::Int(xs.len() as i64)),
            SValue::Object(es) => Outcome::Val(SValue::Int(es.len() as i64)),
            v => type_error("Expected a string, array, or object, got: '"@ + tname(v) + "'"@),
        }
    }
}

/// Whether an item of the array equals `item`.
pub open spec fn has_item(xs: Seq<SValue>, item: SValue) -> bool {
    exists|i: int| 0 <= i < xs.len() && value_eq(#[trigger] xs[i], item)
}

/// Whether an entry has the key.
pub open spec fn has_key(es: Seq<(Seq<char>, SValue)>, key: Seq<char>) -> bool {
    exists|i: int| 0 <= i < es.len() && (#[trigger] es[i]).0 == key
}

/// `contains`: a substring of a string, an item of an array, or a key of an
/// object.
pub open spec fn contains_spec(args: Seq<SValue>) -> Outcome {
    if args.len() != 2 {
        arg_count(2, args.len())
    } else {
        match (args[0], args[1]) {
            (SValue::Str(s), SValue::Str(sub)) => Outcome::Val(SValue::Bool(occurs(s, sub))),
            (SValue::Array(xs), item) => Outcome::Val(SValue::Bool(has_item(xs, item))),
            (SValue::Object(es), SValue::Str(key)) => Outcome::Val(SValue::Bool(has_key(es, key))),
            (a, b) => type_error(
                "Expected (string, string), (array, value), or (object, string) arguments, got: ('"@ + tname(a) + "', '"@ + tname(b) + "')"@,
            ),
        }
    }
}

/// Whether a pattern fails to compile as a regular expression, and the text
/// of the error if so.
pub uninterp spec fn regex_error(pattern: Seq<char>) -> Option<Seq<char>>;

/// Whether the compiled pattern matches somewhere in the text.
pub uninterp spec fn regex_is_match(pattern: Seq<char>, text: Seq<char>) -> bool;

/// `matches`: whether the pattern, a regular expression, matches in the
/// string.
pub open spec fn matches_spec(args: Seq<SValue>) -> Outcome {
    string_binary(
        args,
        |s: Seq<char>, pattern: Seq<char>|
            match regex_error(pattern) {
                Some(m) => Outcome::Fail(SEvalError::RegexError("Invalid regex pattern: '"@ + m + "'"@)),
                None => Outcome::Val(SValue::Bool(regex_is_match(pattern, s))),
            },
    )
}

/// Every occurrence of `p` in `s`, from the left and not overlapping,
/// replaced by `t`; an empty `p` occurs before every character and at the
/// end.
pub open spec fn replace_spec(s: Seq<char>, p: Seq<char>, t: Seq<char>) -> Seq<char>
    decreases s.len(),
{
    if p.len() == 0 {
        if s.len() == 0 {
            t
        } else {
            t + seq![s[0]] + replace_spec(s.drop_first(), p, t)
        }
    } else if s.len() < p.len() {
        s
    } else if s.take(p.len() as int) == p {
        t + replace_spec(s.skip(p.len() as int), p, t)
    } else {
        seq![s[0]] + replace_spec(s.drop_first(), p, t)
    }
}

/// The pieces of `s` between the occurrences of a non-empty `p`, from the
/// left and not overlapping; `acc` is the start of the current piece.
pub open spec fn split_pieces(s: Seq<char>, p: Seq<char>, acc: Seq<char>) -> Seq<Seq<char>>
    decreases s.len(),
{
    if p.len() == 0 || s.len() < p.len() {
        seq![acc + s]
    } else if s.take(p.len() as int) == p {
        seq![acc] + split_pieces(s.skip(p.len() as int), p, Seq::empty())
    } else {
        split_pieces(s.drop_first(), p, acc.push(s[0]))
    }
}

/// The pieces of `s` split at `p`: an empty `p` splits before every
/// character and at the end.
pub open spec fn split_spec(s: Seq<char>, p: Seq<char>) -> Seq<Seq<char>> {
    if p.len() == 0 {
        seq![Seq::<char>::empty()] + Seq::new(s.len(), |i: int| seq![s[i]]) + seq![Seq::<char>::empty()]
    } else {
        split_pieces(s, p, Seq::empty())
    }
}

/// The texts of values as `Display` writes them.
pub open spec fn texts_of(vs: Seq<SValue>, ft: spec_fn(u64) -> Seq<char>) -> Seq<Seq<char>> {
    Seq::new(vs.len(), |i: int| render(vs[i], ft))
}

/// Whether the text of one of the values stops.
pub open spec fn any_stops(vs: Seq<SValue>) -> bool {
    exists|i: int| 0 <= i < vs.len() && render_stops(#[trigger] vs[i])
}

/// `join`: the texts of the items of an array joined by a separator.
pub open spec fn join_spec(args: Seq<SValue>, ft: spec_fn(u64) -> Seq<char>) -> Outcome {
    if args.len() != 2 {
        arg_count(2, args.len())
    } else {
        match args[0] {
            SValue::Array(xs) => match args[1] {
                SValue::Str(sep) => if any_stops(xs) {
                    Outcome::Stop
                } else {
                    Outcome::Val(SValue::Str(join_texts(texts_of(xs, ft), sep)))
                },
                v => type_error("Expected a string argument, got: '"@ + tname(v) + "'"@),
            },
            v => type_error("Expected an array argument, got: '"@ + tname(v) + "'"@),
        }
    }
}

/// Strings of texts.
pub open spec fn str_values(ts: Seq<Seq<char>>) -> Seq<SValue> {
    Seq::new(ts.len(), |i: int| SValue::Str(ts[i]))
}

/// What parsing a placeholder index as `usize` meets first, scanning from
/// the left: a character that is not an ASCII digit (`Err(false)`), or a
/// value past `usize::MAX` (`Err(true)`); else the value.
pub open spec fn parse_index(s: Seq<char>) -> Result<nat, bool>
    decreases s.len(),
{
    if s.len() == 0 {
        Ok(0)
    } else {
        match parse_index(s.drop_last()) {
            Err(o) => Err(o),
            Ok(v) => if !is_digit(s.last()) {
                Err(false)
            } else if v * 10 + digit_value(s.last()) > usize::MAX {
                Err(true)
            } else {
                Ok((v * 10 + digit_value(s.last())) as nat)
            },
        }
    }
}

/// The message of a placeholder index that does not parse.
pub open spec fn index_error_text(digits: Seq<char>, overflow: bool) -> Seq<char> {
    "Invalid format placeholder index '"@ + digits + "': "@ + if overflow {
        "number too large to fit in target type"@
    } else {
        "invalid digit found in string"@
    }
}

/// The spans of the matches of a compiled pattern in a text, as
/// `Regex::find_iter` finds them from the left: the position of each
/// match's first character and the position after its last, counted in
/// characters.
pub uninterp spec fn regex_spans(pattern: Seq<char>, text: Seq<char>) -> Seq<(usize, usize)>;

/// The regular expression of a format placeholder: `{`, digits, `}`.
pub open spec fn placeholder_pattern() -> Seq<char> {
    "\\{(\\d+)\\}"@
}

/// Spans in order, each a `{`, at least one character, and a `}`.
pub open spec fn spans_ok(s: Seq<char>, spans: Seq<(usize, usize)>) -> bool {
    &&& forall|k: int| 0 <= k < spans.len() ==> {
        let (a, b) = #[trigger] spans[k];
        &&& a + 3 <= b <= s.len()
        &&& s[a as int] == '{'
        &&& s[b - 1] == '}'
    }
    &&& forall|k: int| 0 < k < spans.len() ==> (#[trigger] spans[k]).0 >= spans[k - 1].1
}

/// Whether two characters are a doubled brace, `{{` or `}}`.
pub open spec fn doubled_brace(c: char, d: char) -> bool {
    (c == '{' && d == '{') || (c == '}' && d == '}')
}

/// Text outside placeholders, read from the left: each doubled brace
/// becomes one brace, and every other character stays.
pub open spec fn unescape(t: Seq<char>) -> Seq<char>
    decreases t.len(),
{
    if t.len() < 2 {
        t
    } else if doubled_brace(t[0], t[1]) {
        seq![t[0]] + unescape(t.skip(2))
    } else {
        seq![t[0]] + unescape(t.skip(1))
    }
}

/// Whether text, read from the left in doubled braces as [`unescape`]
/// reads it, ends in a `{` that has no partner yet.
pub open spec fn open_brace_left(t: Seq<char>) -> bool
    decreases t.len(),
{
    if t.len() == 0 {
        false
    } else if t.len() == 1 {
        t[0] == '{'
    } else if doubled_brace(t[0], t[1]) {
        open_brace_left(t.skip(2))
    } else {
        open_brace_left(t.skip(1))
    }
}

/// Formatting from the `k`-th span on, with `last` the end of the text
/// read so far. Where the text before a span ends in a `{` with no
/// partner, that `{` and the span's own make a doubled brace, and the rest
/// of the span is read as text; else the span is a placeholder, replaced by
/// the text of the argument it names.
pub open spec fn format_from(
    s: Seq<char>,
    spans: Seq<(usize, usize)>,
    k: nat,
    last: int,
    texts: Seq<Seq<char>>,
    nargs: nat,
) -> Result<Seq<char>, Outcome>
    decreases spans.len() - k,
{
    if k >= spans.len() {
        Ok(unescape(s.subrange(last, s.len() as int)))
    } else {
        let (a, b) = spans[k as int];
        let before = s.subrange(last, a as int);
        let digits = s.subrange(a + 1, b - 1);
        if open_brace_left(before) {
            match format_from(s, spans, k + 1, a + 1, texts, nargs) {
                Ok(rest) => Ok(unescape(s.subrange(last, a + 1)) + rest),
                Err(o) => Err(o),
            }
        } else {
            match parse_index(digits) {
                Err(overflow) => Err(value_error(index_error_text(digits, overflow))),
                Ok(index) => if index >= texts.len() {
                    if index == usize::MAX {
                        Err(Outcome::Stop)
                    } else {
                        Err(arg_count((index + 1) as usize, nargs))
                    }
                } else {
                    match format_from(s, spans, k + 1, b as int, texts, nargs) {
                        Ok(rest) => Ok(unescape(before) + texts[index as int] + rest),
                        Err(o) => Err(o),
                    }
                },
            }
        }
    }
}

/// `format` with the placeholder spans given: each `{n}` becomes the text
/// of argument `n` after the format string, and outside placeholders `{{`
/// becomes `{` and `}}` becomes `}` (so `{{n}}` becomes `{n}`).
pub open spec fn format_with_spec(args: Seq<SValue>, spans: Seq<(usize, usize)>, ft: spec_fn(u64) -> Seq<char>) -> Outcome {
    if args.len() == 0 {
        arg_count(1, 0)
    } else {
        match args[0] {
            SValue::Str(s) => {
                let rest = args.skip(1);
                if any_stops(rest) {
                    Outcome::Stop
                } else {
                    match format_from(s, spans, 0, 0, texts_of(rest, ft), args.len()) {
                        Ok(t) => Outcome::Val(SValue::Str(t)),
                        Err(o) => o,
                    }
                }
            },
            v => not_string_arg("first"@, v),
        }
    }
}

/// `format`: as [`format_with_spec`], with the spans of the placeholders
/// that the placeholder expression finds in the format string. Where that
/// expression would not compile, evaluation stops.
pub open spec fn format_spec(args: Seq<SValue>, ft: spec_fn(u64) -> Seq<char>) -> Outcome {
    if args.len() > 0 && args[0] is Str {
        match regex_error(placeholder_pattern()) {
            Some(_) => Outcome::Stop,
            None => format_with_spec(args, regex_spans(placeholder_pattern(), args[0]->Str_0), ft),
        }
    } else {
        format_with_spec(args, Seq::empty(), ft)
    }
}

/// The standard base64 alphabet: the character of each 6-bit value.
pub open spec fn base64_alphabet() -> Seq<char> {
    "ABCDEFGHIJKLMNOPQRSTUVWXYZabcdefghijklmnopqrstuvwxyz0123456789+/"@
}

/// The base64 text (standard alphabet, padded) of bytes: each three bytes
/// give four characters, six bits each, from the high bits down; one or two
/// bytes left at the end give two or three characters, the last bits
/// filled with zeros, and `=` up to four.
pub open spec fn base64_encoded(bytes: Seq<u8>) -> Seq<char>
    decreases bytes.len(),
{
    let a = base64_alphabet();
    if bytes.len() == 0 {
        Seq::empty()
    } else if bytes.len() == 1 {
        let b0 = bytes[0] as int;
        seq![a[b0 / 4], a[(b0 % 4) * 16], '=', '=']
    } else if bytes.len() == 2 {
        let b0 = bytes[0] as int;
        let b1 = bytes[1] as int;
        seq![a[b0 / 4], a[(b0 % 4) * 16 + b1 / 16], a[(b1 % 16) * 4], '=']
    } else {
        let b0 = bytes[0] as int;
        let b1 = bytes[1] as int;
        let b2 = bytes[2] as int;
        seq![a[b0 / 4], a[(b0 % 4) * 16 + b1 / 16], a[(b1 % 16) * 4 + b2 / 64], a[b2 % 64]]
            + base64_encoded(bytes.skip(3))
    }
}

/// The bytes that a base64 text (standard alphabet, padded) decodes to, or
/// the text of the error.
pub uninterp spec fn base64_decoded(text: Seq<char>) -> Result<Seq<u8>, Seq<char>>;

/// The text of the error of bytes that are not UTF-8.
pub uninterp spec fn utf8_error_text(bytes: Seq<u8>) -> Seq<char>;

/// `base64Encode`: the base64 text of the string's UTF-8 bytes.
pub open spec fn base64_encode_spec(args: Seq<SValue>) -> Outcome {
    string_unary(args, |s: Seq<char>| Outcome::Val(SValue::Str(base64_encoded(encode_utf8(s)))))
}

/// `base64Decode`: the string whose UTF-8 bytes the text decodes to.
pub open spec fn base64_decode_spec(args: Seq<SValue>) -> Outcome {
    string_unary(
        args,
        |s: Seq<char>|
            match base64_decoded(s) {
                Err(m) => value_error("Invalid base64 string: '"@ + m + "'"@),
                Ok(bytes) => if valid_utf8(bytes) {
                    Outcome::Val(SValue::Str(decode_utf8(bytes)))
                } else {
                    value_error("Decoded bytes are not valid UTF-8: '"@ + utf8_error_text(bytes) + "'"@)
                },
            },
    )
}

/// The error of a value that does not convert to a number type.
pub open spec fn conversion_error(target: Seq<char>, v: SValue, fd: spec_fn(u64) -> Seq<char>) -> Outcome {
    type_error("Expected a value that can be converted to '"@ + target + "', got '"@ + debug_render(v, fd) + "'"@)
}

/// `int`: integers as they are, floats truncated toward zero and
/// saturated, strings parsed, booleans as 1 and 0.
pub open spec fn int_spec(args: Seq<SValue>, fd: spec_fn(u64) -> Seq<char>) -> Outcome {
    if args.len() != 1 {
        arg_count(1, args.len())
    } else {
        match args[0] {
            SValue::Int(i) => Outcome::Val(SValue::Int(i)),
            SValue::Float(b) => Outcome::Val(SValue::Int(float_to_i64_spec(b))),
            SValue::Str(s) => match parse_i64_spec(s) {
                Some(i) => Outcome::Val(SValue::Int(i)),
                None => conversion_error("i64"@, args[0], fd),
            },
            SValue::Bool(b) => Outcome::Val(SValue::Int(if b { 1 } else { 0 })),
            v => conversion_error("i64"@, v, fd),
        }
    }
}

/// `float`: floats as they are, integers to the nearest float, strings
/// parsed, booleans as 1.0 and 0.0.
pub open spec fn float_spec(args: Seq<SValue>, fs: FloatSpec) -> Outcome {
    if args.len() != 1 {
        arg_count(1, args.len())
    } else {
        match args[0] {
            SValue::Float(b) => Outcome::Val(SValue::Float(b)),
            SValue::Int(i) => Outcome::Val(SValue::Float((fs.from_i64)(i))),
            SValue::Str(s) => match (fs.parse)(s) {
                Some(b) => Outcome::Val(SValue::Float(b)),
                None => conversion_error("f64"@, args[0], fs.debug),
            },
            SValue::Bool(b) => Outcome::Val(SValue::Float(if b { float_one() } else { 0 })),
            v => conversion_error("f64"@, v, fs.debug),
        }
    }
}

/// What a built-in function gives for the argument values.
pub open spec fn builtin_spec(b: Builtin, args: Seq<SValue>, fs: FloatSpec) -> Outcome {
    match b {
        Builtin::Matches => matches_spec(args),
        Builtin::Len => len_spec(args),
        Builtin::StartsWith => string_binary(args, |s: Seq<char>, p: Seq<char>| Outcome::Val(SValue::Bool(p.is_prefix_of(s)))),
        Builtin::EndsWith => string_binary(args, |s: Seq<char>, p: Seq<char>| Outcome::Val(SValue::Bool(p.is_suffix_of(s)))),
        Builtin::Contains => contains_spec(args),
        Builtin::Bool => if args.len() != 1 {
            arg_count(1, args.len())
        } else {
            Outcome::Val(SValue::Bool(truthy(args[0])))
        },
        Builtin::String => if args.len() != 1 {
            arg_count(1, args.len())
        } else if render_stops(args[0]) {
            Outcome::Stop
        } else {
            Outcome::Val(SValue::Str(render(args[0], fs.text)))
        },
        Builtin::Int => int_spec(args, fs.debug),
        Builtin::Float => float_spec(args, fs),
        Builtin::Base64Encode => base64_encode_spec(args),
        Builtin::Base64Decode => base64_decode_spec(args),
        Builtin::Replace => string_trinary(
            args,
            |s: Seq<char>, p: Seq<char>, t: Seq<char>| Outcome::Val(SValue::Str(replace_spec(s, p, t))),
        ),
        Builtin::Format => format_spec(args, fs.text),
        Builtin::Join => join_spec(args, fs.text),
        Builtin::Split => string_binary(args, |s: Seq<char>, p: Seq<char>| Outcome::Val(SValue::Array(str_values(split_spec(s, p))))),
    }
}

/// The outside type of a compiled regular expression.
#[verifier::external_type_specification]
#[verifier::external_body]
pub struct ExRegex(regex::Regex);

/// A regular expression with the pattern it was compiled from. Only
/// [`compile_regex`] makes one.
pub struct CompiledRegex {
    pattern: String,
    re: regex::Regex,
}

impl CompiledRegex {
    /// The pattern the expression was compiled from.
    pub closed spec fn pattern(&self) -> Seq<char> {
        self.pattern@
    }
}

/// `regex::Regex::new`: the compiled expression, or the text of the error.
/// Whether and how a pattern fails is named, not stated.
#[verifier::external_body]
fn compile_regex(pattern: &str) -> (r: Result<CompiledRegex, String>)
    ensures
        match r {
            Ok(c) => regex_error(pattern@) is None && c.pattern() == pattern@,
            Err(m) => regex_error(pattern@) == Some(m@),
        },
{
    match regex::Regex::new(pattern) {
        Ok(re) => Ok(CompiledRegex { pattern: pattern.to_string(), re }),
        Err(e) => Err(e.to_string()),
    }
}

/// `Regex::is_match`: whether the expression matches somewhere in the
/// text; named, not stated.
#[verifier::external_body]
fn regex_matches(re: &CompiledRegex, text: &str) -> (r: bool)
    ensures
        r == regex_is_match(re.pattern(), text@),
{
    re.re.is_match(text)
}

/// `Regex::find_iter` on a text, each match given by the positions of its
/// first character and of the character after it, counted in characters.
/// The spans are named; for the placeholder expression, what is stated is
/// what it gives every match: a `{`, at least one digit, a `}`, the matches
/// in order and apart.
#[verifier::external_body]
fn regex_find_spans(re: &CompiledRegex, text: &str) -> (r: Vec<(usize, usize)>)
    ensures
        r@ == regex_spans(re.pattern(), text@),
        re.pattern() == placeholder_pattern() ==> spans_ok(text@, r@),
{
    re.re.find_iter(text).map(|m| (text[..m.start()].chars().count(), text[..m.end()].chars().count())).collect()
}

/// `base64::engine::general_purpose::STANDARD.encode`: the padded base64
/// text of the bytes, as [`base64_encoded`] states it.
#[verifier::external_body]
fn base64_encode_bytes(data: &[u8]) -> (r: String)
    ensures
        r@ == base64_encoded(data@),
{
    base64::engine::general_purpose::STANDARD.encode(data)
}

/// `base64::engine::general_purpose::STANDARD.decode` of the text's bytes:
/// the bytes, or the error's text; both named. With padding required where
/// it is due and no stray bits allowed, this engine takes exactly the
/// padded standard encodings: a text decodes to bytes only where it is
/// their encoding, and a text that encoding some bytes gave decodes to
/// those bytes.
#[verifier::external_body]
fn base64_decode_text(text: &str) -> (r: Result<Vec<u8>, String>)
    ensures
        match r {
            Ok(b) => base64_decoded(text@) matches Ok(x) && x == b@,
            Err(m) => base64_decoded(text@) matches Err(x) && x == m@,
        },
        r matches Ok(b) ==> text@ == base64_encoded(b@),
        r matches Ok(b) ==> forall|x: Seq<u8>| text@ == base64_encoded(x) ==> b@ == x,
        r matches Ok(b) || forall|x: Seq<u8>| text@ != base64_encoded(x),
{
    match base64::engine::general_purpose::STANDARD.decode(text.as_bytes()) {
        Ok(b) => Ok(b),
        Err(e) => Err(e.to_string()),
    }
}

/// `String::from_utf8`: the string when the bytes are UTF-8, else the
/// error's text, which is named.
#[verifier::external_body]
fn string_from_utf8(bytes: Vec<u8>) -> (r: Result<String, String>)
    ensures
        match r {
            Ok(s) => valid_utf8(bytes@) && s@ == decode_utf8(bytes@),
            Err(m) => !valid_utf8(bytes@) && m@ == utf8_error_text(bytes@),
        },
{
    match String::from_utf8(bytes) {
        Ok(s) => Ok(s),
        Err(e) => Err(e.to_string()),
    }
}

/// The outcome that an optional result stands for: none is a stop.
pub open spec fn opt_outcome(r: Option<Result<Value, EvalError>>) -> Outcome {
    match r {
        None => Outcome::Stop,
        Some(x) => result_outcome(x),
    }
}

fn arg_count_error(expected: usize, got: usize) -> (e: EvalError)
    ensures
        e@ == SEvalError::ArgumentCount(expected, got),
{
    EvalError::ArgumentCount { expected, got }
}

/// `a`, the name of `v`'s type, and `b`.
fn around_type(a: &str, v: &Value, b: &str) -> (r: String)
    ensures
        r@ == a@ + tname(v@) + b@,
{
    let mut m = lit(a);
    let t = v.type_of().to_string();
    push_all(&mut m, t.as_str());
    push_all(&mut m, b);
    m
}

fn not_string_error(pos: &str, v: &Value) -> (e: EvalError)
    ensures
        Outcome::Fail(e@) == not_string_arg(pos@, v@),
{
    let mut m = lit("Expected a string as the ");
    push_all(&mut m, pos);
    let t = around_type(" argument, got: '", v, "'");
    push_all(&mut m, t.as_str());
    proof {
        assert(m@ =~= "Expected a string as the "@ + pos@ + " argument, got: '"@ + tname(v@) + "'"@);
    }
    EvalError::TypeError { message: m }
}

/// The two string arguments, or the error that the function gives.
fn two_strings(args: &Vec<Value>) -> (r: Result<(&String, &String), EvalError>)
    ensures
        match r {
            Ok((a, b)) => models(args@).len() == 2 && models(args@)[0] == SValue::Str(a@) && models(args@)[1] == SValue::Str(b@),
            Err(e) => string_binary(models(args@), |x: Seq<char>, y: Seq<char>| Outcome::Stop) == Outcome::Fail(e@),
        },
{
    if args.len() != 2 {
        return Err(arg_count_error(2, args.len()));
    }
    proof {
        assert(models(args@)[0] == args@[0]@);
        assert(models(args@)[1] == args@[1]@);
    }
    match (&args[0], &args[1]) {
        (Value::String(a), Value::String(b)) => Ok((a, b)),
        (Value::String(_), v) => {
            proof {
                reveal_strlit("second");
            }
            Err(not_string_error("second", v))
        },
        (v, _) => {
            proof {
                reveal_strlit("first");
            }
            Err(not_string_error("first", v))
        },
    }
}

/// Whether `p` occurs in `s` at `i`.
fn occurs_at_exec(s: &Vec<char>, p: &Vec<char>, i: usize) -> (r: bool)
    ensures
        r == occurs_at(s@, p@, i as int),
{
    if i > s.len() || p.len() > s.len() - i {
        return false;
    }
    let mut j: usize = 0;
    while j < p.len()
        invariant
            j <= p@.len(),
            i + p@.len() <= s@.len(),
            s@.len() <= usize::MAX,
            forall|k: int| 0 <= k < j ==> s@[i + k] == p@[k],
        decreases p@.len() - j,
    {
        if s[i + j] != p[j] {
            proof {
                assert(s@.subrange(i as int, i + p@.len())[j as int] != p@[j as int]);
            }
            return false;
        }
        j = j + 1;
    }
    proof {
        assert(s@.subrange(i as int, i + p@.len()) =~= p@);
    }
    true
}

/// Whether `p` occurs in `s`.
fn occurs_exec(s: &Vec<char>, p: &Vec<char>) -> (r: bool)
    ensures
        r == occurs(s@, p@),
{
    if p.len() > s.len() {
        proof {
            assert forall|i: int| !occurs_at(s@, p@, i) by {}
        }
        return false;
    }
    let last = s.len() - p.len();
    let mut i: usize = 0;
    loop
        invariant
            p@.len() <= s@.len(),
            last == s@.len() - p@.len(),
            i <= last,
            forall|k: int| 0 <= k < i ==> !occurs_at(s@, p@, k),
        decreases last - i,
    {
        if occurs_at_exec(s, p, i) {
            return true;
        }
        if i == last {
            proof {
                assert forall|k: int| !occurs_at(s@, p@, k) by {
                    if k > i {
                        assert(k + p@.len() > s@.len());
                    }
                }
            }
            return false;
        }
        i = i + 1;
    }
}

/// `len`.
fn builtin_len(args: &Vec<Value>) -> (r: Result<Value, EvalError>)
    ensures
        result_outcome(r) == len_spec(models(args@)),
{
    if args.len() != 1 {
        return Err(arg_count_error(1, args.len()));
    }
    proof {
        assert(models(args@)[0] == args@[0]@);
    }
    match &args[0] {
        Value::String(s) => Ok(Value::Int(char_len(s.as_str()) as i64)),
        Value::Array(xs) => {
            proof {
                lemma_array_model(*xs);
            }
            Ok(Value::Int(xs.len() as i64))
        },
        Value::Object(es_map) => {
            let es = &es_map.entries;
            proof {
                lemma_object_model(*es_map);
            }
            Ok(Value::Int(es.len() as i64))
        },
        v => Err(EvalError::TypeError { message: around_type("Expected a string, array, or object, got: '", v, "'") }),
    }
}

/// `startsWith` and `endsWith`.
fn builtin_affix(args: &Vec<Value>, suffix: bool) -> (r: Result<Value, EvalError>)
    ensures
        result_outcome(r) == if suffix {
            string_binary(models(args@), |s: Seq<char>, p: Seq<char>| Outcome::Val(SValue::Bool(p.is_suffix_of(s))))
        } else {
            string_binary(models(args@), |s: Seq<char>, p: Seq<char>| Outcome::Val(SValue::Bool(p.is_prefix_of(s))))
        },
{
    match two_strings(args) {
        Err(e) => Err(e),
        Ok((a, b)) => {
            let s = str_chars(a.as_str());
            let p = str_chars(b.as_str());
            if p.len() > s.len() {
                return Ok(Value::Bool(false));
            }
            let at = if suffix { s.len() - p.len() } else { 0 };
            let r = occurs_at_exec(&s, &p, at);
            proof {
                if suffix {
                    assert(r == p@.is_suffix_of(s@)) by {
                        if r {
                            assert(s@.subrange(at as int, at + p@.len()) =~= s@.subrange(s@.len() - p@.len(), s@.len() as int));
                        }
                    }
                } else {
                    assert(r == p@.is_prefix_of(s@));
                }
            }
            Ok(Value::Bool(r))
        },
    }
}

/// `contains`.
fn builtin_contains(args: &Vec<Value>) -> (r: Result<Value, EvalError>)
    ensures
        result_outcome(r) == contains_spec(models(args@)),
{
    if args.len() != 2 {
        return Err(arg_count_error(2, args.len()));
    }
    let ghost a = models(args@);
    proof {
        assert(a[0] == args@[0]@);
        assert(a[1] == args@[1]@);
    }
    match (&args[0], &args[1]) {
        (Value::String(s), Value::String(sub)) => {
            let x = str_chars(s.as_str());
            let y = str_chars(sub.as_str());
            Ok(Value::Bool(occurs_exec(&x, &y)))
        },
        (Value::Array(xs), item) => {
            proof {
                lemma_array_model(*xs);
            }
            let ghost sv = models(xs@);
            assert(a[0] == SValue::Array(sv));
            let mut i: usize = 0;
            while i < xs.len()
                invariant
                    i <= xs@.len(),
                    sv == models(xs@),
                    a == models(args@),
                    a.len() == 2,
                    a[0] == SValue::Array(sv),
                    a[1] == item@,
                    forall|k: int| 0 <= k < i ==> !value_eq(#[trigger] sv[k], item@),
                decreases xs@.len() - i,
            {
                proof {
                    assert(sv[i as int] == xs@[i as int]@);
                }
                if xs[i].equals(item) {
                    proof {
                        assert(0 <= i < sv.len() && value_eq(sv[i as int], item@));
                        assert(contains_spec(a) == Outcome::Val(SValue::Bool(true)));
                    }
                    return Ok(Value::Bool(true));
                }
                i = i + 1;
            }
            Ok(Value::Bool(false))
        },
        (Value::Object(es_map), Value::String(key)) => {
            let es = &es_map.entries;
            proof {
                lemma_object_model(*es_map);
            }
            let ghost sv = entry_models(es@);
            assert(a[0] == SValue::Object(sv));
            let mut i: usize = 0;
            while i < es.len()
                invariant
                    i <= es@.len(),
                    sv == entry_models(es@),
                    a == models(args@),
                    a.len() == 2,
                    a[0] == SValue::Object(sv),
                    a[1] == SValue::Str(key@),
                    forall|k: int| 0 <= k < i ==> (#[trigger] sv[k]).0 != key@,
                decreases es@.len() - i,
            {
                proof {
                    assert(sv[i as int].0 == es@[i as int].0@);
                }
                if str_eq(es[i].0.as_str(), key.as_str()) {
                    proof {
                        assert(0 <= i < sv.len() && sv[i as int].0 == key@);
                        assert(contains_spec(a) == Outcome::Val(SValue::Bool(true)));
                    }
                    return Ok(Value::Bool(true));
                }
                i = i + 1;
            }
            Ok(Value::Bool(false))
        },
        (x, y) => {
            let mut m = around_type("Expected (string, string), (array, value), or (object, string) arguments, got: ('", x, "', '");
            let t = y.type_of().to_string();
            push_all(&mut m, t.as_str());
            push_all(&mut m, "')");
            Err(EvalError::TypeError { message: m })
        },
    }
}

/// `matches`.
fn builtin_matches(args: &Vec<Value>) -> (r: Result<Value, EvalError>)
    ensures
        result_outcome(r) == matches_spec(models(args@)),
{
    match two_strings(args) {
        Err(e) => Err(e),
        Ok((s, pattern)) => match compile_regex(pattern.as_str()) {
            Ok(re) => Ok(Value::Bool(regex_matches(&re, s.as_str()))),
            Err(m) => {
                let mut message = lit("Invalid regex pattern: '");
                push_all(&mut message, m.as_str());
                push_all(&mut message, "'");
                Err(EvalError::RegexError { message })
            },
        },
    }
}

/// How `replace_spec` unfolds at a position.
proof fn lemma_replace_step(s: Seq<char>, p: Seq<char>, t: Seq<char>, i: int)
    requires
        0 <= i <= s.len(),
        p.len() > 0,
    ensures
        s.len() - i < p.len() ==> replace_spec(s.skip(i), p, t) == s.skip(i),
        s.len() - i >= p.len() && occurs_at(s, p, i) ==> replace_spec(s.skip(i), p, t) == t + replace_spec(s.skip(i + p.len()), p, t),
        s.len() - i >= p.len() && !occurs_at(s, p, i) ==> replace_spec(s.skip(i), p, t) == seq![s[i]] + replace_spec(s.skip(i + 1), p, t),
{
    let r = s.skip(i);
    if r.len() >= p.len() {
        assert(r.take(p.len() as int) =~= s.subrange(i, i + p.len()));
        assert(r.skip(p.len() as int) =~= s.skip(i + p.len()));
        assert(r.drop_first() =~= s.skip(i + 1));
    }
}

/// Replaces every occurrence of `p` in `s` by `t`.
pub fn replace_text(s: &str, p: &str, t: &str) -> (r: String)
    ensures
        r@ == replace_spec(s@, p@, t@),
{
    let cs = str_chars(s);
    let ps = str_chars(p);
    let mut out = String::new();
    let n = cs.len();
    if ps.len() == 0 {
        let mut i: usize = 0;
        proof {
            assert(cs@.skip(0) =~= cs@);
            assert(out@ + replace_spec(cs@.skip(0), p@, t@) =~= replace_spec(s@, p@, t@));
        }
        while i < n
            invariant
                i <= n,
                n == cs@.len(),
                cs@ == s@,
                ps@ == p@,
                ps@.len() == 0,
                replace_spec(s@, p@, t@) == out@ + replace_spec(cs@.skip(i as int), p@, t@),
            decreases n - i,
        {
            proof {
                let r = cs@.skip(i as int);
                assert(r.drop_first() =~= cs@.skip(i + 1));
                assert(r[0] == cs@[i as int]);
                assert(replace_spec(r, p@, t@) == t@ + seq![r[0]] + replace_spec(r.drop_first(), p@, t@));
                assert(out@ + (t@ + seq![cs@[i as int]] + replace_spec(cs@.skip(i + 1), p@, t@))
                    =~= (out@ + t@).push(cs@[i as int]) + replace_spec(cs@.skip(i + 1), p@, t@));
            }
            push_all(&mut out, t);
            push_char(&mut out, cs[i]);
            i = i + 1;
        }
        proof {
            assert(cs@.skip(n as int) =~= Seq::<char>::empty());
        }
        push_all(&mut out, t);
        return out;
    }
    let mut i: usize = 0;
    proof {
        assert(cs@.skip(0) =~= cs@);
    }
    loop
        invariant
            i <= n,
            n == cs@.len(),
            cs@ == s@,
            ps@ == p@,
            ps@.len() > 0,
            replace_spec(s@, p@, t@) == out@ + replace_spec(cs@.skip(i as int), p@, t@),
        decreases n - i,
    {
        proof {
            lemma_replace_step(cs@, ps@, t@, i as int);
        }
        if n - i < ps.len() {
            let rest = chars_to_string(&cs, i, n);
            proof {
                assert(cs@.subrange(i as int, n as int) =~= cs@.skip(i as int));
            }
            push_all(&mut out, rest.as_str());
            return out;
        }
        if occurs_at_exec(&cs, &ps, i) {
            proof {
                assert(out@ + (t@ + replace_spec(cs@.skip(i + ps@.len()), p@, t@)) =~= (out@ + t@) + replace_spec(cs@.skip(i + ps@.len()), p@, t@));
            }
            push_all(&mut out, t);
            i = i + ps.len();
        } else {
            proof {
                assert(out@ + (seq![cs@[i as int]] + replace_spec(cs@.skip(i + 1), p@, t@)) =~= out@.push(cs@[i as int]) + replace_spec(cs@.skip(i + 1), p@, t@));
            }
            push_char(&mut out, cs[i]);
            i = i + 1;
        }
    }
}

/// How `split_pieces` unfolds at a position.
proof fn lemma_split_step(s: Seq<char>, p: Seq<char>, acc: Seq<char>, i: int)
    requires
        0 <= i <= s.len(),
        p.len() > 0,
    ensures
        s.len() - i < p.len() ==> split_pieces(s.skip(i), p, acc) == seq![acc + s.skip(i)],
        s.len() - i >= p.len() && occurs_at(s, p, i) ==> split_pieces(s.skip(i), p, acc) == seq![acc] + split_pieces(s.skip(i + p.len()), p, Seq::empty()),
        s.len() - i >= p.len() && !occurs_at(s, p, i) ==> split_pieces(s.skip(i), p, acc) == split_pieces(s.skip(i + 1), p, acc.push(s[i])),
{
    let r = s.skip(i);
    if r.len() >= p.len() {
        assert(r.take(p.len() as int) =~= s.subrange(i, i + p.len()));
        assert(r.skip(p.len() as int) =~= s.skip(i + p.len()));
        assert(r.drop_first() =~= s.skip(i + 1));
    }
}

/// The pieces of `s` split at `p`.
pub fn split_text(s: &str, p: &str) -> (r: Vec<String>)
    ensures
        r@.map_values(|x: String| x@) == split_spec(s@, p@),
{
    let cs = str_chars(s);
    let ps = str_chars(p);
    let n = cs.len();
    let mut out: Vec<String> = Vec::new();
    if ps.len() == 0 {
        out.push(String::new());
        let mut i: usize = 0;
        while i < n
            invariant
                i <= n,
                n == cs@.len(),
                cs@ == s@,
                out@.len() == i + 1,
                out@[0]@ == Seq::<char>::empty(),
                forall|k: int| 1 <= k <= i ==> #[trigger] out@[k]@ == seq![cs@[k - 1]],
            decreases n - i,
        {
            let mut piece = String::new();
            push_char(&mut piece, cs[i]);
            out.push(piece);
            i = i + 1;
        }
        out.push(String::new());
        proof {
            assert(out@.map_values(|x: String| x@) =~= split_spec(s@, p@));
        }
        return out;
    }
    let mut acc = String::new();
    let mut i: usize = 0;
    proof {
        assert(cs@.skip(0) =~= cs@);
        assert(out@.map_values(|x: String| x@) =~= Seq::<Seq<char>>::empty());
    }
    loop
        invariant
            i <= n,
            n == cs@.len(),
            cs@ == s@,
            ps@ == p@,
            ps@.len() > 0,
            split_spec(s@, p@) == out@.map_values(|x: String| x@) + split_pieces(cs@.skip(i as int), p@, acc@),
        decreases n - i,
    {
        proof {
            lemma_split_step(cs@, ps@, acc@, i as int);
        }
        if n - i < ps.len() {
            let rest = chars_to_string(&cs, i, n);
            proof {
                assert(cs@.subrange(i as int, n as int) =~= cs@.skip(i as int));
            }
            push_all(&mut acc, rest.as_str());
            let ghost before = out@.map_values(|x: String| x@);
            out.push(acc);
            proof {
                assert(out@.map_values(|x: String| x@) =~= before.push(acc@));
            }
            return out;
        }
        if occurs_at_exec(&cs, &ps, i) {
            let ghost before = out@.map_values(|x: String| x@);
            let piece = acc;
            acc = String::new();
            out.push(piece);
            proof {
                assert(out@.map_values(|x: String| x@) =~= before.push(piece@));
                assert(before + (seq![piece@] + split_pieces(cs@.skip(i + ps@.len()), p@, Seq::empty()))
                    =~= before.push(piece@) + split_pieces(cs@.skip(i + ps@.len()), p@, Seq::empty()));
            }
            i = i + ps.len();
        } else {
            push_char(&mut acc, cs[i]);
            i = i + 1;
        }
    }
}

/// `join`.
fn builtin_join<P, T, D, I>(args: &Vec<Value>, fs: &FloatSupport<P, T, D, I>) -> (r: Option<Result<Value, EvalError>>) where
    P: Fn(&str) -> Option<u64>,
    T: Fn(u64) -> String,
    D: Fn(u64) -> String,
    I: Fn(i64) -> u64,

    requires
        fs.wf(),
    ensures
        opt_outcome(r) == join_spec(models(args@), fs.spec().text),
{
    if args.len() != 2 {
        return Some(Err(arg_count_error(2, args.len())));
    }
    let ghost a = models(args@);
    proof {
        assert(a[0] == args@[0]@);
        assert(a[1] == args@[1]@);
    }
    match &args[0] {
        Value::Array(xs) => match &args[1] {
            Value::String(sep) => {
                proof {
                    lemma_array_model(*xs);
                }
                let ghost sv = models(xs@);
                let ghost ft = fs.spec().text;
                let ghost parts = texts_of(sv, ft);
                let mut out = String::new();
                let mut i: usize = 0;
                proof {
                    assert(parts.take(0) =~= Seq::<Seq<char>>::empty());
                }
                while i < xs.len()
                    invariant
                        i <= xs@.len(),
                        fs.wf(),
                        sv == models(xs@),
                        ft == fs.spec().text,
                        parts == texts_of(sv, ft),
                        a == models(args@),
                        a.len() == 2,
                        a[0] == SValue::Array(sv),
                        a[1] == SValue::Str(sep@),
                        out@ == join_texts(parts.take(i as int), sep@),
                        forall|k: int| 0 <= k < i ==> !render_stops(#[trigger] sv[k]),
                    decreases xs@.len() - i,
                {
                    proof {
                        assert(sv[i as int] == xs@[i as int]@);
                        crate::display::lemma_join_step(parts, i as int, sep@);
                    }
                    match xs[i].display(fs) {
                        None => {
                            proof {
                                assert(render_stops(sv[i as int]));
                                assert(any_stops(sv));
                            }
                            return None;
                        },
                        Some(t) => {
                            if i > 0 {
                                push_all(&mut out, sep.as_str());
                            }
                            push_all(&mut out, t.as_str());
                        },
                    }
                    i = i + 1;
                }
                proof {
                    assert(parts.take(i as int) =~= parts);
                    assert(!any_stops(sv));
                }
                Some(Ok(Value::String(out)))
            },
            v => Some(Err(EvalError::TypeError { message: around_type("Expected a string argument, got: '", v, "'") })),
        },
        v => Some(Err(EvalError::TypeError { message: around_type("Expected an array argument, got: '", v, "'") })),
    }
}

/// Parses `s[from..to]` as a placeholder index.
fn parse_index_exec(s: &Vec<char>, from: usize, to: usize) -> (r: Result<usize, bool>)
    requires
        from <= to <= s@.len(),
    ensures
        match parse_index(s@.subrange(from as int, to as int)) {
            Ok(v) => r matches Ok(x) && x == v,
            Err(o) => r == Err::<usize, bool>(o),
        },
{
    let mut acc: usize = 0;
    let mut j = from;
    proof {
        assert(s@.subrange(from as int, from as int) =~= Seq::<char>::empty());
    }
    while j < to
        invariant
            from <= j <= to <= s@.len(),
            parse_index(s@.subrange(from as int, j as int)) == Ok::<nat, bool>(acc as nat),
        decreases to - j,
    {
        let c = s[j];
        proof {
            let t = s@.subrange(from as int, j + 1);
            assert(t.drop_last() =~= s@.subrange(from as int, j as int));
            assert(t.last() == c);
        }
        if !('0' <= c && c <= '9') {
            proof {
                assert(parse_index(s@.subrange(from as int, j + 1)) == Err::<nat, bool>(false));
                lemma_parse_index_err(s@, from as int, j + 1, to as int, false);
            }
            return Err(false);
        }
        let d = (c as u32 - '0' as u32) as usize;
        proof {
            assert(d == digit_value(c));
        }
        if acc > (usize::MAX - d) / 10 {
            proof {
                assert(acc * 10 + d > usize::MAX) by (nonlinear_arith)
                    requires
                        acc > (usize::MAX - d) / 10,
                        d <= 9;
                lemma_parse_index_err(s@, from as int, j + 1, to as int, true);
            }
            return Err(true);
        }
        proof {
            assert(acc * 10 + d <= usize::MAX) by (nonlinear_arith)
                requires
                    acc <= (usize::MAX - d) / 10,
                    d <= 9;
        }
        acc = acc * 10 + d;
        j = j + 1;
    }
    Ok(acc)
}

/// Once parsing an index fails, it fails the same on every longer prefix.
proof fn lemma_parse_index_err(s: Seq<char>, from: int, j: int, to: int, o: bool)
    requires
        0 <= from <= j <= to <= s.len(),
        parse_index(s.subrange(from, j)) == Err::<nat, bool>(o),
    ensures
        parse_index(s.subrange(from, to)) == Err::<nat, bool>(o),
    decreases to - j,
{
    if j < to {
        let t = s.subrange(from, j + 1);
        assert(t.drop_last() =~= s.subrange(from, j));
        lemma_parse_index_err(s, from, j + 1, to, o);
    }
}

/// An optional result preceded by a text.
pub open spec fn prepend(o: Seq<char>, r: Result<Seq<char>, Outcome>) -> Result<Seq<char>, Outcome> {
    match r {
        Ok(t) => Ok(o + t),
        Err(e) => Err(e),
    }
}

/// `format` with the spans of the placeholders given.
pub fn format_with<P, T, D, I>(args: &Vec<Value>, spans: &Vec<(usize, usize)>, fs: &FloatSupport<P, T, D, I>) -> (r: Option<Result<Value, EvalError>>) where
    P: Fn(&str) -> Option<u64>,
    T: Fn(u64) -> String,
    D: Fn(u64) -> String,
    I: Fn(i64) -> u64,

    requires
        fs.wf(),
        models(args@).len() > 0 && models(args@)[0] is Str ==> spans_ok(models(args@)[0]->Str_0, spans@),
    ensures
        opt_outcome(r) == format_with_spec(models(args@), spans@, fs.spec().text),
{
    let ghost a = models(args@);
    let ghost ft = fs.spec().text;
    if args.len() == 0 {
        return Some(Err(arg_count_error(1, 0)));
    }
    proof {
        assert(a[0] == args@[0]@);
    }
    let fmt = match &args[0] {
        Value::String(f) => f,
        v => {
            proof {
                reveal_strlit("first");
            }
            return Some(Err(not_string_error("first", v)));
        },
    };
    let ghost rest = a.skip(1);
    let mut texts: Vec<String> = Vec::new();
    let mut i: usize = 1;
    while i < args.len()
        invariant
            1 <= i <= args@.len(),
            fs.wf(),
            a == models(args@),
            a[0] == SValue::Str(fmt@),
            rest == a.skip(1),
            ft == fs.spec().text,
            texts@.len() == i - 1,
            forall|k: int| 0 <= k < i - 1 ==> #[trigger] texts@[k]@ == render(rest[k], ft),
            forall|k: int| 0 <= k < i - 1 ==> !render_stops(#[trigger] rest[k]),
        decreases args@.len() - i,
    {
        proof {
            assert(rest[i - 1] == args@[i as int]@);
        }
        match args[i].display(fs) {
            None => {
                proof {
                    assert(render_stops(rest[i - 1]));
                    assert(any_stops(rest));
                }
                return None;
            },
            Some(t) => texts.push(t),
        }
        i = i + 1;
    }
    let ghost tm = texts@.map_values(|x: String| x@);
    proof {
        assert(!any_stops(rest));
        assert(tm =~= texts_of(rest, ft));
    }
    let cs = str_chars(fmt.as_str());
    let ghost sc = cs@;
    let ghost nargs = a.len();
    let mut out = String::new();
    let mut last: usize = 0;
    let mut k: usize = 0;
    proof {
        assert(spans_ok(sc, spans@));
    }
    while k < spans.len()
        invariant
            k <= spans@.len(),
            sc == cs@,
            sc == fmt@,
            spans_ok(sc, spans@),
            last <= sc.len(),
            k < spans@.len() ==> last <= spans@[k as int].0,
            tm == texts@.map_values(|x: String| x@),
            tm == texts_of(rest, ft),
            nargs == args@.len(),
            a == models(args@),
            a.len() == args@.len(),
            a.len() > 0,
            a[0] == SValue::Str(fmt@),
            rest == a.skip(1),
            ft == fs.spec().text,
            !any_stops(rest),
            format_from(sc, spans@, 0, 0, tm, nargs) == prepend(out@, format_from(sc, spans@, k as nat, last as int, tm, nargs)),
        decreases spans@.len() - k,
    {
        let (sa, sb) = spans[k];
        proof {
            assert(spans@[k as int] == (sa, sb));
            assert(sa + 3 <= sb <= sc.len());
            assert(k + 1 < spans@.len() ==> spans@[k + 1].0 >= sb);
        }
        match format_span(&cs, spans, k, last, &texts, args.len()) {
            Err(None) => {
                proof {
                    assert(format_from(sc, spans@, 0, 0, tm, nargs) == Err::<Seq<char>, Outcome>(Outcome::Stop));
                }
                return None;
            },
            Err(Some(e)) => {
                proof {
                    assert(format_from(sc, spans@, 0, 0, tm, nargs) == Err::<Seq<char>, Outcome>(Outcome::Fail(e@)));
                }
                return Some(Err(e));
            },
            Ok((piece, next)) => {
                proof {
                    let after = format_from(sc, spans@, (k + 1) as nat, next as int, tm, nargs);
                    lemma_prepend_assoc(out@, piece@, after);
                }
                push_all(&mut out, piece.as_str());
                last = next;
            },
        }
        k = k + 1;
    }
    let (tail, _) = unescape_range(&cs, last, cs.len());
    push_all(&mut out, tail.as_str());
    Some(Ok(Value::String(out)))
}

/// Text outside placeholders with its doubled braces made single, and
/// whether it ends in a `{` with no partner.
fn unescape_range(cs: &Vec<char>, from: usize, to: usize) -> (r: (String, bool))
    requires
        from <= to <= cs@.len(),
    ensures
        r.0@ == unescape(cs@.subrange(from as int, to as int)),
        r.1 == open_brace_left(cs@.subrange(from as int, to as int)),
{
    let ghost whole = cs@.subrange(from as int, to as int);
    let mut out = String::new();
    let mut open = false;
    let mut i = from;
    proof {
        assert(whole =~= cs@.subrange(i as int, to as int));
        assert(out@ + unescape(whole) =~= unescape(whole));
    }
    while i < to
        invariant
            from <= i <= to <= cs@.len(),
            whole == cs@.subrange(from as int, to as int),
            unescape(whole) == out@ + unescape(cs@.subrange(i as int, to as int)),
            open_brace_left(whole) == if i == to {
                open
            } else {
                open_brace_left(cs@.subrange(i as int, to as int))
            },
            i < to ==> !open,
        decreases to - i,
    {
        let ghost t = cs@.subrange(i as int, to as int);
        let c = cs[i];
        proof {
            assert(t[0] == c);
        }
        if i + 1 < to && ((c == '{' && cs[i + 1] == '{') || (c == '}' && cs[i + 1] == '}')) {
            proof {
                assert(t[1] == cs@[i + 1]);
                assert(t.skip(2) =~= cs@.subrange(i + 2, to as int));
                assert(open_brace_left(t) == open_brace_left(t.skip(2)));
                if i + 2 == to {
                    assert(t.skip(2).len() == 0);
                }
            }
            push_char(&mut out, c);
            i = i + 2;
            proof {
                assert(unescape(whole) =~= out@ + unescape(cs@.subrange(i as int, to as int)));
            }
        } else if i + 1 < to {
            proof {
                assert(t[1] == cs@[i + 1]);
                assert(t.skip(1) =~= cs@.subrange(i + 1, to as int));
                assert(open_brace_left(t) == open_brace_left(t.skip(1)));
            }
            push_char(&mut out, c);
            i = i + 1;
            proof {
                assert(unescape(whole) =~= out@ + unescape(cs@.subrange(i as int, to as int)));
            }
        } else {
            proof {
                assert(t.len() == 1);
                assert(unescape(t) == t);
                assert(t =~= seq![c]);
                assert(open_brace_left(t) == (c == '{'));
            }
            push_char(&mut out, c);
            open = c == '{';
            i = i + 1;
            proof {
                assert(cs@.subrange(i as int, to as int).len() == 0);
                assert(unescape(whole) =~= out@ + unescape(cs@.subrange(i as int, to as int)));
            }
        }
    }
    proof {
        assert(cs@.subrange(i as int, to as int).len() == 0);
        assert(unescape(whole) =~= out@);
    }
    (out, open)
}

/// What the `k`-th span adds to the text and where the text read so far
/// then ends, or how formatting ends there: with a stop (`Err(None)`) or an
/// error.
fn format_span(
    cs: &Vec<char>,
    spans: &Vec<(usize, usize)>,
    k: usize,
    last: usize,
    texts: &Vec<String>,
    nargs: usize,
) -> (r: Result<(String, usize), Option<EvalError>>)
    requires
        k < spans@.len(),
        last <= spans@[k as int].0,
        spans@[k as int].0 + 3 <= spans@[k as int].1 <= cs@.len(),
    ensures
        format_from(cs@, spans@, k as nat, last as int, texts@.map_values(|x: String| x@), nargs as nat) == match r {
            Ok((piece, next)) => prepend(piece@, format_from(cs@, spans@, (k + 1) as nat, next as int, texts@.map_values(|x: String| x@), nargs as nat)),
            Err(None) => Err(Outcome::Stop),
            Err(Some(e)) => Err(Outcome::Fail(e@)),
        },
        r matches Ok((_, next)) ==> spans@[k as int].0 < next <= spans@[k as int].1,
{
    let ghost tm = texts@.map_values(|x: String| x@);
    let ghost sc = cs@;
    let (sa, sb) = spans[k];
    let (before, open) = unescape_range(cs, last, sa);
    if open {
        let (piece, _) = unescape_range(cs, last, sa + 1);
        return Ok((piece, sa + 1));
    }
    match parse_index_exec(cs, sa + 1, sb - 1) {
        Err(overflow) => {
            let digits = chars_to_string(cs, sa + 1, sb - 1);
            let mut message = lit("Invalid format placeholder index '");
            push_all(&mut message, digits.as_str());
            push_all(&mut message, "': ");
            push_all(&mut message, if overflow { "number too large to fit in target type" } else { "invalid digit found in string" });
            proof {
                assert(message@ =~= index_error_text(digits@, overflow));
            }
            Err(Some(EvalError::ValueError { message }))
        },
        Ok(index) => {
            if index >= texts.len() {
                if index == usize::MAX {
                    return Err(None);
                }
                return Err(Some(arg_count_error(index + 1, nargs)));
            }
            proof {
                assert(tm[index as int] == texts@[index as int]@);
            }
            let mut piece = before;
            push_all(&mut piece, texts[index].as_str());
            Ok((piece, sb))
        },
    }
}

/// Prepending twice is prepending the concatenation.
proof fn lemma_prepend_assoc(o: Seq<char>, t: Seq<char>, r: Result<Seq<char>, Outcome>)
    ensures
        prepend(o, prepend(t, r)) == prepend(o + t, r),
{
    if let Ok(x) = r {
        assert(o + (t + x) =~= (o + t) + x);
    }
}

/// `format`: finds the placeholders of the format string, then formats.
fn builtin_format<P, T, D, I>(args: &Vec<Value>, fs: &FloatSupport<P, T, D, I>) -> (r: Option<Result<Value, EvalError>>) where
    P: Fn(&str) -> Option<u64>,
    T: Fn(u64) -> String,
    D: Fn(u64) -> String,
    I: Fn(i64) -> u64,

    requires
        fs.wf(),
    ensures
        opt_outcome(r) == format_spec(models(args@), fs.spec().text),
{
    let ghost a = models(args@);
    let spans = if args.len() > 0 {
        proof {
            assert(a[0] == args@[0]@);
        }
        match &args[0] {
            Value::String(f) => match compile_regex("\\{(\\d+)\\}") {
                Ok(re) => regex_find_spans(&re, f.as_str()),
                Err(_) => {
                    return None;
                },
            },
            _ => Vec::new(),
        }
    } else {
        Vec::new()
    };
    proof {
        if !(a.len() > 0 && a[0] is Str) {
            assert(spans@ =~= Seq::<(usize, usize)>::empty());
        }
    }
    format_with(args, &spans, fs)
}

/// A string argument, or the error of a function of one string.
fn one_string(args: &Vec<Value>) -> (r: Result<&String, EvalError>)
    ensures
        match r {
            Ok(s) => models(args@).len() == 1 && models(args@)[0] == SValue::Str(s@),
            Err(e) => string_unary(models(args@), |x: Seq<char>| Outcome::Stop) == Outcome::Fail(e@),
        },
{
    if args.len() != 1 {
        return Err(arg_count_error(1, args.len()));
    }
    proof {
        assert(models(args@)[0] == args@[0]@);
    }
    match &args[0] {
        Value::String(s) => Ok(s),
        v => Err(EvalError::TypeError { message: around_type("Expected a string argument, got: '", v, "'") }),
    }
}

/// `base64Encode`.
fn builtin_base64_encode(args: &Vec<Value>) -> (r: Result<Value, EvalError>)
    ensures
        result_outcome(r) == base64_encode_spec(models(args@)),
{
    match one_string(args) {
        Err(e) => Err(e),
        Ok(s) => {
            let bytes = s.as_str().as_bytes();
            let t = base64_encode_bytes(bytes);
            Ok(Value::String(t))
        },
    }
}

/// `base64Decode`.
fn builtin_base64_decode(args: &Vec<Value>) -> (r: Result<Value, EvalError>)
    ensures
        result_outcome(r) == base64_decode_spec(models(args@)),
        forall|s: Seq<char>|
            models(args@) == seq![SValue::Str(#[trigger] base64_encoded(encode_utf8(s)))]
                ==> result_outcome(r) == Outcome::Val(SValue::Str(s)),
{
    proof {
        broadcast use vstd::utf8::encode_utf8_valid_utf8, vstd::utf8::encode_utf8_decode_utf8;
    }
    match one_string(args) {
        Err(e) => {
            proof {
                assert forall|s: Seq<char>|
                    models(args@) == seq![SValue::Str(#[trigger] base64_encoded(encode_utf8(s)))] implies false by {
                    assert(models(args@)[0] == args@[0]@);
                }
            }
            Err(e)
        },
        Ok(s) => match base64_decode_text(s.as_str()) {
            Err(m) => {
                let mut message = lit("Invalid base64 string: '");
                push_all(&mut message, m.as_str());
                push_all(&mut message, "'");
                Err(EvalError::ValueError { message })
            },
            Ok(bytes) => match string_from_utf8(bytes) {
                Ok(t) => Ok(Value::String(t)),
                Err(m) => {
                    let mut message = lit("Decoded bytes are not valid UTF-8: '");
                    push_all(&mut message, m.as_str());
                    push_all(&mut message, "'");
                    Err(EvalError::ValueError { message })
                },
            },
        },
    }
}

/// The error of a value that does not convert to a number type.
fn conversion_error_exec<P, T, D, I>(target: &str, v: &Value, fs: &FloatSupport<P, T, D, I>) -> (e: EvalError) where
    P: Fn(&str) -> Option<u64>,
    T: Fn(u64) -> String,
    D: Fn(u64) -> String,
    I: Fn(i64) -> u64,

    requires
        fs.wf(),
    ensures
        Outcome::Fail(e@) == conversion_error(target@, v@, fs.spec().debug),
{
    let mut message = lit("Expected a value that can be converted to '");
    push_all(&mut message, target);
    push_all(&mut message, "', got '");
    let d = v.debug_text(fs);
    push_all(&mut message, d.as_str());
    push_all(&mut message, "'");
    EvalError::TypeError { message }
}

/// `int`.
fn builtin_int<P, T, D, I>(args: &Vec<Value>, fs: &FloatSupport<P, T, D, I>) -> (r: Result<Value, EvalError>) where
    P: Fn(&str) -> Option<u64>,
    T: Fn(u64) -> String,
    D: Fn(u64) -> String,
    I: Fn(i64) -> u64,

    requires
        fs.wf(),
    ensures
        result_outcome(r) == int_spec(models(args@), fs.spec().debug),
{
    if args.len() != 1 {
        return Err(arg_count_error(1, args.len()));
    }
    proof {
        assert(models(args@)[0] == args@[0]@);
        reveal_strlit("i64");
    }
    match &args[0] {
        Value::Int(i) => Ok(Value::Int(*i)),
        Value::Float(b) => Ok(Value::Int(float_to_i64(*b))),
        Value::String(s) => match parse_i64(s.as_str()) {
            Some(i) => Ok(Value::Int(i)),
            None => Err(conversion_error_exec("i64", &args[0], fs)),
        },
        Value::Bool(b) => Ok(Value::Int(if *b { 1 } else { 0 })),
        v => Err(conversion_error_exec("i64", v, fs)),
    }
}

/// `float`.
fn builtin_float<P, T, D, I>(args: &Vec<Value>, fs: &FloatSupport<P, T, D, I>) -> (r: Result<Value, EvalError>) where
    P: Fn(&str) -> Option<u64>,
    T: Fn(u64) -> String,
    D: Fn(u64) -> String,
    I: Fn(i64) -> u64,

    requires
        fs.wf(),
    ensures
        result_outcome(r) == float_spec(models(args@), fs.spec()),
{
    if args.len() != 1 {
        return Err(arg_count_error(1, args.len()));
    }
    proof {
        assert(models(args@)[0] == args@[0]@);
        reveal_strlit("f64");
    }
    match &args[0] {
        Value::Float(b) => Ok(Value::Float(*b)),
        Value::Int(i) => Ok(Value::Float(fs.float_from_i64(*i))),
        Value::String(s) => match fs.parse_float(s.as_str()) {
            Some(b) => Ok(Value::Float(b)),
            None => Err(conversion_error_exec("f64", &args[0], fs)),
        },
        Value::Bool(b) => Ok(Value::Float(if *b { 0x3ff0_0000_0000_0000 } else { 0 })),
        v => Err(conversion_error_exec("f64", v, fs)),
    }
}

/// Calls a built-in function with argument values: its result, or `None`
/// where the function stops.
pub fn call_builtin<P, T, D, I>(b: Builtin, args: &Vec<Value>, fs: &FloatSupport<P, T, D, I>) -> (r: Option<Result<Value, EvalError>>) where
    P: Fn(&str) -> Option<u64>,
    T: Fn(u64) -> String,
    D: Fn(u64) -> String,
    I: Fn(i64) -> u64,

    requires
        fs.wf(),
    ensures
        opt_outcome(r) == builtin_spec(b, models(args@), fs.spec()),
        b == Builtin::Base64Decode ==> forall|s: Seq<char>|
            models(args@) == seq![SValue::Str(#[trigger] base64_encoded(encode_utf8(s)))]
                ==> opt_outcome(r) == Outcome::Val(SValue::Str(s)),
{
    match b {
        Builtin::Matches => Some(builtin_matches(args)),
        Builtin::Len => Some(builtin_len(args)),
        Builtin::StartsWith => Some(builtin_affix(args, false)),
        Builtin::EndsWith => Some(builtin_affix(args, true)),
        Builtin::Contains => Some(builtin_contains(args)),
        Builtin::Bool => {
            if args.len() != 1 {
                return Some(Err(arg_count_error(1, args.len())));
            }
            proof {
                assert(models(args@)[0] == args@[0]@);
            }
            Some(Ok(Value::Bool(args[0].truthy())))
        },
        Builtin::String => {
            if args.len() != 1 {
                return Some(Err(arg_count_error(1, args.len())));
            }
            proof {
                assert(models(args@)[0] == args@[0]@);
            }
            match args[0].display(fs) {
                None => None,
                Some(t) => Some(Ok(Value::String(t))),
            }
        },
        Builtin::Int => Some(builtin_int(args, fs)),
        Builtin::Float => Some(builtin_float(args, fs)),
        Builtin::Base64Encode => Some(builtin_base64_encode(args)),
        Builtin::Base64Decode => Some(builtin_base64_decode(args)),
        Builtin::Replace => {
            if args.len() != 3 {
                return Some(Err(arg_count_error(3, args.len())));
            }
            let ghost a = models(args@);
            proof {
                assert(a[0] == args@[0]@);
                assert(a[1] == args@[1]@);
                assert(a[2] == args@[2]@);
                reveal_strlit("first");
                reveal_strlit("second");
                reveal_strlit("third");
            }
            match (&args[0], &args[1], &args[2]) {
                (Value::String(x), Value::String(y), Value::String(z)) => Some(
                    Ok(Value::String(replace_text(x.as_str(), y.as_str(), z.as_str()))),
                ),
                (Value::String(_), Value::String(_), v) => Some(Err(not_string_error("third", v))),
                (Value::String(_), v, _) => Some(Err(not_string_error("second", v))),
                (v, _, _) => Some(Err(not_string_error("first", v))),
            }
        },
        Builtin::Format => builtin_format(args, fs),
        Builtin::Join => builtin_join(args, fs),
        Builtin::Split => match two_strings(args) {
            Err(e) => Some(Err(e)),
            Ok((x, y)) => {
                let pieces = split_text(x.as_str(), y.as_str());
                let mut items: Vec<Value> = Vec::new();
                let mut i: usize = 0;
                while i < pieces.len()
                    invariant
                        i <= pieces@.len(),
                        items@.len() == i,
                        forall|k: int| 0 <= k < i ==> #[trigger] items@[k]@ == SValue::Str(pieces@[k]@),
                    decreases pieces@.len() - i,
                {
                    items.push(Value::String(pieces[i].clone()));
                    i = i + 1;
                }
                proof {
                    lemma_array_model(items);
                    assert(models(items@) =~= str_values(pieces@.map_values(|p: String| p@)));
                }
                Some(Ok(Value::Array(items)))
            },
        },
    }
}

} // verus!
