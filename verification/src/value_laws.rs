//! Laws of values: when values are equal, which are truthy, and how arrays
//! and objects are written as text.
use vstd::prelude::*;
use crate::value::{SValue, entry_texts, item_texts, join_texts, quoted, render, truthy, value_eq};

verus! {

/// Arrays are equal exactly when they have the same length and equal items
/// at every index.
pub proof fn law_array_eq(xs: Seq<SValue>, ys: Seq<SValue>)
    ensures
        value_eq(SValue::Array(xs), SValue::Array(ys))
            == (xs.len() == ys.len() && forall|i: int| 0 <= i < xs.len() ==> #[trigger] value_eq(xs[i], ys[i])),
{
    if value_eq(SValue::Array(xs), SValue::Array(ys)) {
        assert forall|i: int| 0 <= i < xs.len() implies #[trigger] value_eq(xs[i], ys[i]) by {
            assert(xs[i] == xs[i]);
        }
    }
    if xs.len() == ys.len() && forall|i: int| 0 <= i < xs.len() ==> #[trigger] value_eq(xs[i], ys[i]) {
        assert forall|i: int| #![trigger xs[i]] 0 <= i < xs.len() implies value_eq(xs[i], ys[i]) by {
            assert(value_eq(xs[i], ys[i]));
        }
    }
}

/// An array is not equal to one that has, at some index, an item not equal
/// to its own: every item is compared.
pub proof fn law_array_eq_every_item(xs: Seq<SValue>, ys: Seq<SValue>, i: int, y: SValue)
    requires
        0 <= i < xs.len(),
        i < ys.len(),
        !value_eq(xs[i], y),
    ensures
        !value_eq(SValue::Array(xs), SValue::Array(ys.update(i, y))),
{
    if value_eq(SValue::Array(xs), SValue::Array(ys.update(i, y))) {
        assert(value_eq(xs[i], ys.update(i, y)[i]));
    }
}

/// The text of a value written as an item of an array or an object entry's
/// value: what stands between the brackets of the one-item array.
pub open spec fn item_text(v: SValue, ft: spec_fn(u64) -> Seq<char>) -> Seq<char> {
    let a = render(SValue::Array(seq![v]), ft);
    a.subrange(1, a.len() - 1)
}

/// The item text of a value is its text as the one item of an array.
proof fn lemma_item_text(v: SValue, ft: spec_fn(u64) -> Seq<char>)
    ensures
        item_text(v, ft) == item_texts(seq![v], ft)[0],
{
    reveal_strlit(", ");
    let a = render(SValue::Array(seq![v]), ft);
    let its = item_texts(seq![v], ft);
    assert(its.len() == 1);
    assert(join_texts(its, ", "@) == its[0]);
    assert(a == seq!['['] + its[0] + seq![']']);
    assert(a.subrange(1, a.len() - 1) =~= its[0]);
}

/// The text of one entry.
proof fn lemma_entry_text(xs: Seq<(Seq<char>, SValue)>, i: int, ft: spec_fn(u64) -> Seq<char>)
    requires
        0 <= i < xs.len(),
    ensures
        entry_texts(xs, ft)[i] == seq!['"'] + xs[i].0 + seq!['"', ':', ' '] + item_text(xs[i].1, ft),
{
    reveal_strlit("\": ");
    lemma_item_text(xs[i].1, ft);
    let its = item_texts(seq![xs[i].1], ft);
    assert(seq![xs[i].1][0] == xs[i].1);
    assert(entry_texts(xs, ft)[i] =~= seq!['"'] + xs[i].0 + seq!['"', ':', ' '] + its[0]);
}

/// An object is written as JSON writes it: `{}` when empty; else in
/// braces, each entry in turn, separated by `, `, as the key in double
/// quotes, `: ` and the value as an array item is written.
pub proof fn law_object_text(xs: Seq<(Seq<char>, SValue)>, k: Seq<char>, v: SValue, ft: spec_fn(u64) -> Seq<char>)
    ensures
        render(SValue::Object(Seq::empty()), ft) == seq!['{', '}'],
        render(SValue::Object(seq![(k, v)]), ft) == seq!['{', '"'] + k + seq!['"', ':', ' '] + item_text(v, ft) + seq!['}'],
        xs.len() > 0 ==> render(SValue::Object(xs.push((k, v))), ft) == render(SValue::Object(xs), ft).drop_last()
            + seq![',', ' ', '"'] + k + seq!['"', ':', ' '] + item_text(v, ft) + seq!['}'],
{
    reveal_strlit(", ");
    let e0 = entry_texts(Seq::<(Seq<char>, SValue)>::empty(), ft);
    assert(e0.len() == 0);
    assert(render(SValue::Object(Seq::empty()), ft) =~= seq!['{', '}']);
    let one = seq![(k, v)];
    let e1 = entry_texts(one, ft);
    lemma_entry_text(one, 0, ft);
    assert(e1.len() == 1);
    assert(join_texts(e1, ", "@) == e1[0]);
    assert(render(SValue::Object(one), ft) =~= seq!['{', '"'] + k + seq!['"', ':', ' '] + item_text(v, ft) + seq!['}']);
    if xs.len() > 0 {
        let ys = xs.push((k, v));
        let ex = entry_texts(xs, ft);
        let ey = entry_texts(ys, ft);
        lemma_entry_text(ys, xs.len() as int, ft);
        assert(ey.drop_last() =~= ex);
        assert(ey.last() == seq!['"'] + k + seq!['"', ':', ' '] + item_text(v, ft));
        assert(join_texts(ey, ", "@) == join_texts(ex, ", "@) + ", "@ + ey.last());
        let rx = render(SValue::Object(xs), ft);
        assert(rx.drop_last() =~= seq!['{'] + join_texts(ex, ", "@));
        assert(render(SValue::Object(ys), ft) =~= rx.drop_last() + seq![',', ' ', '"'] + k + seq!['"', ':', ' ']
            + item_text(v, ft) + seq!['}']);
    }
}

/// An array is written in brackets, its items in turn separated by `, `;
/// a string item in double quotes, any other item as its own text. A string
/// on its own is written as itself.
pub proof fn law_array_text(xs: Seq<SValue>, v: SValue, s: Seq<char>, ft: spec_fn(u64) -> Seq<char>)
    ensures
        render(SValue::Array(Seq::empty()), ft) == seq!['[', ']'],
        xs.len() > 0 ==> render(SValue::Array(xs.push(v)), ft) == render(SValue::Array(xs), ft).drop_last()
            + seq![',', ' '] + item_text(v, ft) + seq![']'],
        !(v is Str) ==> item_text(v, ft) == render(v, ft),
        item_text(SValue::Str(s), ft).len() >= 2,
        item_text(SValue::Str(s), ft)[0] == '"',
        item_text(SValue::Str(s), ft).last() == '"',
        render(SValue::Str(s), ft) == s,
{
    reveal_strlit(", ");
    let e = item_texts(Seq::<SValue>::empty(), ft);
    assert(e.len() == 0);
    assert(render(SValue::Array(Seq::empty()), ft) =~= seq!['[', ']']);
    lemma_item_text(v, ft);
    lemma_item_text(SValue::Str(s), ft);
    assert(seq![v][0] == v);
    assert(seq![SValue::Str(s)][0] == SValue::Str(s));
    let q = item_texts(seq![SValue::Str(s)], ft)[0];
    assert(q == quoted(s));
    assert(q[0] == '"');
    assert(q.last() == '"');
    if xs.len() > 0 {
        let ys = xs.push(v);
        let ix = item_texts(xs, ft);
        let iy = item_texts(ys, ft);
        assert(iy.drop_last() =~= ix);
        assert(ys[xs.len() as int] == v);
        assert(iy.last() == item_texts(seq![v], ft)[0]);
        assert(join_texts(iy, ", "@) == join_texts(ix, ", "@) + ", "@ + iy.last());
        let rx = render(SValue::Array(xs), ft);
        assert(rx.drop_last() =~= seq!['['] + join_texts(ix, ", "@));
        assert(render(SValue::Array(ys), ft) =~= rx.drop_last() + seq![',', ' '] + item_text(v, ft) + seq![']']);
    }
}

/// Truthiness: an integer is truthy when not zero, a string, array or
/// object when not empty, a boolean when true; null never.
pub proof fn law_truthiness(i: i64, b: bool, s: Seq<char>, xs: Seq<SValue>, es: Seq<(Seq<char>, SValue)>)
    ensures
        truthy(SValue::Int(i)) == (i != 0),
        truthy(SValue::Bool(b)) == b,
        truthy(SValue::Str(s)) == (s.len() > 0),
        !truthy(SValue::Null),
        truthy(SValue::Array(xs)) == (xs.len() > 0),
        truthy(SValue::Object(es)) == (es.len() > 0),
{
}

/// Integers, strings and booleans are equal exactly when they are the same;
/// null equals null.
pub proof fn law_scalar_eq(x: i64, y: i64, s: Seq<char>, t: Seq<char>, b: bool, c: bool)
    ensures
        value_eq(SValue::Int(x), SValue::Int(y)) == (x == y),
        value_eq(SValue::Str(s), SValue::Str(t)) == (s == t),
        value_eq(SValue::Bool(b), SValue::Bool(c)) == (b == c),
        value_eq(SValue::Null, SValue::Null),
{
}

} // verus!
