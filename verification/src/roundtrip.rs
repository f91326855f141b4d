//! Reading back the text of a variable access gives the access.
use vstd::prelude::*;
use crate::text::{all_digits, digit_char, digit_value, digits_value, is_digit, nat_text};
use crate::grammar::{
    alnum_end, char_at, digit_end, index_overflows, is_alnum, is_keyword, p_index, p_name,
    p_var_item, p_var_rest, some_digit_start, some_index_overflows, space_end, var_names,
};
use crate::var::{SVarName, access_text, name_text};
use crate::parser::var_text_spec;

verus! {

/// A name that reads back as itself: ASCII letters and digits, not
/// starting with a digit, and not `true`, `false` or `null`.
pub open spec fn plain_name(w: Seq<char>) -> bool {
    &&& w.len() > 0
    &&& forall|i: int| 0 <= i < w.len() ==> #[trigger] is_alnum(w[i])
    &&& !is_digit(w[0])
    &&& !is_keyword(w)
}

proof fn lemma_digit_char(d: int)
    requires
        0 <= d < 10,
    ensures
        is_digit(digit_char(d)),
        digit_value(digit_char(d)) == d,
{
}

/// The decimal text of a number is digits whose value is the number.
proof fn lemma_nat_text_digits(n: nat)
    ensures
        digits_value(nat_text(n)) == n,
        all_digits(nat_text(n)),
        nat_text(n).len() > 0,
    decreases n,
{
    if n < 10 {
        lemma_digit_char(n as int);
        let t = nat_text(n);
        assert(t.drop_last() =~= Seq::<char>::empty());
        assert(digits_value(t.drop_last()) == 0);
        assert(digits_value(t) == digits_value(t.drop_last()) * 10 + digit_value(t.last()));
    } else {
        lemma_nat_text_digits(n / 10);
        lemma_digit_char((n % 10) as int);
        let t = nat_text(n / 10);
        assert(nat_text(n).drop_last() =~= t);
        assert(nat_text(n).last() == digit_char((n % 10) as int));
        assert((n / 10) * 10 + n % 10 == n) by (nonlinear_arith);
        assert(digits_value(nat_text(n)) == digits_value(t) * 10 + digit_value(nat_text(n).last()));
        assert forall|i: int| 0 <= i < nat_text(n).len() implies is_digit(#[trigger] nat_text(n)[i]) by {
            if i < t.len() {
                assert(nat_text(n)[i] == t[i]);
            }
        }
    }
}

/// A run of letters and digits ends where the run does.
proof fn lemma_alnum_run(s: Seq<char>, a: int, w: Seq<char>)
    requires
        0 <= a,
        a + w.len() <= s.len(),
        s.subrange(a, a + w.len()) == w,
        forall|i: int| 0 <= i < w.len() ==> #[trigger] is_alnum(w[i]),
        a + w.len() == s.len() || !is_alnum(s[a + w.len()]),
    ensures
        alnum_end(s, a) == a + w.len(),
    decreases w.len(),
{
    if w.len() > 0 {
        assert(s[a] == w[0]);
        let t = w.drop_first();
        assert(s.subrange(a + 1, a + 1 + t.len()) =~= t);
        assert forall|i: int| 0 <= i < t.len() implies #[trigger] is_alnum(t[i]) by {
            assert(t[i] == w[i + 1]);
        }
        lemma_alnum_run(s, a + 1, t);
    }
}

/// A run of digits ends where the run does.
proof fn lemma_digit_run(s: Seq<char>, a: int, w: Seq<char>)
    requires
        0 <= a,
        a + w.len() <= s.len(),
        s.subrange(a, a + w.len()) == w,
        all_digits(w),
        a + w.len() == s.len() || !is_digit(s[a + w.len()]),
    ensures
        digit_end(s, a) == a + w.len(),
    decreases w.len(),
{
    if w.len() > 0 {
        assert(s[a] == w[0]);
        let t = w.drop_first();
        assert(s.subrange(a + 1, a + 1 + t.len()) =~= t);
        assert forall|i: int| 0 <= i < t.len() implies is_digit(#[trigger] t[i]) by {
            assert(t[i] == w[i + 1]);
        }
        lemma_digit_run(s, a + 1, t);
    }
}

/// What the parser reads for a name: the name and the digits of its index.
pub open spec fn item_of(x: SVarName) -> (Seq<char>, Option<Seq<char>>) {
    (
        x.name,
        match x.index {
            Some(i) => Some(nat_text(i as nat)),
            None => None,
        },
    )
}

/// The text of a name, followed by a `.` or by the end, reads as the name.
proof fn lemma_parse_item(s: Seq<char>, a: int, x: SVarName)
    requires
        plain_name(x.name),
        0 <= a,
        a + name_text(x).len() <= s.len(),
        s.subrange(a, a + name_text(x).len()) == name_text(x),
        a + name_text(x).len() == s.len() || s[a + name_text(x).len()] == '.',
    ensures
        p_var_item(s, a) == Ok::<((Seq<char>, Option<Seq<char>>), int), crate::grammar::PErr>(
            (item_of(x), a + name_text(x).len()),
        ),
{
    let w = x.name;
    let nt = name_text(x);
    let j = a + w.len();
    let e = a + nt.len();
    assert forall|q: int| 0 <= q < nt.len() implies s[a + q] == nt[q] by {
        assert(s.subrange(a, e)[q] == s[a + q]);
    }
    assert(nt.subrange(0, w.len() as int) =~= w);
    assert(s.subrange(a, j) =~= w) by {
        assert forall|q: int| 0 <= q < w.len() implies s.subrange(a, j)[q] == w[q] by {
            assert(nt[q] == w[q]);
        }
    }
    match x.index {
        None => {
            assert(nt == w);
            lemma_alnum_run(s, a, w);
            assert(p_name(s, a) == Ok::<(Seq<char>, int), crate::grammar::PErr>((w, j)));
            assert(!char_at(s, j, '['));
            assert(p_index(s, j) is None);
        },
        Some(i) => {
            let d = nat_text(i as nat);
            lemma_nat_text_digits(i as nat);
            assert(nt == w + seq!['['] + d + seq![']']);
            assert(nt[w.len() as int] == '[');
            assert(s[j] == '[');
            lemma_alnum_run(s, a, w);
            assert(p_name(s, a) == Ok::<(Seq<char>, int), crate::grammar::PErr>((w, j)));
            let b = j + 1 + d.len();
            assert forall|q: int| 0 <= q < d.len() implies s[j + 1 + q] == d[q] by {
                assert(nt[w.len() + 1 + q] == d[q]);
            }
            assert(s.subrange(j + 1, b) =~= d);
            assert(nt[(w.len() + 1 + d.len()) as int] == ']');
            assert(s[b] == ']');
            assert(is_digit(d[0]));
            assert(space_end(s, j + 1) == j + 1);
            lemma_digit_run(s, j + 1, d);
            assert(space_end(s, b) == b);
            assert(b + 1 == e);
            assert(space_end(s, b + 1) == b + 1);
            assert(p_index(s, j) == Some((d, e)));
        },
    }
}

/// What the parser reads for each name.
pub open spec fn items_of(ns: Seq<SVarName>) -> Seq<(Seq<char>, Option<Seq<char>>)> {
    Seq::new(ns.len(), |k: int| item_of(ns[k]))
}

/// The text of the first names is the start of the text of all.
proof fn lemma_access_text_prefix(names: Seq<SVarName>, k: int)
    requires
        0 <= k <= names.len(),
    ensures
        access_text(names.take(k)).len() <= access_text(names).len(),
        access_text(names).subrange(0, access_text(names.take(k)).len() as int) == access_text(names.take(k)),
    decreases names.len() - k,
{
    let s = access_text(names);
    if k == names.len() {
        assert(names.take(k) =~= names);
        assert(s.subrange(0, s.len() as int) =~= s);
    } else {
        lemma_access_text_prefix(names, k + 1);
        let p = names.take(k);
        let q = names.take(k + 1);
        let tp = access_text(p);
        let tq = access_text(q);
        if k == 0 {
            assert(p =~= Seq::<SVarName>::empty());
            assert(s.subrange(0, 0) =~= tp);
        } else {
            assert(q.drop_last() =~= p);
            assert(tq == tp + seq!['.'] + name_text(q.last()));
            assert(tq.subrange(0, tp.len() as int) =~= tp);
            assert(s.subrange(0, tp.len() as int) =~= tq.subrange(0, tp.len() as int));
        }
    }
}

/// After the first names, the rest of the text reads as the other names.
proof fn lemma_parse_rest(names: Seq<SVarName>, k: int)
    requires
        1 <= k <= names.len(),
        forall|t: int| 0 <= t < names.len() ==> #[trigger] plain_name(names[t].name),
    ensures
        p_var_rest(access_text(names), access_text(names.take(k)).len() as int, items_of(names.take(k)))
            == (items_of(names), access_text(names).len() as int),
    decreases names.len() - k,
{
    let s = access_text(names);
    let p = names.take(k);
    let pos = access_text(p).len() as int;
    lemma_access_text_prefix(names, k);
    if k == names.len() {
        assert(p =~= names);
        assert(!char_at(s, pos, '.'));
    } else {
        lemma_access_text_prefix(names, k + 1);
        let q = names.take(k + 1);
        let x = names[k];
        assert(q.drop_last() =~= p);
        assert(q.last() == x);
        let tq = access_text(q);
        assert(tq == access_text(p) + seq!['.'] + name_text(x));
        let e = tq.len() as int;
        assert(s.subrange(0, e) == tq);
        assert(s[pos] == '.') by {
            assert(s.subrange(0, e)[pos] == s[pos]);
        }
        assert(s.subrange(pos + 1, e) =~= name_text(x)) by {
            assert forall|i: int| 0 <= i < name_text(x).len() implies s.subrange(pos + 1, e)[i] == name_text(x)[i] by {
                assert(s.subrange(0, e)[pos + 1 + i] == s[pos + 1 + i]);
                assert(tq[pos + 1 + i] == name_text(x)[i]);
            }
        }
        if k + 1 < names.len() {
            lemma_access_text_prefix(names, k + 2);
            let r = names.take(k + 2);
            assert(r.drop_last() =~= q);
            let tr = access_text(r);
            assert(tr == tq + seq!['.'] + name_text(r.last()));
            assert(tr[e] == '.');
            assert(s.subrange(0, tr.len() as int)[e] == s[e]);
        } else {
            assert(q =~= names);
        }
        assert(plain_name(x.name));
        lemma_parse_item(s, pos + 1, x);
        assert(items_of(p).push(item_of(x)) =~= items_of(q));
        lemma_parse_rest(names, k + 1);
    }
}

/// The text of a variable access whose names are plain reads back as the
/// same access: [`VarAccess::parse`](crate::var::VarAccess::parse) undoes
/// [`VarAccess::to_string`](crate::var::VarAccess::to_string).
pub proof fn law_var_text_round_trip(names: Seq<SVarName>)
    requires
        names.len() > 0,
        forall|t: int| 0 <= t < names.len() ==> #[trigger] plain_name(names[t].name),
    ensures
        var_text_spec(access_text(names)) == Some(
            Ok::<Seq<SVarName>, (Seq<char>, crate::errors::ErrorKind)>(names),
        ),
{
    let s = access_text(names);
    let x = names[0];
    let p1 = names.take(1);
    lemma_access_text_prefix(names, 1);
    assert(access_text(p1) == name_text(p1[0]));
    assert(p1[0] == x);
    let e = name_text(x).len() as int;
    assert(s.subrange(0, e) == name_text(x));
    if names.len() > 1 {
        lemma_access_text_prefix(names, 2);
        let p2 = names.take(2);
        assert(p2.drop_last() =~= p1);
        let t2 = access_text(p2);
        assert(t2 == access_text(p1) + seq!['.'] + name_text(p2.last()));
        assert(t2[e] == '.');
        assert(s.subrange(0, t2.len() as int)[e] == s[e]);
    } else {
        assert(p1 =~= names);
    }
    assert(plain_name(x.name));
    lemma_parse_item(s, 0, x);
    assert(items_of(p1) =~= seq![item_of(x)]);
    lemma_parse_rest(names, 1);
    let items = items_of(names);
    assert(!some_digit_start(items)) by {
        assert forall|k: int| 0 <= k < items.len() implies !is_digit((#[trigger] items[k]).0[0]) by {
            assert(plain_name(names[k].name));
        }
    }
    assert(!some_index_overflows(items)) by {
        assert forall|k: int| 0 <= k < items.len() implies !index_overflows((#[trigger] items[k]).1) by {
            match names[k].index {
                Some(i) => lemma_nat_text_digits(i as nat),
                None => {},
            }
        }
    }
    assert(var_names(items) =~= names) by {
        assert forall|k: int| 0 <= k < names.len() implies #[trigger] var_names(items)[k] == names[k] by {
            match names[k].index {
                Some(i) => lemma_nat_text_digits(i as nat),
                None => {},
            }
        }
    }
}

} // verus!
