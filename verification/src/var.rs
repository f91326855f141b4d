//! Variable accesses such as `foo.bar[0].baz`.
use vstd::prelude::*;
use crate::text::{concat, i64_text, int_text, lit, push_all, u64_text, nat_text};
use crate::value::{
    SValue, Value, entry_models, lookup, lemma_array_model, lemma_object_model, models, object_get,
    svalue_type, type_text,
};
use crate::errors::{SVarAccessError, VarAccessError};

verus! {

broadcast use vstd::string::group_string_axioms;

/// A variable name with an optional index for array access.
#[derive(Debug, Clone, PartialEq, Eq, Hash)]
pub struct VarName {
    pub name: String,
    pub index: Option<usize>,
}

/// The model of a [`VarName`].
pub struct SVarName {
    pub name: Seq<char>,
    pub index: Option<usize>,
}

impl View for VarName {
    type V = SVarName;

    open spec fn view(&self) -> SVarName {
        SVarName { name: self.name@, index: self.index }
    }
}

impl VarName {
    /// A name with an optional index (`foo[0]` is `foo` with index 0).
    pub fn new(name: &str, index: Option<usize>) -> (r: VarName)
        ensures
            r@ == (SVarName { name: name@, index }),
    {
        VarName { name: lit(name), index }
    }

    /// The name.
    pub fn name(&self) -> (r: &str)
        ensures
            r@ == self@.name,
    {
        self.name.as_str()
    }

    /// The index, if the name indexes an array.
    pub fn index(&self) -> (r: Option<usize>)
        ensures
            r == self@.index,
    {
        self.index
    }

    /// A copy of the name.
    pub fn copy(&self) -> (r: VarName)
        ensures
            r@ == self@,
    {
        VarName { name: self.name.clone(), index: self.index }
    }
}

/// A variable access: a nonempty series of names.
///
/// `foo.bar[0].baz` is the names `foo`, `bar` with index 0, and `baz`.
#[derive(Debug, Clone, PartialEq, Eq, Hash)]
pub struct VarAccess {
    pub names: Vec<VarName>,
}

impl View for VarAccess {
    type V = Seq<SVarName>;

    open spec fn view(&self) -> Seq<SVarName> {
        self.names@.map_values(|n: VarName| n@)
    }
}

/// The message of an index past the end of an array.
pub open spec fn out_of_bounds_text(name: Seq<char>, index: usize, len: nat) -> Seq<char> {
    "Index out of bounds at '"@ + name + "' (index: "@ + nat_text(index as nat) + " length: "@
        + nat_text(len) + ")"@
}

/// The message of an index applied to something that is not an array.
pub open spec fn not_array_text(name: Seq<char>, found: SValue) -> Seq<char> {
    "Expected array at '"@ + name + "', received "@ + type_text(svalue_type(found))
}

/// A name's index applied to the value found for the name: the value
/// itself where the name has no index, else the item at the index of the
/// array that the value must be.
pub open spec fn apply_index(var: SVarName, v: SValue) -> Result<SValue, SVarAccessError> {
    match var.index {
        None => Ok(v),
        Some(i) => match v {
            SValue::Array(a) => if i < a.len() {
                Ok(a[i as int])
            } else {
                Err(SVarAccessError::IndexOutOfBounds(out_of_bounds_text(var.name, i, a.len())))
            },
            _ => Err(SVarAccessError::TypeError(not_array_text(var.name, v))),
        },
    }
}

/// Walking the names through nested objects: each name looks up a key of
/// the current value, which must be an object, and then applies its index,
/// if any, to what it found, which must then be an array.
pub open spec fn access_path(names: Seq<SVarName>, cur: SValue) -> Result<SValue, SVarAccessError>
    decreases names.len(),
{
    if names.len() == 0 {
        Ok(cur)
    } else {
        let var = names[0];
        match cur {
            SValue::Object(o) => match lookup(o, var.name) {
                None => Err(SVarAccessError::VariableNotFound(var.name)),
                Some(next) => match apply_index(var, next) {
                    Ok(v) => access_path(names.drop_first(), v),
                    Err(e) => Err(e),
                },
            },
            _ => Err(SVarAccessError::TypeError(not_object_text(var.name, cur))),
        }
    }
}

/// The message of a name applied to something that is not an object.
pub open spec fn not_object_text(name: Seq<char>, found: SValue) -> Seq<char> {
    "Expected object at '"@ + name + "', received "@ + type_text(svalue_type(found))
}

/// Accessing from a value: all names walk the path.
pub open spec fn access_spec(names: Seq<SVarName>, value: SValue) -> Result<SValue, SVarAccessError> {
    if names.len() == 0 {
        Err(SVarAccessError::EmptyAccess)
    } else {
        access_path(names, value)
    }
}

/// Accessing from bindings: the first name picks the binding, and its
/// index, if any, applies to the bound value; the others walk the path.
pub open spec fn access_bindings_spec(names: Seq<SVarName>, bindings: Seq<(Seq<char>, SValue)>) -> Result<SValue, SVarAccessError> {
    if names.len() == 0 {
        Err(SVarAccessError::EmptyAccess)
    } else {
        match lookup(bindings, names[0].name) {
            None => Err(SVarAccessError::VariableNotFound(names[0].name)),
            Some(v) => match apply_index(names[0], v) {
                Ok(c) => access_path(names.drop_first(), c),
                Err(e) => Err(e),
            },
        }
    }
}

/// The text of an access as its `Display` writes it.
pub open spec fn access_text(names: Seq<SVarName>) -> Seq<char>
    decreases names.len(),
{
    if names.len() == 0 {
        Seq::empty()
    } else if names.len() == 1 {
        name_text(names[0])
    } else {
        access_text(names.drop_last()) + seq!['.'] + name_text(names.last())
    }
}

/// One name and its index.
pub open spec fn name_text(n: SVarName) -> Seq<char> {
    match n.index {
        None => n.name,
        Some(i) => n.name + seq!['['] + nat_text(i as nat) + seq![']'],
    }
}

fn out_of_bounds_message(name: &str, index: usize, len: usize) -> (r: String)
    ensures
        r@ == out_of_bounds_text(name@, index, len as nat),
{
    let mut s = lit("Index out of bounds at '");
    push_all(&mut s, name);
    push_all(&mut s, "' (index: ");
    let t = u64_text(index as u64);
    push_all(&mut s, t.as_str());
    push_all(&mut s, " length: ");
    let l = u64_text(len as u64);
    push_all(&mut s, l.as_str());
    push_all(&mut s, ")");
    s
}

fn not_array_message(name: &str, found: &Value) -> (r: String)
    ensures
        r@ == not_array_text(name@, found@),
{
    let mut s = lit("Expected array at '");
    push_all(&mut s, name);
    push_all(&mut s, "', received ");
    let t = found.type_of().to_string();
    push_all(&mut s, t.as_str());
    s
}

fn not_object_message(name: &str, found: &Value) -> (r: String)
    ensures
        r@ == not_object_text(name@, found@),
{
    let mut s = lit("Expected object at '");
    push_all(&mut s, name);
    push_all(&mut s, "', received ");
    let t = found.type_of().to_string();
    push_all(&mut s, t.as_str());
    s
}

/// [`apply_index`] on a value found for `var`.
fn index_into<'a>(var: &VarName, v: &'a Value) -> (r: Result<&'a Value, VarAccessError>)
    ensures
        match apply_index(var@, v@) {
            Ok(x) => r matches Ok(y) && y@ == x,
            Err(e) => r matches Err(y) && y@ == e,
        },
{
    match var.index() {
        None => Ok(v),
        Some(idx) => match v {
            Value::Array(arr) => {
                proof {
                    lemma_array_model(*arr);
                }
                if idx < arr.len() {
                    Ok(&arr[idx])
                } else {
                    let m = out_of_bounds_message(var.name(), idx, arr.len());
                    Err(VarAccessError::IndexOutOfBounds { message: m })
                }
            },
            _ => {
                let m = not_array_message(var.name(), v);
                Err(VarAccessError::TypeError { message: m })
            },
        },
    }
}

impl VarAccess {
    /// An access from its names; there must be at least one.
    pub fn new(names: Vec<VarName>) -> (r: VarAccess)
        requires
            names@.len() > 0,
        ensures
            r.names@ == names@,
            r@ == names@.map_values(|n: VarName| n@),
    {
        VarAccess { names }
    }

    /// The names of the access.
    pub fn names(&self) -> (r: &[VarName])
        ensures
            r@ == self.names@,
            r@.map_values(|n: VarName| n@) == self@,
    {
        self.names.as_slice()
    }

    /// A copy of the access.
    pub fn copy(&self) -> (r: VarAccess)
        ensures
            r@ == self@,
    {
        let mut out: Vec<VarName> = Vec::new();
        let mut i: usize = 0;
        while i < self.names.len()
            invariant
                i <= self.names@.len(),
                out@.len() == i,
                forall|j: int| 0 <= j < i ==> #[trigger] out@[j]@ == self.names@[j]@,
            decreases self.names@.len() - i,
        {
            out.push(self.names[i].copy());
            i = i + 1;
        }
        proof {
            assert(out@.map_values(|n: VarName| n@) =~= self.names@.map_values(|n: VarName| n@));
        }
        VarAccess { names: out }
    }

    /// Walks `names[from..]` from `value` as [`access_path`] does, giving a
    /// copy of what was reached.
    fn walk(&self, from: usize, value: &Value) -> (r: Result<Value, VarAccessError>)
        requires
            from <= self@.len(),
        ensures
            match access_path(self@.skip(from as int), value@) {
                Ok(v) => r matches Ok(x) && x@ == v,
                Err(e) => r matches Err(x) && x@ == e,
            },
    {
        let ghost names = self@;
        let mut cur: &Value = value;
        let mut i = from;
        while i < self.names.len()
            invariant
                from <= i <= self.names@.len(),
                names == self@,
                names.len() == self.names@.len(),
                access_path(names.skip(from as int), value@) == access_path(names.skip(i as int), cur@),
            decreases self.names@.len() - i,
        {
            let var = &self.names[i];
            let ghost rest = names.skip(i as int);
            proof {
                assert(rest[0] == var@);
                assert(rest.drop_first() =~= names.skip(i + 1));
            }
            match cur {
                Value::Object(o_map) => {
                    let o = &o_map.entries;
                    proof {
                        lemma_object_model(*o_map);
                    }
                    match object_get(o, var.name()) {
                        None => {
                            return Err(VarAccessError::VariableNotFound { variable: var.name.clone() });
                        },
                        Some(next) => {
                            match index_into(var, next) {
                                Ok(c) => {
                                    cur = c;
                                },
                                Err(e) => {
                                    return Err(e);
                                },
                            }
                        },
                    }
                },
                _ => {
                    let m = not_object_message(var.name(), cur);
                    return Err(VarAccessError::TypeError { message: m });
                },
            }
            i = i + 1;
        }
        proof {
            assert(names.skip(i as int) =~= Seq::<SVarName>::empty());
        }
        Ok(cur.copy())
    }

    /// The value this access denotes inside `value`.
    pub fn access(&self, value: &Value) -> (r: Result<Value, VarAccessError>)
        ensures
            match access_spec(self@, value@) {
                Ok(v) => r matches Ok(x) && x@ == v,
                Err(e) => r matches Err(x) && x@ == e,
            },
    {
        if self.names.len() == 0 {
            return Err(VarAccessError::EmptyAccess);
        }
        proof {
            assert(self@.skip(0) =~= self@);
        }
        self.walk(0, value)
    }

    /// The value this access denotes in the bindings: the first name is the
    /// binding's name.
    pub fn access_from_bindings(&self, bindings: &Vec<(String, Value)>) -> (r: Result<Value, VarAccessError>)
        ensures
            match access_bindings_spec(self@, entry_models(bindings@)) {
                Ok(v) => r matches Ok(x) && x@ == v,
                Err(e) => r matches Err(x) && x@ == e,
            },
    {
        if self.names.len() == 0 {
            return Err(VarAccessError::EmptyAccess);
        }
        let first = &self.names[0];
        proof {
            assert(first@ == self@[0]);
        }
        match object_get(bindings, first.name()) {
            None => Err(VarAccessError::VariableNotFound { variable: first.name.clone() }),
            Some(v) => {
                proof {
                    assert(self@.skip(1) =~= self@.drop_first());
                }
                match index_into(first, v) {
                    Ok(c) => self.walk(1, c),
                    Err(e) => Err(e),
                }
            },
        }
    }

    /// The text of the access: names joined by `.`, each index in brackets.
    pub fn to_string(&self) -> (r: String)
        ensures
            r@ == access_text(self@),
    {
        let mut s = String::new();
        let mut i: usize = 0;
        let ghost names = self@;
        proof {
            assert(names.take(0) =~= Seq::<SVarName>::empty());
        }
        while i < self.names.len()
            invariant
                i <= self.names@.len(),
                names == self@,
                names.len() == self.names@.len(),
                s@ == access_text(names.take(i as int)),
            decreases self.names@.len() - i,
        {
            let var = &self.names[i];
            proof {
                assert(var@ == names[i as int]);
                assert(names.take(i + 1).drop_last() =~= names.take(i as int));
                assert(names.take(i + 1).last() == names[i as int]);
            }
            let ghost s0 = s@;
            if i > 0 {
                push_all(&mut s, ".");
            }
            push_all(&mut s, var.name());
            match var.index() {
                None => {},
                Some(idx) => {
                    push_all(&mut s, "[");
                    let t = u64_text(idx as u64);
                    push_all(&mut s, t.as_str());
                    push_all(&mut s, "]");
                },
            }
            proof {
                reveal_strlit(".");
                reveal_strlit("[");
                reveal_strlit("]");
                if i == 0 {
                    assert(names.take(1).len() == 1);
                    assert(s0 =~= Seq::<char>::empty());
                    assert(s@ =~= name_text(names[0]));
                } else {
                    assert(s@ =~= s0 + seq!['.'] + name_text(names[i as int]));
                }
            }
            i = i + 1;
        }
        proof {
            assert(names.take(names.len() as int) =~= names);
        }
        s
    }
}

} // verus!
