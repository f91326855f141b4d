//! Environments: the variables an expression can read and the functions it
//! can call.
use vstd::prelude::*;
use crate::value::{
    SValue, Value, entry_models, keys_sorted, lookup, object_get, object_insert, sorted_insert, insert_all,
    lemma_insert_all_push, lemma_insert_all_sorted, lemma_sorted_insert_lookup, lemma_sorted_insert_lookup_other,
    lemma_sorted_insert_sorted,
};
use crate::functions::{FnCallback, VTable, builtin_entries, default_vtable};

verus! {

broadcast use vstd::string::group_string_axioms;

/// The variables and functions that an expression is evaluated with.
///
/// To make one, start with [`Env::new`], bind variables on the
/// [`EnvBuilder`] it gives, and call [`EnvBuilder::build`].
#[derive(Debug)]
pub struct Env {
    pub(crate) bindings: Vec<(String, Value)>,
    pub(crate) vtable: VTable,
}

impl Env {
    /// The bindings are in the order of their names, each name once.
    #[verifier::type_invariant]
    pub(crate) open spec fn names_in_order(self) -> bool {
        keys_sorted(entry_models(self.bindings@))
    }
}

/// The model of an [`Env`].
pub struct SEnv {
    pub bindings: Seq<(Seq<char>, SValue)>,
    pub vtable: Seq<(Seq<char>, FnCallback)>,
}

impl View for Env {
    type V = SEnv;

    open(crate) spec fn view(&self) -> SEnv {
        SEnv { bindings: entry_models(self.bindings@), vtable: self.vtable@ }
    }
}

/// Collects the bindings and the function table of an [`Env`]. The
/// bindings are held in the order of their names, each name once.
#[derive(Debug)]
pub struct EnvBuilder {
    pub(crate) bindings: Vec<(String, Value)>,
    pub(crate) vtable: Option<VTable>,
}

/// The model of an [`EnvBuilder`]: the bindings, and the function table
/// if one was chosen.
pub struct SEnvBuilder {
    pub bindings: Seq<(Seq<char>, SValue)>,
    pub vtable: Option<Seq<(Seq<char>, FnCallback)>>,
}

impl EnvBuilder {
    /// The bindings are in the order of their names, each name once.
    #[verifier::type_invariant]
    pub(crate) open spec fn names_in_order(self) -> bool {
        keys_sorted(entry_models(self.bindings@))
    }
}

impl View for EnvBuilder {
    type V = SEnvBuilder;

    open(crate) spec fn view(&self) -> SEnvBuilder {
        SEnvBuilder {
            bindings: entry_models(self.bindings@),
            vtable: match self.vtable {
                Some(t) => Some(t@),
                None => None,
            },
        }
    }
}

/// The function table that [`EnvBuilder::build`] uses when none was given.
pub open spec fn default_table() -> Seq<(Seq<char>, FnCallback)> {
    insert_all(Seq::empty(), builtin_entries())
}

/// The bindings after binding each pair in turn.
pub open spec fn bind_all(b: Seq<(Seq<char>, SValue)>, vars: Seq<(Seq<char>, SValue)>) -> Seq<(Seq<char>, SValue)> {
    insert_all(b, vars)
}

impl Env {
    /// A builder with no bindings and no function table chosen yet.
    pub fn new() -> (r: EnvBuilder)
        ensures
            r@.bindings == Seq::<(Seq<char>, SValue)>::empty(),
            r@.vtable is None,
    {
        let r = EnvBuilder { bindings: Vec::new(), vtable: None };
        proof {
            assert(entry_models(r.bindings@) =~= Seq::<(Seq<char>, SValue)>::empty());
        }
        r
    }

    /// The variable bindings, in the order of their names.
    pub fn bindings(&self) -> (r: &Vec<(String, Value)>)
        ensures
            entry_models(r@) == self@.bindings,
            keys_sorted(self@.bindings),
    {
        proof {
            use_type_invariant(self);
        }
        &self.bindings
    }

    /// The function table.
    pub fn vtable(&self) -> (r: &VTable)
        ensures
            r@ == self@.vtable,
    {
        &self.vtable
    }
}

impl EnvBuilder {
    /// Whether `name` is bound.
    pub fn is_bound(&self, name: &str) -> (r: bool)
        ensures
            r == lookup(self@.bindings, name@) is Some,
    {
        object_get(&self.bindings, name).is_some()
    }

    /// The value bound to `name`, if any.
    pub fn get_binding(&self, name: &str) -> (r: Option<&Value>)
        ensures
            match r {
                Some(v) => lookup(self@.bindings, name@) == Some(v@),
                None => lookup(self@.bindings, name@) is None,
            },
    {
        object_get(&self.bindings, name)
    }

    /// Binds `name` to `value`, replacing an earlier binding of `name`.
    pub fn bind(&mut self, name: &str, value: Value) -> (r: &mut EnvBuilder)
        ensures
            r@.bindings == sorted_insert(old(self)@.bindings, name@, value@),
            r@.vtable == old(self)@.vtable,
            *final(self) == *final(r),
    {
        proof {
            use_type_invariant(&*self);
            lemma_sorted_insert_sorted(entry_models(self.bindings@), name@, value@);
        }
        let mut b: Vec<(String, Value)> = Vec::new();
        std::mem::swap(&mut b, &mut self.bindings);
        object_insert(&mut b, name.to_string(), value);
        self.bindings = b;
        self
    }

    /// Binds each name to its value in turn.
    pub fn bind_multiple(&mut self, vars: Vec<(String, Value)>) -> (r: &mut EnvBuilder)
        ensures
            r@.bindings == bind_all(old(self)@.bindings, entry_models(vars@)),
            r@.vtable == old(self)@.vtable,
            *final(self) == *final(r),
    {
        let ghost b0 = entry_models(self.bindings@);
        proof {
            use_type_invariant(&*self);
            lemma_insert_all_sorted(b0, entry_models(vars@));
        }
        let mut b: Vec<(String, Value)> = Vec::new();
        std::mem::swap(&mut b, &mut self.bindings);
        let ghost src = entry_models(vars@);
        let n = vars.len();
        let mut rest = vars;
        let mut items: Vec<(String, Value)> = Vec::new();
        while rest.len() > 0
            invariant
                items@.len() + rest@.len() == n,
                vars@.len() == n,
                forall|j: int| 0 <= j < items@.len() ==> #[trigger] items@[j] == vars@[n - 1 - j],
                forall|j: int| 0 <= j < rest@.len() ==> #[trigger] rest@[j] == vars@[j],
            decreases rest@.len(),
        {
            let e = rest.pop().unwrap();
            items.push(e);
        }
        let mut i: usize = 0;
        proof {
            assert(src.take(0) =~= Seq::<(Seq<char>, SValue)>::empty());
        }
        while i < n
            invariant
                i <= n,
                items@.len() == n - i,
                vars@.len() == n,
                src == entry_models(vars@),
                self.vtable == old(self).vtable,
                forall|j: int| 0 <= j < items@.len() ==> #[trigger] items@[j] == vars@[n - 1 - j],
                entry_models(b@) == insert_all(b0, src.take(i as int)),
            decreases n - i,
        {
            let e = items.pop().unwrap();
            proof {
                assert(e == vars@[i as int]);
                assert(src.take(i + 1) =~= src.take(i as int).push(src[i as int]));
                lemma_insert_all_push(b0, src.take(i as int), src[i as int]);
            }
            object_insert(&mut b, e.0, e.1);
            i = i + 1;
        }
        proof {
            assert(src.take(n as int) =~= src);
        }
        self.bindings = b;
        self
    }

    /// Binds `name` to a copy of `value`.
    pub fn bind_ref(&mut self, name: &str, value: &Value) -> (r: &mut EnvBuilder)
        ensures
            r@.bindings == sorted_insert(old(self)@.bindings, name@, value@),
            r@.vtable == old(self)@.vtable,
            *final(self) == *final(r),
    {
        let v = value.copy();
        self.bind(name, v)
    }

    /// Binds each name to a copy of its value, in turn.
    pub fn bind_ref_multiple(&mut self, vars: &Vec<(String, Value)>) -> (r: &mut EnvBuilder)
        ensures
            r@.bindings == bind_all(old(self)@.bindings, entry_models(vars@)),
            r@.vtable == old(self)@.vtable,
            *final(self) == *final(r),
    {
        let mut owned: Vec<(String, Value)> = Vec::new();
        let mut i: usize = 0;
        while i < vars.len()
            invariant
                i <= vars@.len(),
                owned@.len() == i,
                forall|j: int| 0 <= j < i ==> #[trigger] owned@[j].0@ == vars@[j].0@ && owned@[j].1@ == vars@[j].1@,
            decreases vars@.len() - i,
        {
            let k = vars[i].0.clone();
            let v = vars[i].1.copy();
            owned.push((k, v));
            i = i + 1;
        }
        proof {
            assert(entry_models(owned@) =~= entry_models(vars@));
        }
        self.bind_multiple(owned)
    }

    /// Uses `vtable` in place of the default function table.
    pub fn use_vtable(&mut self, vtable: VTable) -> (r: &mut EnvBuilder)
        ensures
            r@.bindings == old(self)@.bindings,
            r@.vtable == Some(vtable@),
            *final(self) == *final(r),
    {
        proof {
            use_type_invariant(&*self);
        }
        self.vtable = Some(vtable);
        self
    }

    /// The environment: the bindings, and the chosen function table or else
    /// the default one.
    pub fn build(&self) -> (r: Env)
        ensures
            r@.bindings == self@.bindings,
            r@.vtable == match self@.vtable {
                Some(t) => t,
                None => default_table(),
            },
    {
        proof {
            use_type_invariant(self);
        }
        let mut bindings: Vec<(String, Value)> = Vec::new();
        let mut i: usize = 0;
        while i < self.bindings.len()
            invariant
                i <= self.bindings@.len(),
                bindings@.len() == i,
                forall|j: int| 0 <= j < i ==> #[trigger] bindings@[j].0@ == self.bindings@[j].0@ && bindings@[j].1@ == self.bindings@[j].1@,
            decreases self.bindings@.len() - i,
        {
            let k = self.bindings[i].0.clone();
            let v = self.bindings[i].1.copy();
            bindings.push((k, v));
            i = i + 1;
        }
        proof {
            assert(entry_models(bindings@) =~= entry_models(self.bindings@));
        }
        let vtable = match &self.vtable {
            Some(t) => t.copy(),
            None => default_vtable(),
        };
        Env { bindings, vtable }
    }
}

/// After binding `name` to `value`, the builder holds `value` for `name`
/// and every other name as before.
pub proof fn law_bind_then_get(b: Seq<(Seq<char>, SValue)>, name: Seq<char>, value: SValue, other: Seq<char>)
    ensures
        lookup(sorted_insert(b, name, value), name) == Some(value),
        other != name ==> lookup(sorted_insert(b, name, value), other) == lookup(b, other),
{
    lemma_sorted_insert_lookup(b, name, value);
    if other != name {
        lemma_sorted_insert_lookup_other(b, name, value, other);
    }
}

} // verus!
