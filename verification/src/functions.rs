//! The functions that expressions can call: the built-in ones, and the
//! table that maps names to them and to the host's own callbacks.
use vstd::prelude::*;
use crate::text::lit;
use crate::value::{keyed, keys_sorted, lemma_sorted_insert_sorted, lookup, sorted_insert, table_find, table_insert, insert_all, lemma_insert_all_push, first_index, lemma_first_index};

verus! {

broadcast use vstd::string::group_string_axioms;

/// A function that the library itself provides.
#[derive(Debug, Clone, Copy, PartialEq, Eq)]
pub enum Builtin {
    Matches,
    Len,
    StartsWith,
    EndsWith,
    Contains,
    Bool,
    String,
    Int,
    Float,
    Base64Encode,
    Base64Decode,
    Replace,
    Format,
    Join,
    Split,
}

/// What a name in the function table stands for: a built-in function, or a
/// callback of the host, synchronous or asynchronous, known by its number.
/// The host runs its callbacks when evaluation asks for them.
#[derive(Debug, Clone, Copy, PartialEq, Eq)]
pub enum FnCallback {
    Builtin(Builtin),
    Sync(u64),
    Async(u64),
}

impl FnCallback {
    /// The host's synchronous callback known by `id`.
    pub fn new_sync(id: u64) -> (r: FnCallback)
        ensures
            r == FnCallback::Sync(id),
    {
        FnCallback::Sync(id)
    }

    /// The host's asynchronous callback known by `id`.
    pub fn new_async(id: u64) -> (r: FnCallback)
        ensures
            r == FnCallback::Async(id),
    {
        FnCallback::Async(id)
    }
}

/// A mapping of function names to callbacks, held in the order of the
/// names, each name once, as a `BTreeMap` holds them.
#[derive(Debug)]
pub struct VTable {
    entries: Vec<(String, FnCallback)>,
}

impl View for VTable {
    type V = Seq<(Seq<char>, FnCallback)>;

    closed spec fn view(&self) -> Seq<(Seq<char>, FnCallback)> {
        keyed(self.entries@)
    }
}

/// The names of the built-in functions, each with its function.
pub open spec fn builtin_entries() -> Seq<(Seq<char>, FnCallback)> {
    seq![
        ("matches"@, FnCallback::Builtin(Builtin::Matches)),
        ("len"@, FnCallback::Builtin(Builtin::Len)),
        ("startsWith"@, FnCallback::Builtin(Builtin::StartsWith)),
        ("endsWith"@, FnCallback::Builtin(Builtin::EndsWith)),
        ("contains"@, FnCallback::Builtin(Builtin::Contains)),
        ("bool"@, FnCallback::Builtin(Builtin::Bool)),
        ("string"@, FnCallback::Builtin(Builtin::String)),
        ("int"@, FnCallback::Builtin(Builtin::Int)),
        ("float"@, FnCallback::Builtin(Builtin::Float)),
        ("base64Encode"@, FnCallback::Builtin(Builtin::Base64Encode)),
        ("base64Decode"@, FnCallback::Builtin(Builtin::Base64Decode)),
        ("replace"@, FnCallback::Builtin(Builtin::Replace)),
        ("format"@, FnCallback::Builtin(Builtin::Format)),
        ("join"@, FnCallback::Builtin(Builtin::Join)),
        ("split"@, FnCallback::Builtin(Builtin::Split)),
    ]
}

impl VTable {
    /// The names are in order, each once.
    #[verifier::type_invariant]
    spec fn names_in_order(self) -> bool {
        keys_sorted(keyed(self.entries@))
    }

    /// An empty table.
    pub fn new() -> (r: VTable)
        ensures
            r@ == Seq::<(Seq<char>, FnCallback)>::empty(),
    {
        let r = VTable { entries: Vec::new() };
        proof {
            assert(r@ =~= Seq::<(Seq<char>, FnCallback)>::empty());
        }
        r
    }

    /// Sets `name` to `callback`, and gives back what `name` stood for
    /// before, if anything.
    pub fn insert(&mut self, name: &str, callback: FnCallback) -> (r: Option<FnCallback>)
        ensures
            final(self)@ == sorted_insert(old(self)@, name@, callback),
            keys_sorted(final(self)@),
            r == lookup(old(self)@, name@),
    {
        let old_cb = self.get(name);
        proof {
            use_type_invariant(&*self);
            lemma_sorted_insert_sorted(self@, name@, callback);
        }
        let mut entries: Vec<(String, FnCallback)> = Vec::new();
        std::mem::swap(&mut entries, &mut self.entries);
        table_insert(&mut entries, name.to_string(), callback);
        self.entries = entries;
        old_cb
    }

    /// What `name` stands for, if anything.
    pub fn get(&self, name: &str) -> (r: Option<FnCallback>)
        ensures
            r == lookup(self@, name@),
    {
        proof {
            lemma_first_index(self@, name@);
        }
        match table_find(&self.entries, name) {
            Some(i) => {
                proof {
                    assert(self@[i as int] == (self.entries@[i as int].0@, self.entries@[i as int].1));
                }
                Some(self.entries[i].1)
            },
            None => None,
        }
    }

    /// A copy of the table.
    pub fn copy(&self) -> (r: VTable)
        ensures
            r@ == self@,
    {
        proof {
            use_type_invariant(self);
        }
        let mut entries: Vec<(String, FnCallback)> = Vec::new();
        let mut i: usize = 0;
        while i < self.entries.len()
            invariant
                i <= self.entries@.len(),
                entries@.len() == i,
                forall|j: int| 0 <= j < i ==> #[trigger] entries@[j].0@ == self.entries@[j].0@ && entries@[j].1 == self.entries@[j].1,
            decreases self.entries@.len() - i,
        {
            let e = &self.entries[i];
            let k = e.0.clone();
            entries.push((k, e.1));
            i = i + 1;
        }
        proof {
            assert(keyed(entries@) =~= keyed(self.entries@));
        }
        VTable { entries }
    }
}

/// The default function table: each built-in function under its name.
pub fn default_vtable() -> (r: VTable)
    ensures
        r@ == insert_all(Seq::empty(), builtin_entries()),
{
    let names = [
        "matches", "len", "startsWith", "endsWith", "contains", "bool", "string", "int",
        "float", "base64Encode", "base64Decode", "replace", "format", "join", "split",
    ];
    let fns = [
        Builtin::Matches, Builtin::Len, Builtin::StartsWith, Builtin::EndsWith,
        Builtin::Contains, Builtin::Bool, Builtin::String, Builtin::Int, Builtin::Float,
        Builtin::Base64Encode, Builtin::Base64Decode, Builtin::Replace, Builtin::Format,
        Builtin::Join, Builtin::Split,
    ];
    let ghost src = builtin_entries();
    proof {
        reveal_strlit("matches");
        reveal_strlit("len");
        reveal_strlit("startsWith");
        reveal_strlit("endsWith");
        reveal_strlit("contains");
        reveal_strlit("bool");
        reveal_strlit("string");
        reveal_strlit("int");
        reveal_strlit("float");
        reveal_strlit("base64Encode");
        reveal_strlit("base64Decode");
        reveal_strlit("replace");
        reveal_strlit("format");
        reveal_strlit("join");
        reveal_strlit("split");
        assert(forall|i: int| 0 <= i < 15 ==> #[trigger] src[i] == (names@[i]@, FnCallback::Builtin(fns@[i])));
    }
    let mut t = VTable::new();
    let mut i: usize = 0;
    proof {
        assert(src.take(0) =~= Seq::<(Seq<char>, FnCallback)>::empty());
    }
    while i < 15
        invariant
            i <= 15,
            src == builtin_entries(),
            names@.len() == 15,
            fns@.len() == 15,
            forall|j: int| 0 <= j < 15 ==> #[trigger] src[j] == (names@[j]@, FnCallback::Builtin(fns@[j])),
            t@ == insert_all(Seq::empty(), src.take(i as int)),
        decreases 15 - i,
    {
        t.insert(names[i], FnCallback::Builtin(fns[i]));
        proof {
            assert(src.take(i + 1) =~= src.take(i as int).push(src[i as int]));
            lemma_insert_all_push(Seq::empty(), src.take(i as int), src[i as int]);
        }
        i = i + 1;
    }
    proof {
        assert(src.take(15) =~= src);
    }
    t
}

} // verus!
