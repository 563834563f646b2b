//! The values of the language at run time.

use vstd::prelude::*;
use crate::ast::{Statement, StatementView, duplicate_names, duplicate_statements, names_view,
    statements_view};
use crate::eval::assoc::{distinct_keys, inserted, lookup, merged};
use crate::eval::builtin::{BuiltinFunction, find_key, insert_entry};

verus! {

/// A value that can be the key of a hash.
#[derive(Debug, PartialEq, Eq, Hash, Clone)]
pub enum HashMapKey {
    Bool(bool),
    Int(i64),
    String(String),
}

/// The mathematical value of a [`HashMapKey`].
pub enum HashMapKeyView {
    Bool(bool),
    Int(i64),
    String(Seq<char>),
}

impl View for HashMapKey {
    type V = HashMapKeyView;

    open spec fn view(&self) -> HashMapKeyView {
        match self {
            HashMapKey::Bool(value) => HashMapKeyView::Bool(*value),
            HashMapKey::Int(value) => HashMapKeyView::Int(*value),
            HashMapKey::String(value) => HashMapKeyView::String(value@),
        }
    }
}

impl HashMapKey {
    /// A fresh key with the same value.
    pub fn duplicate(&self) -> (copy: HashMapKey)
        ensures
            copy@ == self@,
    {
        match self {
            HashMapKey::Bool(value) => HashMapKey::Bool(*value),
            HashMapKey::Int(value) => HashMapKey::Int(*value),
            HashMapKey::String(value) => HashMapKey::String(value.clone()),
        }
    }

    /// Whether two keys have the same value.
    pub fn same_as(&self, other: &HashMapKey) -> (same: bool)
        ensures
            same == (self@ == other@),
    {
        match (self, other) {
            (HashMapKey::Bool(a), HashMapKey::Bool(b)) => *a == *b,
            (HashMapKey::Int(a), HashMapKey::Int(b)) => *a == *b,
            (HashMapKey::String(a), HashMapKey::String(b)) => *a == *b,
            _ => false,
        }
    }

    /// The key that an object makes, where it is an integer, a boolean or
    /// a string.
    pub fn of_object(object: &Object) -> (key: Option<HashMapKey>)
        ensures
            match key_of(object@) {
                Some(k) => key matches Some(x) && x@ == k,
                None => key is None,
            },
    {
        match object {
            Object::Bool(value) => Some(HashMapKey::Bool(*value)),
            Object::Int(value) => Some(HashMapKey::Int(*value)),
            Object::String(value) => Some(HashMapKey::String(value.clone())),
            _ => None,
        }
    }
}

/// The key that an object makes, where it is an integer, a boolean or a
/// string.
pub open spec fn key_of(object: ObjectView) -> Option<HashMapKeyView> {
    match object {
        ObjectView::Bool(value) => Some(HashMapKeyView::Bool(value)),
        ObjectView::Int(value) => Some(HashMapKeyView::Int(value)),
        ObjectView::String(value) => Some(HashMapKeyView::String(value)),
        _ => None,
    }
}

/// The entries of a hash: keys with their values, no key twice, in the
/// order in which the keys were first inserted.
///
/// `==` compares the entries in their order.
#[derive(Debug, PartialEq, Eq)]
pub struct HashObject {
    pub(crate) entries: Vec<(HashMapKey, Object)>,
}

/// A value of the language at run time.
///
/// A function holds the index of the scope it was made in.
///
/// `==` compares hashes entry by entry in their order: two hashes that
/// hold the same entries, inserted in another order, are not equal.
#[derive(Debug, PartialEq, Eq)]
pub enum Object {
    Null,
    Int(i64),
    Bool(bool),
    String(String),
    Return(Box<Object>),
    Function { parameters: Vec<String>, body: Vec<Statement>, environment: usize },
    Builtin(BuiltinFunction),
    Array(Vec<Object>),
    Hash(HashObject),
}

/// The mathematical value of an [`Object`].
pub enum ObjectView {
    Null,
    Int(i64),
    Bool(bool),
    String(Seq<char>),
    Return(Box<ObjectView>),
    Function { parameters: Seq<Seq<char>>, body: Seq<StatementView>, environment: nat },
    Builtin(BuiltinFunction),
    Array(Seq<ObjectView>),
    Hash(Seq<(HashMapKeyView, ObjectView)>),
}

/// The value of an object.
pub open spec fn object_view(o: Object) -> ObjectView
    decreases o,
{
    match o {
        Object::Null => ObjectView::Null,
        Object::Int(value) => ObjectView::Int(value),
        Object::Bool(value) => ObjectView::Bool(value),
        Object::String(value) => ObjectView::String(value@),
        Object::Return(value) => ObjectView::Return(Box::new(object_view(*value))),
        Object::Function { parameters, body, environment } => ObjectView::Function {
            parameters: names_view(parameters@),
            body: statements_view(body@),
            environment: environment as nat,
        },
        Object::Builtin(builtin) => ObjectView::Builtin(builtin),
        Object::Array(items) => ObjectView::Array(objects_view(items@)),
        Object::Hash(hash) => ObjectView::Hash(entries_view(hash.pairs())),
    }
}

/// The values of a sequence of objects.
pub open spec fn objects_view(v: Seq<Object>) -> Seq<ObjectView>
    decreases v,
{
    Seq::new(
        v.len(),
        |i: int|
            if 0 <= i < v.len() {
                object_view(v[i])
            } else {
                ObjectView::Null
            },
    )
}

/// The values of the entries of a hash.
pub open spec fn entries_view(v: Seq<(HashMapKey, Object)>) -> Seq<(HashMapKeyView, ObjectView)>
    decreases v,
{
    Seq::new(
        v.len(),
        |i: int|
            if 0 <= i < v.len() {
                (v[i].0@, object_view(v[i].1))
            } else {
                (HashMapKeyView::Bool(false), ObjectView::Null)
            },
    )
}

impl HashObject {
    /// No key occurs twice.
    #[verifier::type_invariant]
    pub closed spec fn keys_are_distinct(self) -> bool {
        distinct_keys(entries_view(self.entries@))
    }

    /// The entries, in the order in which their keys were first inserted.
    pub closed spec fn pairs(self) -> Seq<(HashMapKey, Object)> {
        self.entries@
    }

    /// The entries are what the hash holds.
    pub(crate) proof fn lemma_pairs(self)
        ensures
            self.pairs() == self.entries@,
    {
    }

    /// The hash without entries.
    pub fn new() -> (hash: HashObject)
        ensures
            entries_view(hash.pairs()) == Seq::<(HashMapKeyView, ObjectView)>::empty(),
    {
        let entries: Vec<(HashMapKey, Object)> = Vec::new();
        assert(entries_view(entries@) =~= Seq::empty());
        HashObject { entries }
    }

    /// The hash of the given entries, which hold no key twice.
    pub fn from_distinct(entries: Vec<(HashMapKey, Object)>) -> (hash: HashObject)
        requires
            distinct_keys(entries_view(entries@)),
        ensures
            hash.pairs() == entries@,
    {
        HashObject { entries }
    }

    /// The entries, which hold no key twice.
    pub fn entries(&self) -> (entries: &Vec<(HashMapKey, Object)>)
        ensures
            entries@ == self.pairs(),
            distinct_keys(entries_view(entries@)),
    {
        proof {
            use_type_invariant(self);
        }
        &self.entries
    }

    /// The hash of the given entries, inserted in order: where a key comes
    /// twice, its place is that of the first and its value that of the last.
    pub fn from_pairs(pairs: Vec<(HashMapKey, Object)>) -> (hash: HashObject)
        ensures
            entries_view(hash.pairs()) == merged(Seq::empty(), entries_view(pairs@), 0),
    {
        let ghost given = entries_view(pairs@);
        let mut entries: Vec<(HashMapKey, Object)> = Vec::new();
        assert(entries_view(entries@) =~= Seq::empty());
        let mut i: usize = 0;
        while i < pairs.len()
            invariant
                i <= pairs.len(),
                given == entries_view(pairs@),
                distinct_keys(entries_view(entries@)),
                merged(Seq::empty(), given, 0) == merged(entries_view(entries@), given, i as int),
            decreases pairs.len() - i,
        {
            assert(given[i as int] == (pairs[i as int].0@, pairs[i as int].1@));
            insert_entry(&mut entries, pairs[i].0.duplicate(), pairs[i].1.duplicate());
            i += 1;
        }
        HashObject { entries }
    }

    /// The value that `key` is bound to, if it is bound.
    pub fn get(&self, key: &HashMapKey) -> (value: Option<&Object>)
        ensures
            match lookup(entries_view(self.pairs()), key@) {
                Some(v) => value matches Some(object) && object@ == v,
                None => value is None,
            },
    {
        match find_key(&self.entries, key) {
            Some(i) => {
                assert(entries_view(self.entries@)[i as int].1 == self.entries[i as int].1@);
                Some(&self.entries[i].1)
            },
            None => None,
        }
    }

    /// The hash with `key` bound to `value`: in place where `key` was
    /// bound, at the end where it was not.
    pub fn with_entry(self, key: HashMapKey, value: Object) -> (hash: HashObject)
        ensures
            entries_view(hash.pairs()) == inserted(entries_view(self.pairs()), key@, value@),
    {
        proof {
            use_type_invariant(&self);
        }
        let mut entries = self.entries;
        insert_entry(&mut entries, key, value);
        HashObject { entries }
    }

    /// The number of entries.
    pub fn len(&self) -> (count: usize)
        ensures
            count == entries_view(self.pairs()).len(),
    {
        self.entries.len()
    }
}

impl View for Object {
    type V = ObjectView;

    open spec fn view(&self) -> ObjectView {
        object_view(*self)
    }
}

/// Whether a value counts as true: `null`, `false`, `0`, the empty string,
/// the empty array and the empty hash do not, and a return marker counts
/// as what it holds.
pub open spec fn truthy(o: ObjectView) -> bool
    decreases o,
{
    match o {
        ObjectView::Bool(value) => value,
        ObjectView::Int(value) => value != 0,
        ObjectView::String(value) => value.len() != 0,
        ObjectView::Null => false,
        ObjectView::Return(value) => truthy(*value),
        ObjectView::Function { .. } => true,
        ObjectView::Builtin(_) => true,
        ObjectView::Array(items) => items.len() != 0,
        ObjectView::Hash(entries) => entries.len() != 0,
    }
}

/// The value without the return marker around it, if there is one.
pub open spec fn unwrapped(o: ObjectView) -> ObjectView {
    match o {
        ObjectView::Return(value) => *value,
        _ => o,
    }
}

/// A fresh copy of a list of objects.
pub fn duplicate_objects(items: &Vec<Object>) -> (copy: Vec<Object>)
    ensures
        objects_view(copy@) == objects_view(items@),
    decreases items,
{
    let mut copy: Vec<Object> = Vec::new();
    let mut i: usize = 0;
    while i < items.len()
        invariant
            i <= items.len(),
            copy.len() == i,
            forall|j: int| 0 <= j < i ==> copy[j]@ == items[j]@,
        decreases items.len() - i,
    {
        copy.push(items[i].duplicate());
        i += 1;
    }
    assert(objects_view(copy@) =~= objects_view(items@));
    copy
}

/// A fresh copy of the entries of a hash.
pub fn duplicate_entries(entries: &Vec<(HashMapKey, Object)>) -> (copy: Vec<(HashMapKey, Object)>)
    ensures
        entries_view(copy@) == entries_view(entries@),
    decreases entries,
{
    let mut copy: Vec<(HashMapKey, Object)> = Vec::new();
    let mut i: usize = 0;
    while i < entries.len()
        invariant
            i <= entries.len(),
            copy.len() == i,
            forall|j: int|
                0 <= j < i ==> copy[j].0@ == entries[j].0@ && copy[j].1@ == entries[j].1@,
        decreases entries.len() - i,
    {
        assert(decreases_to!(entries => entries[i as int]));
        assert(decreases_to!(entries[i as int] => entries[i as int].1));
        let key = entries[i].0.duplicate();
        let value = entries[i].1.duplicate();
        copy.push((key, value));
        i += 1;
    }
    assert(entries_view(copy@) =~= entries_view(entries@));
    copy
}

impl Object {
    /// A fresh object with the same value.
    pub fn duplicate(&self) -> (copy: Object)
        ensures
            copy@ == self@,
        decreases self,
    {
        match self {
            Object::Null => Object::Null,
            Object::Int(value) => Object::Int(*value),
            Object::Bool(value) => Object::Bool(*value),
            Object::String(value) => Object::String(value.clone()),
            Object::Return(value) => Object::Return(Box::new(value.duplicate())),
            Object::Function { parameters, body, environment } => Object::Function {
                parameters: duplicate_names(parameters),
                body: duplicate_statements(body),
                environment: *environment,
            },
            Object::Builtin(builtin) => Object::Builtin(*builtin),
            Object::Array(items) => Object::Array(duplicate_objects(items)),
            Object::Hash(hash) => {
                proof {
                    use_type_invariant(hash);
                }
                Object::Hash(HashObject { entries: duplicate_entries(&hash.entries) })
            },
        }
    }

    /// Whether the object counts as true.
    pub fn to_bool(&self) -> (b: bool)
        ensures
            b == truthy(self@),
        decreases self,
    {
        match self {
            Object::Bool(value) => *value,
            Object::Int(value) => *value != 0,
            Object::String(value) => !value.as_str().is_empty(),
            Object::Null => false,
            Object::Return(value) => value.to_bool(),
            Object::Function { .. } => true,
            Object::Builtin(_) => true,
            Object::Array(content) => {
                assert(objects_view(content@).len() == content.len());
                content.len() != 0
            },
            Object::Hash(hash) => hash.len() != 0,
        }
    }

    /// The object without the return marker around it, if there is one.
    pub fn unwrap_return(self) -> (inner: Object)
        ensures
            inner@ == unwrapped(self@),
    {
        match self {
            Object::Return(value) => *value,
            other => other,
        }
    }
}

impl Clone for Object {
    fn clone(&self) -> (copy: Object)
        ensures
            copy@ == self@,
    {
        self.duplicate()
    }
}

} // verus!
