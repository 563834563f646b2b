//! The builtin functions: `len`, `first`, `last`, `rest` and `push`.

use vstd::prelude::*;
use vstd::string::StrSliceExecFns;
use vstd::string::StringExecFns;
use crate::eval::assoc::{
    distinct_keys, inserted, lemma_inserted_distinct, lemma_position_skips, merged, position,
};
use crate::eval::error::EvalError;
use crate::eval::object::{
    HashMapKey, HashObject, Object, ObjectView, duplicate_entries, duplicate_objects,
    entries_view, key_of, objects_view,
};

verus! {

/// A function that the language provides by name.
#[derive(Debug, PartialEq, Eq, Structural, Clone, Copy)]
pub enum BuiltinFunction {
    Len,
    First,
    Last,
    Rest,
    Push,
}

/// What an evaluation gave, as a mathematical value.
pub open spec fn outcome(result: Result<Object, EvalError>) -> Result<ObjectView, EvalError> {
    match result {
        Ok(object) => Ok(object@),
        Err(e) => Err(e),
    }
}

/// The integer `n` as a value, where it fits in 64 bits signed.
pub open spec fn integer(n: int) -> Result<ObjectView, EvalError> {
    if i64::MIN <= n <= i64::MAX {
        Ok(ObjectView::Int(n as i64))
    } else {
        Err(EvalError::Overflow)
    }
}

/// `len(x)`: the number of characters of a string, of items of an array,
/// of entries of a hash.
pub open spec fn call_len(args: Seq<ObjectView>) -> Result<ObjectView, EvalError> {
    if args.len() != 1 {
        Err(EvalError::BuiltinArity(BuiltinFunction::Len))
    } else {
        match args[0] {
            ObjectView::String(text) => integer(text.len() as int),
            ObjectView::Array(items) => integer(items.len() as int),
            ObjectView::Hash(entries) => integer(entries.len() as int),
            _ => Err(EvalError::BuiltinArgument(BuiltinFunction::Len)),
        }
    }
}

/// `first(x)`: the first character of a string, as a string, or the first
/// item of an array; `null` where there is none.
pub open spec fn call_first(args: Seq<ObjectView>) -> Result<ObjectView, EvalError> {
    if args.len() != 1 {
        Err(EvalError::BuiltinArity(BuiltinFunction::First))
    } else {
        match args[0] {
            ObjectView::String(text) => if text.len() == 0 {
                Ok(ObjectView::Null)
            } else {
                Ok(ObjectView::String(seq![text[0]]))
            },
            ObjectView::Array(items) => if items.len() == 0 {
                Ok(ObjectView::Null)
            } else {
                Ok(items[0])
            },
            _ => Err(EvalError::BuiltinArgument(BuiltinFunction::First)),
        }
    }
}

/// `last(x)`: the last character of a string, as a string, or the last
/// item of an array; `null` where there is none.
pub open spec fn call_last(args: Seq<ObjectView>) -> Result<ObjectView, EvalError> {
    if args.len() != 1 {
        Err(EvalError::BuiltinArity(BuiltinFunction::Last))
    } else {
        match args[0] {
            ObjectView::String(text) => if text.len() == 0 {
                Ok(ObjectView::Null)
            } else {
                Ok(ObjectView::String(seq![text[text.len() - 1]]))
            },
            ObjectView::Array(items) => if items.len() == 0 {
                Ok(ObjectView::Null)
            } else {
                Ok(items[items.len() - 1])
            },
            _ => Err(EvalError::BuiltinArgument(BuiltinFunction::Last)),
        }
    }
}

/// `rest(x)`: a string or an array without its first element; `null` where
/// it has none.
pub open spec fn call_rest(args: Seq<ObjectView>) -> Result<ObjectView, EvalError> {
    if args.len() != 1 {
        Err(EvalError::BuiltinArity(BuiltinFunction::Rest))
    } else {
        match args[0] {
            ObjectView::String(text) => if text.len() == 0 {
                Ok(ObjectView::Null)
            } else {
                Ok(ObjectView::String(text.subrange(1, text.len() as int)))
            },
            ObjectView::Array(items) => if items.len() == 0 {
                Ok(ObjectView::Null)
            } else {
                Ok(ObjectView::Array(items.subrange(1, items.len() as int)))
            },
            _ => Err(EvalError::BuiltinArgument(BuiltinFunction::Rest)),
        }
    }
}

/// `push(x, y)`: two strings joined; an array with `y` added at its end; a
/// hash with the entry `[key, value]` or with all the entries of the hash
/// `y` inserted.
pub open spec fn call_push(args: Seq<ObjectView>) -> Result<ObjectView, EvalError> {
    if args.len() != 2 {
        Err(EvalError::BuiltinArity(BuiltinFunction::Push))
    } else {
        match args[0] {
            ObjectView::String(text) => match args[1] {
                ObjectView::String(more) => Ok(ObjectView::String(text + more)),
                _ => Err(EvalError::BuiltinArgument(BuiltinFunction::Push)),
            },
            ObjectView::Array(items) => Ok(ObjectView::Array(items.push(args[1]))),
            ObjectView::Hash(entries) => match args[1] {
                ObjectView::Array(pair) => if pair.len() != 2 {
                    Err(EvalError::BuiltinArgument(BuiltinFunction::Push))
                } else {
                    match key_of(pair[0]) {
                        Some(key) => Ok(ObjectView::Hash(inserted(entries, key, pair[1]))),
                        None => Err(EvalError::UnhashableKey),
                    }
                },
                ObjectView::Hash(more) => Ok(ObjectView::Hash(merged(entries, more, 0))),
                _ => Err(EvalError::BuiltinArgument(BuiltinFunction::Push)),
            },
            _ => Err(EvalError::BuiltinArgument(BuiltinFunction::Push)),
        }
    }
}

/// What a builtin gives for its arguments.
pub open spec fn call_builtin(builtin: BuiltinFunction, args: Seq<ObjectView>) -> Result<
    ObjectView,
    EvalError,
> {
    match builtin {
        BuiltinFunction::Len => call_len(args),
        BuiltinFunction::First => call_first(args),
        BuiltinFunction::Last => call_last(args),
        BuiltinFunction::Rest => call_rest(args),
        BuiltinFunction::Push => call_push(args),
    }
}

/// The builtin that a name denotes, if any.
pub open spec fn builtin_named(name: Seq<char>) -> Option<BuiltinFunction> {
    if name == "len"@ {
        Some(BuiltinFunction::Len)
    } else if name == "first"@ {
        Some(BuiltinFunction::First)
    } else if name == "last"@ {
        Some(BuiltinFunction::Last)
    } else if name == "rest"@ {
        Some(BuiltinFunction::Rest)
    } else if name == "push"@ {
        Some(BuiltinFunction::Push)
    } else {
        None
    }
}

/// The index of the first entry with `key`, if there is one.
pub fn find_key(entries: &Vec<(HashMapKey, Object)>, key: &HashMapKey) -> (found: Option<usize>)
    ensures
        match position(entries_view(entries@), key@, 0) {
            Some(i) => found == Some(i as usize) && 0 <= i < entries.len(),
            None => found is None,
        },
{
    let ghost view = entries_view(entries@);
    let mut i: usize = 0;
    while i < entries.len()
        invariant
            i <= entries.len(),
            view == entries_view(entries@),
            view.len() == entries.len(),
            forall|k: int| 0 <= k < i ==> (#[trigger] view[k]).0 != key@,
        decreases entries.len() - i,
    {
        if entries[i].0.same_as(key) {
            proof {
                lemma_position_skips(view, key@, 0, i as int);
                assert(view[i as int].0 == key@);
            }
            return Some(i);
        }
        i += 1;
    }
    proof {
        lemma_position_skips(view, key@, 0, i as int);
    }
    None
}

/// Binds `key` to `value` in the entries of a hash.
pub fn insert_entry(entries: &mut Vec<(HashMapKey, Object)>, key: HashMapKey, value: Object)
    ensures
        entries_view(final(entries)@) == inserted(entries_view(old(entries)@), key@, value@),
        distinct_keys(entries_view(old(entries)@)) ==> distinct_keys(entries_view(final(entries)@)),
{
    let ghost before = entries_view(entries@);
    proof {
        if distinct_keys(before) {
            lemma_inserted_distinct(before, key@, value@);
        }
    }
    match find_key(entries, &key) {
        Some(i) => {
            entries[i] = (key, value);
            assert(entries_view(entries@) =~= before.update(i as int, (key@, value@)));
        },
        None => {
            entries.push((key, value));
            assert(entries_view(entries@) =~= before.push((key@, value@)));
        },
    }
}

/// A count as a value of the language.
fn count(n: usize) -> (result: Result<Object, EvalError>)
    ensures
        outcome(result) == integer(n as int),
{
    let wide = n as u64;
    if wide > 0x7fff_ffff_ffff_ffff {
        Err(EvalError::Overflow)
    } else {
        Ok(Object::Int(wide as i64))
    }
}

/// The string made of one character.
fn one_char(c: char) -> (text: String)
    ensures
        text@ == seq![c],
{
    let mut text = String::new();
    text.push(c);
    assert(text@ =~= seq![c]);
    text
}

impl BuiltinFunction {
    /// The builtin that a name denotes, if any.
    pub fn named(name: &str) -> (builtin: Option<BuiltinFunction>)
        ensures
            builtin == builtin_named(name@),
    {
        let name = name.to_owned();
        if name == "len".to_owned() {
            Some(BuiltinFunction::Len)
        } else if name == "first".to_owned() {
            Some(BuiltinFunction::First)
        } else if name == "last".to_owned() {
            Some(BuiltinFunction::Last)
        } else if name == "rest".to_owned() {
            Some(BuiltinFunction::Rest)
        } else if name == "push".to_owned() {
            Some(BuiltinFunction::Push)
        } else {
            None
        }
    }

    /// Applies the builtin to its arguments.
    pub fn call(&self, args: Vec<Object>) -> (result: Result<Object, EvalError>)
        ensures
            outcome(result) == call_builtin(*self, objects_view(args@)),
    {
        match self {
            BuiltinFunction::Len => self.call_len(args),
            BuiltinFunction::First => self.call_first(args),
            BuiltinFunction::Last => self.call_last(args),
            BuiltinFunction::Rest => self.call_rest(args),
            BuiltinFunction::Push => self.call_push(args),
        }
    }

    fn call_len(&self, args: Vec<Object>) -> (result: Result<Object, EvalError>)
        ensures
            outcome(result) == call_len(objects_view(args@)),
    {
        if args.len() != 1 {
            return Err(EvalError::BuiltinArity(BuiltinFunction::Len));
        }
        assert(objects_view(args@)[0] == args[0]@);
        match &args[0] {
            Object::String(string) => count(string.as_str().unicode_len()),
            Object::Array(content) => {
                assert(objects_view(content@).len() == content.len());
                count(content.len())
            },
            Object::Hash(hash) => count(hash.len()),
            _ => Err(EvalError::BuiltinArgument(BuiltinFunction::Len)),
        }
    }

    fn call_first(&self, args: Vec<Object>) -> (result: Result<Object, EvalError>)
        ensures
            outcome(result) == call_first(objects_view(args@)),
    {
        if args.len() != 1 {
            return Err(EvalError::BuiltinArity(BuiltinFunction::First));
        }
        assert(objects_view(args@)[0] == args[0]@);
        match &args[0] {
            Object::String(string) => {
                if string.as_str().unicode_len() == 0 {
                    Ok(Object::Null)
                } else {
                    Ok(Object::String(one_char(string.as_str().get_char(0))))
                }
            },
            Object::Array(content) => {
                assert(objects_view(content@).len() == content.len());
                if content.len() == 0 {
                    Ok(Object::Null)
                } else {
                    assert(objects_view(content@)[0] == content[0]@);
                    Ok(content[0].duplicate())
                }
            },
            _ => Err(EvalError::BuiltinArgument(BuiltinFunction::First)),
        }
    }

    fn call_last(&self, args: Vec<Object>) -> (result: Result<Object, EvalError>)
        ensures
            outcome(result) == call_last(objects_view(args@)),
    {
        if args.len() != 1 {
            return Err(EvalError::BuiltinArity(BuiltinFunction::Last));
        }
        assert(objects_view(args@)[0] == args[0]@);
        match &args[0] {
            Object::String(string) => {
                let len = string.as_str().unicode_len();
                if len == 0 {
                    Ok(Object::Null)
                } else {
                    Ok(Object::String(one_char(string.as_str().get_char(len - 1))))
                }
            },
            Object::Array(content) => {
                assert(objects_view(content@).len() == content.len());
                if content.len() == 0 {
                    Ok(Object::Null)
                } else {
                    assert(objects_view(content@)[content.len() - 1] == content[content.len()
                        - 1]@);
                    Ok(content[content.len() - 1].duplicate())
                }
            },
            _ => Err(EvalError::BuiltinArgument(BuiltinFunction::Last)),
        }
    }

    fn call_rest(&self, args: Vec<Object>) -> (result: Result<Object, EvalError>)
        ensures
            outcome(result) == call_rest(objects_view(args@)),
    {
        if args.len() != 1 {
            return Err(EvalError::BuiltinArity(BuiltinFunction::Rest));
        }
        assert(objects_view(args@)[0] == args[0]@);
        match &args[0] {
            Object::String(string) => {
                let len = string.as_str().unicode_len();
                if len == 0 {
                    Ok(Object::Null)
                } else {
                    Ok(Object::String(string.as_str().substring_char(1, len).to_owned()))
                }
            },
            Object::Array(content) => {
                assert(objects_view(content@).len() == content.len());
                if content.len() == 0 {
                    Ok(Object::Null)
                } else {
                    let mut rest: Vec<Object> = Vec::new();
                    let mut i: usize = 1;
                    while i < content.len()
                        invariant
                            1 <= i <= content.len(),
                            rest.len() == i - 1,
                            forall|j: int| 0 <= j < i - 1 ==> rest[j]@ == content[j + 1]@,
                        decreases content.len() - i,
                    {
                        rest.push(content[i].duplicate());
                        i += 1;
                    }
                    assert(objects_view(rest@) =~= objects_view(content@).subrange(
                        1,
                        content.len() as int,
                    ));
                    Ok(Object::Array(rest))
                }
            },
            _ => Err(EvalError::BuiltinArgument(BuiltinFunction::Rest)),
        }
    }

    fn call_push(&self, args: Vec<Object>) -> (result: Result<Object, EvalError>)
        ensures
            outcome(result) == call_push(objects_view(args@)),
    {
        if args.len() != 2 {
            return Err(EvalError::BuiltinArity(BuiltinFunction::Push));
        }
        assert(objects_view(args@)[0] == args[0]@);
        assert(objects_view(args@)[1] == args[1]@);
        match &args[0] {
            Object::String(string1) => match &args[1] {
                Object::String(string2) => Ok(
                    Object::String(string1.clone().concat(string2.as_str())),
                ),
                _ => Err(EvalError::BuiltinArgument(BuiltinFunction::Push)),
            },
            Object::Array(content) => {
                let mut new_content = duplicate_objects(content);
                let item = args[1].duplicate();
                new_content.push(item);
                assert(objects_view(new_content@) =~= objects_view(content@).push(args[1]@));
                Ok(Object::Array(new_content))
            },
            Object::Hash(hash1) => {
                let content1 = hash1.entries();
                let mut new_content = duplicate_entries(content1);
                match &args[1] {
                    Object::Array(content2) => {
                        assert(objects_view(content2@).len() == content2.len());
                        if content2.len() != 2 {
                            return Err(EvalError::BuiltinArgument(BuiltinFunction::Push));
                        }
                        assert(objects_view(content2@)[0] == content2[0]@);
                        assert(objects_view(content2@)[1] == content2[1]@);
                        match HashMapKey::of_object(&content2[0]) {
                            Some(key) => {
                                insert_entry(&mut new_content, key, content2[1].duplicate());
                            },
                            None => {
                                return Err(EvalError::UnhashableKey);
                            },
                        }
                    },
                    Object::Hash(hash2) => {
                        let content2 = hash2.entries();
                        let ghost first = entries_view(content1@);
                        let ghost second = entries_view(content2@);
                        let mut i: usize = 0;
                        while i < content2.len()
                            invariant
                                i <= content2.len(),
                                second == entries_view(content2@),
                                second.len() == content2.len(),
                                distinct_keys(entries_view(new_content@)),
                                merged(first, second, 0) == merged(
                                    entries_view(new_content@),
                                    second,
                                    i as int,
                                ),
                            decreases content2.len() - i,
                        {
                            assert(second[i as int] == (content2[i as int].0@, content2[i as int].1@));
                            insert_entry(
                                &mut new_content,
                                content2[i].0.duplicate(),
                                content2[i].1.duplicate(),
                            );
                            i += 1;
                        }
                    },
                    _ => {
                        return Err(EvalError::BuiltinArgument(BuiltinFunction::Push));
                    },
                }
                Ok(Object::Hash(HashObject::from_distinct(new_content)))
            },
            _ => Err(EvalError::BuiltinArgument(BuiltinFunction::Push)),
        }
    }
}

} // verus!
