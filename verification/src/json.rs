//! A model of the JSON values that travel on the wire.
//!
//! The wire protocol needs booleans, numbers that fit a 64-bit integer,
//! strings of bytes, arrays and objects with ordered keys; nothing else.
//! Objects keep their insertion order, so encoding is a pure function of
//! the value.

use vstd::prelude::*;

verus! {

/// A JSON value as the wire protocol uses it.
#[derive(Debug, PartialEq, Eq)]
pub enum Json {
    /// `true` or `false`.
    Bool(bool),
    /// A number written as a plain integer literal.
    Num(i64),
    /// A string; the bytes are its UTF-8 contents, not yet escaped.
    Str(Vec<u8>),
    /// An array.
    Arr(Vec<Json>),
    /// An object: ordered key/value pairs.
    Obj(Vec<(Vec<u8>, Json)>),
}

/// Abstract form of a [`Json`] value.
pub enum JsonV {
    Bool(bool),
    Num(int),
    Str(Seq<u8>),
    Arr(Seq<JsonV>),
    Obj(Seq<(Seq<u8>, JsonV)>),
}

/// Abstract form of an array's elements.
pub open spec fn arr_elems_view(s: Seq<Json>) -> Seq<JsonV>
    decreases s,
{
    if s.len() == 0 {
        Seq::empty()
    } else {
        seq![s[0]@] + arr_elems_view(s.subrange(1, s.len() as int))
    }
}

/// Abstract form of an array, from its backing vector.
pub open spec fn arr_view(v: Vec<Json>) -> Seq<JsonV>
    decreases v,
{
    arr_elems_view(v@)
}

/// Abstract form of an object's entries.
pub open spec fn obj_entries_view(s: Seq<(Vec<u8>, Json)>) -> Seq<(Seq<u8>, JsonV)>
    decreases s,
{
    if s.len() == 0 {
        Seq::empty()
    } else {
        seq![(s[0].0@, s[0].1@)] + obj_entries_view(s.subrange(1, s.len() as int))
    }
}

/// Abstract form of an object, from its backing vector.
pub open spec fn obj_view(v: Vec<(Vec<u8>, Json)>) -> Seq<(Seq<u8>, JsonV)>
    decreases v,
{
    obj_entries_view(v@)
}

impl View for Json {
    type V = JsonV;

    open spec fn view(&self) -> JsonV
        decreases self,
    {
        match self {
            Json::Bool(b) => JsonV::Bool(*b),
            Json::Num(n) => JsonV::Num(*n as int),
            Json::Str(s) => JsonV::Str(s@),
            Json::Arr(a) => JsonV::Arr(arr_view(*a)),
            Json::Obj(o) => JsonV::Obj(obj_view(*o)),
        }
    }
}

impl DeepView for Json {
    type V = JsonV;

    open spec fn deep_view(&self) -> JsonV {
        self@
    }
}

/// The abstract array view is the element-wise view.
pub proof fn lemma_arr_elems_view(s: Seq<Json>)
    ensures
        arr_elems_view(s).len() == s.len(),
        forall|i: int| 0 <= i < s.len() ==> arr_elems_view(s)[i] == s[i]@,
    decreases s.len(),
{
    if s.len() > 0 {
        let rest = s.subrange(1, s.len() as int);
        lemma_arr_elems_view(rest);
        assert(arr_elems_view(s) == seq![s[0]@] + arr_elems_view(rest));
        assert forall|i: int| 0 <= i < s.len() implies arr_elems_view(s)[i] == s[i]@ by {
            if i > 0 {
                assert(rest[i - 1] == s[i]);
                assert(arr_elems_view(s)[i] == arr_elems_view(rest)[i - 1]);
            }
        }
    }
}

/// The abstract object view is the entry-wise view.
pub proof fn lemma_obj_entries_view(s: Seq<(Vec<u8>, Json)>)
    ensures
        obj_entries_view(s).len() == s.len(),
        forall|i: int| 0 <= i < s.len() ==> obj_entries_view(s)[i] == (s[i].0@, s[i].1@),
    decreases s.len(),
{
    if s.len() > 0 {
        let rest = s.subrange(1, s.len() as int);
        lemma_obj_entries_view(rest);
        assert(obj_entries_view(s) == seq![(s[0].0@, s[0].1@)] + obj_entries_view(rest));
        assert forall|i: int| 0 <= i < s.len() implies obj_entries_view(s)[i] == (
        s[i].0@,
        s[i].1@,
        ) by {
            if i > 0 {
                assert(rest[i - 1] == s[i]);
                assert(obj_entries_view(s)[i] == obj_entries_view(rest)[i - 1]);
            }
        }
    }
}

/// The value at `key` in an object's entry list: the first entry whose key
/// matches, so later duplicates never shadow an earlier binding.
pub open spec fn spec_lookup(entries: Seq<(Seq<u8>, JsonV)>, key: Seq<u8>) -> Option<JsonV>
    decreases entries.len(),
{
    if entries.len() == 0 {
        Option::None
    } else if entries[0].0 == key {
        Option::Some(entries[0].1)
    } else {
        spec_lookup(entries.skip(1), key)
    }
}

/// Find the value bound to `key` in `entries`, scanning in order.
pub fn lookup<'a>(entries: &'a Vec<(Vec<u8>, Json)>, key: &[u8]) -> (r: Option<&'a Json>)
    ensures
        match r {
            Option::Some(j) => spec_lookup(obj_view(*entries), key@) == Option::Some(j@),
            Option::None => spec_lookup(obj_view(*entries), key@) is None,
        },
{
    let ghost ents = obj_view(*entries);
    proof {
        lemma_obj_entries_view(entries@);
        assert(ents.skip(0) =~= ents);
    }
    let mut i: usize = 0;
    while i < entries.len()
        invariant
            i <= entries.len(),
            ents == obj_view(*entries),
            ents.len() == entries@.len(),
            forall|k: int| 0 <= k < entries@.len() ==> ents[k] == (entries@[k].0@, entries@[k].1@),
            spec_lookup(ents, key@) == spec_lookup(ents.skip(i as int), key@),
        decreases entries.len() - i,
    {
        proof {
            assert(ents.skip(i as int)[0] == ents[i as int]);
        }
        if crate::bytes_eq(entries[i].0.as_slice(), key) {
            return Option::Some(&entries[i].1);
        }
        proof {
            assert(ents.skip(i as int).skip(1) =~= ents.skip(i + 1));
        }
        i = i + 1;
    }
    proof {
        assert(ents.skip(i as int).len() == 0);
    }
    Option::None
}

} // verus!
