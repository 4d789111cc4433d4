//! The JSON wire encoding of schema-typed values.
//!
//! A value of a generated record type is modelled here as a [`Value`]; its
//! wire form is a [`crate::json::Json`].  Encoding writes a tagged object:
//! the `"@type"` key first, carrying the constructor's exact schema name,
//! then one key per parameter, in schema order, each named exactly as the
//! schema parameter; the tag is the constructor's full schema name.
//! Decoding finds the `"@type"` entry wherever it stands and dispatches
//! on it by exact string match; an unknown tag is the
//! [`WireError::UnrecognizedVariant`] error, never some default variant.
//! After dispatch the decoder accepts the canonical encoded shape — the
//! tag entry first, then one entry per parameter in schema order — and
//! answers `Malformed` for any other arrangement.

use vstd::prelude::*;
use crate::b64;
use crate::json::{Json, JsonV};
use crate::grouper::{GroupV, VariantGroup, spec_find_group};
use crate::num;
use crate::str_bytes;
use crate::tl::{DefV, Definition, ParamV, Ty, TyV};

verus! {

/// A runtime value of some schema type.
#[derive(Debug, PartialEq, Eq)]
pub enum Value {
    /// A `Bool` scalar.
    Bool(bool),
    /// An `Int32` scalar.
    Int32(i32),
    /// An `Int53` scalar: a JSON-safe integer.
    Int53(i64),
    /// An `Int64` scalar: carried as a decimal string on the wire.
    Int64(i64),
    /// A `Bytes` scalar: carried base64-encoded on the wire.
    Bytes(Vec<u8>),
    /// A `string` scalar.
    Text(Vec<u8>),
    /// A `vector<T>` of values.
    Vector(Vec<Value>),
    /// A constructor's record: its wire tag and its named fields.
    Record(Vec<u8>, Vec<(Vec<u8>, Value)>),
}

/// Abstract form of a [`Value`].
pub enum ValueV {
    Bool(bool),
    Int32(int),
    Int53(int),
    Int64(int),
    Bytes(Seq<u8>),
    Text(Seq<u8>),
    Vector(Seq<ValueV>),
    Record(Seq<u8>, Seq<(Seq<u8>, ValueV)>),
}

/// Abstract form of a vector value's elements.
pub open spec fn vals_view(s: Seq<Value>) -> Seq<ValueV>
    decreases s,
{
    if s.len() == 0 {
        Seq::empty()
    } else {
        seq![s[0]@] + vals_view(s.subrange(1, s.len() as int))
    }
}

/// Abstract form of a record's field list.
pub open spec fn fields_view(s: Seq<(Vec<u8>, Value)>) -> Seq<(Seq<u8>, ValueV)>
    decreases s,
{
    if s.len() == 0 {
        Seq::empty()
    } else {
        seq![(s[0].0@, s[0].1@)] + fields_view(s.subrange(1, s.len() as int))
    }
}

impl View for Value {
    type V = ValueV;

    open spec fn view(&self) -> ValueV
        decreases self,
    {
        match self {
            Value::Bool(b) => ValueV::Bool(*b),
            Value::Int32(n) => ValueV::Int32(*n as int),
            Value::Int53(n) => ValueV::Int53(*n as int),
            Value::Int64(n) => ValueV::Int64(*n as int),
            Value::Bytes(b) => ValueV::Bytes(b@),
            Value::Text(s) => ValueV::Text(s@),
            Value::Vector(elems) => ValueV::Vector(vals_view_vec(*elems)),
            Value::Record(tag, fields) => ValueV::Record(tag@, fields_view_vec(*fields)),
        }
    }
}

/// Abstract form of a vector value, from its backing vector.
pub open spec fn vals_view_vec(v: Vec<Value>) -> Seq<ValueV>
    decreases v,
{
    vals_view(v@)
}

/// Abstract form of a field list, from its backing vector.
pub open spec fn fields_view_vec(v: Vec<(Vec<u8>, Value)>) -> Seq<(Seq<u8>, ValueV)>
    decreases v,
{
    fields_view(v@)
}

impl DeepView for Value {
    type V = ValueV;

    open spec fn deep_view(&self) -> ValueV {
        self@
    }
}

/// The element-wise reading of [`vals_view`].
pub proof fn lemma_vals_view(s: Seq<Value>)
    ensures
        vals_view(s).len() == s.len(),
        forall|i: int| 0 <= i < s.len() ==> vals_view(s)[i] == s[i]@,
    decreases s.len(),
{
    if s.len() > 0 {
        let rest = s.subrange(1, s.len() as int);
        lemma_vals_view(rest);
        assert(vals_view(s) == seq![s[0]@] + vals_view(rest));
        assert forall|i: int| 0 <= i < s.len() implies vals_view(s)[i] == s[i]@ by {
            if i > 0 {
                assert(rest[i - 1] == s[i]);
                assert(vals_view(s)[i] == vals_view(rest)[i - 1]);
            }
        }
    }
}

/// The entry-wise reading of [`fields_view`].
pub proof fn lemma_fields_view(s: Seq<(Vec<u8>, Value)>)
    ensures
        fields_view(s).len() == s.len(),
        forall|i: int| 0 <= i < s.len() ==> fields_view(s)[i] == (s[i].0@, s[i].1@),
    decreases s.len(),
{
    if s.len() > 0 {
        let rest = s.subrange(1, s.len() as int);
        lemma_fields_view(rest);
        assert(fields_view(s) == seq![(s[0].0@, s[0].1@)] + fields_view(rest));
        assert forall|i: int| 0 <= i < s.len() implies fields_view(s)[i] == (s[i].0@, s[i].1@) by {
            if i > 0 {
                assert(rest[i - 1] == s[i]);
                assert(fields_view(s)[i] == fields_view(rest)[i - 1]);
            }
        }
    }
}

/// A decoding failure.
#[derive(Debug, PartialEq, Eq)]
pub enum WireError {
    /// The object's `"@type"` tag matches no constructor of the expected
    /// type; carries the raw tag.
    UnrecognizedVariant(Vec<u8>),
    /// The JSON shape does not fit the expected type.
    Malformed,
}

/// Abstract form of a [`WireError`].
pub enum WireErrorV {
    UnrecognizedVariant(Seq<u8>),
    Malformed,
}

impl View for WireError {
    type V = WireErrorV;

    open spec fn view(&self) -> WireErrorV {
        match self {
            WireError::UnrecognizedVariant(tag) => WireErrorV::UnrecognizedVariant(tag@),
            WireError::Malformed => WireErrorV::Malformed,
        }
    }
}

/// The discriminant key every encoded object starts with.
pub open spec fn spec_at_type() -> Seq<u8> {
    str_bytes("@type")
}

/// The wire form of a value: the scalar encodings are fixed by the
/// special-casing rules, and a record is a tagged object.
pub open spec fn spec_encode(v: ValueV) -> JsonV
    decreases v,
{
    match v {
        ValueV::Bool(b) => JsonV::Bool(b),
        ValueV::Int32(n) => JsonV::Num(n),
        ValueV::Int53(n) => JsonV::Num(n),
        ValueV::Int64(n) => JsonV::Str(num::spec_dec_int(n)),
        ValueV::Bytes(b) => JsonV::Str(b64::spec_b64(b)),
        ValueV::Text(s) => JsonV::Str(s),
        ValueV::Vector(elems) => JsonV::Arr(spec_encode_arr(elems)),
        ValueV::Record(tag, fields) => JsonV::Obj(
            seq![(spec_at_type(), JsonV::Str(tag))] + spec_encode_fields(fields),
        ),
    }
}

/// The wire form of a vector's elements.
pub open spec fn spec_encode_arr(elems: Seq<ValueV>) -> Seq<JsonV>
    decreases elems,
{
    if elems.len() == 0 {
        Seq::empty()
    } else {
        seq![spec_encode(elems[0])] + spec_encode_arr(elems.subrange(1, elems.len() as int))
    }
}

/// The wire form of a record's fields, each under its schema parameter
/// name, in schema order.
pub open spec fn spec_encode_fields(fields: Seq<(Seq<u8>, ValueV)>) -> Seq<(Seq<u8>, JsonV)>
    decreases fields,
{
    if fields.len() == 0 {
        Seq::empty()
    } else {
        seq![(fields[0].0, spec_encode(fields[0].1))] + spec_encode_fields(
            fields.subrange(1, fields.len() as int),
        )
    }
}

/// The first constructor among `ctors` whose full schema name — its
/// wire tag — is `tag`, or the number of constructors when none matches.
pub open spec fn spec_find_ctor(defs: Seq<DefV>, ctors: Seq<int>, tag: Seq<u8>) -> int
    decreases ctors.len(),
{
    if ctors.len() == 0 {
        0
    } else if crate::spec_full_name(defs[ctors[0]].namespace, defs[ctors[0]].name) == tag {
        0
    } else {
        1 + spec_find_ctor(defs, ctors.skip(1), tag)
    }
}

/// Whether `name` is handled as a scalar or vector rather than a record.
pub open spec fn spec_is_builtin(name: Seq<u8>) -> bool {
    ||| crate::spec_is_special_name(name)
    ||| name == str_bytes("string")
    ||| name == str_bytes("vector")
}

/// The value a JSON document decodes to against an expected type, under a
/// definition list and its variant groups.  Inverse of [`spec_encode`]:
/// fields are read back in schema order, the tag first.
pub open spec fn spec_decode(defs: Seq<DefV>, gs: Seq<GroupV>, t: TyV, j: JsonV) -> Result<
    ValueV,
    WireErrorV,
>
    decreases j,
{
    if t.name() == str_bytes("Bool") {
        match j {
            JsonV::Bool(b) => Result::Ok(ValueV::Bool(b)),
            _ => Result::Err(WireErrorV::Malformed),
        }
    } else if t.name() == str_bytes("Int32") {
        match j {
            JsonV::Num(n) => if -0x8000_0000 <= n <= 0x7fff_ffff {
                Result::Ok(ValueV::Int32(n))
            } else {
                Result::Err(WireErrorV::Malformed)
            },
            _ => Result::Err(WireErrorV::Malformed),
        }
    } else if t.name() == str_bytes("Int53") {
        match j {
            JsonV::Num(n) => if -(0x8000_0000_0000_0000 as int) <= n <= 0x7fff_ffff_ffff_ffff {
                Result::Ok(ValueV::Int53(n))
            } else {
                Result::Err(WireErrorV::Malformed)
            },
            _ => Result::Err(WireErrorV::Malformed),
        }
    } else if t.name() == str_bytes("Int64") {
        match j {
            JsonV::Str(s) => match num::spec_dec_parse(s) {
                Option::Some(n) => if -(0x8000_0000_0000_0000 as int) <= n
                    <= 0x7fff_ffff_ffff_ffff {
                    Result::Ok(ValueV::Int64(n))
                } else {
                    Result::Err(WireErrorV::Malformed)
                },
                Option::None => Result::Err(WireErrorV::Malformed),
            },
            _ => Result::Err(WireErrorV::Malformed),
        }
    } else if t.name() == str_bytes("Bytes") {
        match j {
            JsonV::Str(s) => match b64::spec_b64_parse(s) {
                Option::Some(b) => Result::Ok(ValueV::Bytes(b)),
                Option::None => Result::Err(WireErrorV::Malformed),
            },
            _ => Result::Err(WireErrorV::Malformed),
        }
    } else if t.name() == str_bytes("string") {
        match j {
            JsonV::Str(s) => Result::Ok(ValueV::Text(s)),
            _ => Result::Err(WireErrorV::Malformed),
        }
    } else if t.name() == str_bytes("vector") {
        match t.arg() {
            Option::Some(ta) => match j {
                JsonV::Arr(elems) => match spec_decode_arr(defs, gs, *ta, elems) {
                    Result::Ok(vs) => Result::Ok(ValueV::Vector(vs)),
                    Result::Err(e) => Result::Err(e),
                },
                _ => Result::Err(WireErrorV::Malformed),
            },
            Option::None => Result::Err(WireErrorV::Malformed),
        }
    } else {
        match j {
            JsonV::Obj(entries) => match crate::json::spec_lookup(entries, spec_at_type()) {
                Option::Some(JsonV::Str(tag)) => {
                    let gk = spec_find_group(gs, t.name());
                    if gk < gs.len() {
                        let ck = spec_find_ctor(defs, gs[gk].ctors, tag);
                        if ck < gs[gk].ctors.len() {
                            let d = defs[gs[gk].ctors[ck]];
                            if entries.len() >= 1 && entries[0] == (
                            spec_at_type(),
                            JsonV::Str(tag),
                            ) {
                                match spec_decode_fields(
                                    defs,
                                    gs,
                                    d.params,
                                    entries.subrange(1, entries.len() as int),
                                ) {
                                    Result::Ok(fields) => Result::Ok(ValueV::Record(tag, fields)),
                                    Result::Err(e) => Result::Err(e),
                                }
                            } else {
                                Result::Err(WireErrorV::Malformed)
                            }
                        } else {
                            Result::Err(WireErrorV::UnrecognizedVariant(tag))
                        }
                    } else {
                        Result::Err(WireErrorV::UnrecognizedVariant(tag))
                    }
                },
                _ => Result::Err(WireErrorV::Malformed),
            },
            _ => Result::Err(WireErrorV::Malformed),
        }
    }
}

/// Element-wise decoding of an array against the element type.
pub open spec fn spec_decode_arr(defs: Seq<DefV>, gs: Seq<GroupV>, t: TyV, elems: Seq<JsonV>) -> Result<
    Seq<ValueV>,
    WireErrorV,
>
    decreases elems,
{
    if elems.len() == 0 {
        Result::Ok(Seq::empty())
    } else {
        match spec_decode(defs, gs, t, elems[0]) {
            Result::Ok(v) => match spec_decode_arr(
                defs,
                gs,
                t,
                elems.subrange(1, elems.len() as int),
            ) {
                Result::Ok(rest) => Result::Ok(seq![v] + rest),
                Result::Err(e) => Result::Err(e),
            },
            Result::Err(e) => Result::Err(e),
        }
    }
}

/// Decoding of a record's fields: one entry per parameter, in schema
/// order, each under the schema parameter name.
pub open spec fn spec_decode_fields(
    defs: Seq<DefV>,
    gs: Seq<GroupV>,
    params: Seq<ParamV>,
    entries: Seq<(Seq<u8>, JsonV)>,
) -> Result<Seq<(Seq<u8>, ValueV)>, WireErrorV>
    decreases entries,
{
    if params.len() == 0 {
        if entries.len() == 0 {
            Result::Ok(Seq::empty())
        } else {
            Result::Err(WireErrorV::Malformed)
        }
    } else if entries.len() == 0 {
        Result::Err(WireErrorV::Malformed)
    } else if entries[0].0 == params[0].name {
        match spec_decode(defs, gs, params[0].ty, entries[0].1) {
            Result::Ok(v) => match spec_decode_fields(
                defs,
                gs,
                params.skip(1),
                entries.subrange(1, entries.len() as int),
            ) {
                Result::Ok(rest) => Result::Ok(seq![(params[0].name, v)] + rest),
                Result::Err(e) => Result::Err(e),
            },
            Result::Err(e) => Result::Err(e),
        }
    } else {
        Result::Err(WireErrorV::Malformed)
    }
}


/// Concrete length and content facts about the builtin wire names, so the
/// decode dispatch ladder can tell them apart.
pub proof fn lemma_builtin_bytes()
    ensures
        str_bytes("Bool").len() == 4,
        str_bytes("Bytes").len() == 5,
        str_bytes("Int32").len() == 5,
        str_bytes("Int53").len() == 5,
        str_bytes("Int64").len() == 5,
        str_bytes("string").len() == 6,
        str_bytes("vector").len() == 6,
        str_bytes("@type").len() == 5,
        str_bytes("Bytes")[0] == 66,
        str_bytes("Int32")[0] == 73,
        str_bytes("Int53")[0] == 73,
        str_bytes("Int64")[0] == 73,
        str_bytes("@type")[0] == 64,
        str_bytes("Int32")[3] == 51,
        str_bytes("Int53")[3] == 53,
        str_bytes("Int64")[3] == 54,
        str_bytes("string")[0] == 115,
        str_bytes("vector")[0] == 118,
{
    crate::lemma_wire_names();
}

/// Whether a value fits a type reference, under a definition list and its
/// variant groups: scalars carry the matching scalar name and fit their
/// ranges, vectors are element-wise well typed, and a record names a known
/// constructor of its abstract type with one field per parameter.
pub open spec fn well_typed(defs: Seq<DefV>, gs: Seq<GroupV>, t: TyV, v: ValueV) -> bool
    decreases v,
{
    match v {
        ValueV::Bool(_) => t.name() == str_bytes("Bool"),
        ValueV::Int32(n) => t.name() == str_bytes("Int32") && -0x8000_0000 <= n <= 0x7fff_ffff,
        ValueV::Int53(n) => t.name() == str_bytes("Int53") && -(0x8000_0000_0000_0000 as int) <= n
            <= 0x7fff_ffff_ffff_ffff,
        ValueV::Int64(n) => t.name() == str_bytes("Int64") && -(0x8000_0000_0000_0000 as int) <= n
            <= 0x7fff_ffff_ffff_ffff,
        ValueV::Bytes(_) => t.name() == str_bytes("Bytes"),
        ValueV::Text(_) => t.name() == str_bytes("string"),
        ValueV::Vector(elems) => t.name() == str_bytes("vector") && match t.arg() {
            Option::Some(ta) => well_typed_arr(defs, gs, *ta, elems),
            Option::None => false,
        },
        ValueV::Record(tag, fields) => !spec_is_builtin(t.name()) && {
            let gk = spec_find_group(gs, t.name());
            gk < gs.len() && {
                let ck = spec_find_ctor(defs, gs[gk].ctors, tag);
                ck < gs[gk].ctors.len() && 0 <= gs[gk].ctors[ck] < defs.len()
                    && well_typed_fields(defs, gs, defs[gs[gk].ctors[ck]].params, fields)
            }
        },
    }
}

/// Element-wise well-typedness of a vector value.
pub open spec fn well_typed_arr(defs: Seq<DefV>, gs: Seq<GroupV>, t: TyV, elems: Seq<ValueV>) -> bool
    decreases elems,
{
    if elems.len() == 0 {
        true
    } else {
        well_typed(defs, gs, t, elems[0]) && well_typed_arr(
            defs,
            gs,
            t,
            elems.subrange(1, elems.len() as int),
        )
    }
}

/// Field-wise well-typedness of a record value against a parameter list.
pub open spec fn well_typed_fields(
    defs: Seq<DefV>,
    gs: Seq<GroupV>,
    params: Seq<ParamV>,
    fields: Seq<(Seq<u8>, ValueV)>,
) -> bool
    decreases fields,
{
    if fields.len() == 0 {
        params.len() == 0
    } else {
        params.len() == fields.len() && fields[0].0 == params[0].name && well_typed(
            defs,
            gs,
            params[0].ty,
            fields[0].1,
        ) && well_typed_fields(
            defs,
            gs,
            params.skip(1),
            fields.subrange(1, fields.len() as int),
        )
    }
}

/// Decoding inverts encoding: every well-typed value, nested records and
/// vectors included, comes back unchanged from its wire form.
pub proof fn lemma_round_trip(defs: Seq<DefV>, gs: Seq<GroupV>, t: TyV, v: ValueV)
    requires
        well_typed(defs, gs, t, v),
    ensures
        spec_decode(defs, gs, t, spec_encode(v)) == Result::<ValueV, WireErrorV>::Ok(v),
    decreases v,
{
    lemma_builtin_bytes();
    match v {
        ValueV::Bool(_) => {},
        ValueV::Int32(_) => {},
        ValueV::Int53(_) => {},
        ValueV::Int64(n) => {
            num::lemma_dec_int_round_trip(n);
        },
        ValueV::Bytes(b) => {
            b64::lemma_b64_round_trip(b);
        },
        ValueV::Text(_) => {},
        ValueV::Vector(elems) => {
            match t.arg() {
                Option::Some(ta) => {
                    lemma_round_trip_arr(defs, gs, *ta, elems);
                },
                Option::None => {},
            }
        },
        ValueV::Record(tag, fields) => {
            let gk = spec_find_group(gs, t.name());
            let ck = spec_find_ctor(defs, gs[gk].ctors, tag);
            let d = defs[gs[gk].ctors[ck]];
            let entries = seq![(spec_at_type(), JsonV::Str(tag))] + spec_encode_fields(fields);
            assert(entries[0] == (spec_at_type(), JsonV::Str(tag)));
            assert(entries.subrange(1, entries.len() as int) =~= spec_encode_fields(fields));
            lemma_round_trip_fields(defs, gs, d.params, fields);
        },
    }
}

/// Round trip for a vector's elements.
pub proof fn lemma_round_trip_arr(defs: Seq<DefV>, gs: Seq<GroupV>, t: TyV, elems: Seq<ValueV>)
    requires
        well_typed_arr(defs, gs, t, elems),
    ensures
        spec_decode_arr(defs, gs, t, spec_encode_arr(elems)) == Result::<
            Seq<ValueV>,
            WireErrorV,
        >::Ok(elems),
    decreases elems,
{
    if elems.len() == 0 {
        assert(spec_encode_arr(elems).len() == 0);
        assert(elems =~= Seq::<ValueV>::empty());
    } else {
        let rest = elems.subrange(1, elems.len() as int);
        lemma_round_trip(defs, gs, t, elems[0]);
        lemma_round_trip_arr(defs, gs, t, rest);
        let enc = spec_encode_arr(elems);
        assert(enc == seq![spec_encode(elems[0])] + spec_encode_arr(rest));
        assert(enc[0] == spec_encode(elems[0]));
        assert(enc.subrange(1, enc.len() as int) =~= spec_encode_arr(rest));
        assert(seq![elems[0]] + rest =~= elems);
    }
}

/// Round trip for a record's fields.
pub proof fn lemma_round_trip_fields(
    defs: Seq<DefV>,
    gs: Seq<GroupV>,
    params: Seq<ParamV>,
    fields: Seq<(Seq<u8>, ValueV)>,
)
    requires
        well_typed_fields(defs, gs, params, fields),
    ensures
        spec_decode_fields(defs, gs, params, spec_encode_fields(fields)) == Result::<
            Seq<(Seq<u8>, ValueV)>,
            WireErrorV,
        >::Ok(fields),
    decreases fields,
{
    if fields.len() == 0 {
        assert(spec_encode_fields(fields).len() == 0);
        assert(fields =~= Seq::<(Seq<u8>, ValueV)>::empty());
    } else {
        let rest = fields.subrange(1, fields.len() as int);
        lemma_round_trip(defs, gs, params[0].ty, fields[0].1);
        lemma_round_trip_fields(defs, gs, params.skip(1), rest);
        let enc = spec_encode_fields(fields);
        assert(enc == seq![(fields[0].0, spec_encode(fields[0].1))] + spec_encode_fields(rest));
        assert(enc[0] == (fields[0].0, spec_encode(fields[0].1)));
        assert(enc.subrange(1, enc.len() as int) =~= spec_encode_fields(rest));
        assert(seq![(params[0].name, fields[0].1)] + rest =~= fields);
    }
}

/// Tag fidelity: the wire form of a record is an object whose first entry
/// is the `"@type"` key carrying the constructor's exact schema name.
pub proof fn lemma_tag_fidelity(tag: Seq<u8>, fields: Seq<(Seq<u8>, ValueV)>)
    ensures
        spec_encode(ValueV::Record(tag, fields)) matches JsonV::Obj(entries) && entries.len() >= 1
            && entries[0] == (spec_at_type(), JsonV::Str(tag)),
{
    let entries = seq![(spec_at_type(), JsonV::Str(tag))] + spec_encode_fields(fields);
    assert(entries[0] == (spec_at_type(), JsonV::Str(tag)));
}

/// Closed dispatch: an object whose `"@type"` tag — wherever the entry
/// stands — matches no constructor of the expected abstract type decodes
/// to `UnrecognizedVariant` carrying that raw tag, never to some
/// variant.
pub proof fn lemma_closed_dispatch(
    defs: Seq<DefV>,
    gs: Seq<GroupV>,
    t: TyV,
    entries: Seq<(Seq<u8>, JsonV)>,
    tag: Seq<u8>,
)
    requires
        !spec_is_builtin(t.name()),
        crate::json::spec_lookup(entries, spec_at_type()) == Option::Some(JsonV::Str(tag)),
        spec_find_group(gs, t.name()) < gs.len() ==> forall|k: int|
            0 <= k < gs[spec_find_group(gs, t.name())].ctors.len() ==> crate::spec_full_name(
                defs[#[trigger] gs[spec_find_group(gs, t.name())].ctors[k]].namespace,
                defs[gs[spec_find_group(gs, t.name())].ctors[k]].name,
            ) != tag,
    ensures
        spec_decode(defs, gs, t, JsonV::Obj(entries)) == Result::<ValueV, WireErrorV>::Err(
            WireErrorV::UnrecognizedVariant(tag),
        ),
{
    let gk = spec_find_group(gs, t.name());
    if gk < gs.len() {
        lemma_find_ctor_misses(defs, gs[gk].ctors, tag);
    }
}

/// A search over constructors none of which carries the tag finds none.
proof fn lemma_find_ctor_misses(defs: Seq<DefV>, ctors: Seq<int>, tag: Seq<u8>)
    requires
        forall|k: int|
            0 <= k < ctors.len() ==> crate::spec_full_name(
                defs[#[trigger] ctors[k]].namespace,
                defs[ctors[k]].name,
            ) != tag,
    ensures
        spec_find_ctor(defs, ctors, tag) >= ctors.len(),
    decreases ctors.len(),
{
    if ctors.len() > 0 {
        assert(crate::spec_full_name(defs[ctors[0]].namespace, defs[ctors[0]].name) != tag);
        assert forall|k: int| 0 <= k < ctors.skip(1).len() implies crate::spec_full_name(
            defs[#[trigger] ctors.skip(1)[k]].namespace,
            defs[ctors.skip(1)[k]].name,
        ) != tag by {
            assert(ctors.skip(1)[k] == ctors[k + 1]);
        }
        lemma_find_ctor_misses(defs, ctors.skip(1), tag);
    }
}


/// The element-wise reading of [`spec_encode_arr`].
pub proof fn lemma_spec_encode_arr_elem(s: Seq<ValueV>)
    ensures
        spec_encode_arr(s).len() == s.len(),
        forall|k: int| 0 <= k < s.len() ==> spec_encode_arr(s)[k] == spec_encode(s[k]),
    decreases s.len(),
{
    if s.len() > 0 {
        let rest = s.subrange(1, s.len() as int);
        lemma_spec_encode_arr_elem(rest);
        assert(spec_encode_arr(s) == seq![spec_encode(s[0])] + spec_encode_arr(rest));
        assert forall|k: int| 0 <= k < s.len() implies spec_encode_arr(s)[k] == spec_encode(
            s[k],
        ) by {
            if k > 0 {
                assert(rest[k - 1] == s[k]);
                assert(spec_encode_arr(s)[k] == spec_encode_arr(rest)[k - 1]);
            }
        }
    }
}

/// The entry-wise reading of [`spec_encode_fields`].
pub proof fn lemma_spec_encode_fields_elem(s: Seq<(Seq<u8>, ValueV)>)
    ensures
        spec_encode_fields(s).len() == s.len(),
        forall|k: int|
            0 <= k < s.len() ==> spec_encode_fields(s)[k] == (s[k].0, spec_encode(s[k].1)),
    decreases s.len(),
{
    if s.len() > 0 {
        let rest = s.subrange(1, s.len() as int);
        lemma_spec_encode_fields_elem(rest);
        assert(spec_encode_fields(s) == seq![(s[0].0, spec_encode(s[0].1))] + spec_encode_fields(
            rest,
        ));
        assert forall|k: int| 0 <= k < s.len() implies spec_encode_fields(s)[k] == (
        s[k].0,
        spec_encode(s[k].1),
        ) by {
            if k > 0 {
                assert(rest[k - 1] == s[k]);
                assert(spec_encode_fields(s)[k] == spec_encode_fields(rest)[k - 1]);
            }
        }
    }
}

/// Encode a value into its JSON wire form.
pub fn encode(v: &Value) -> (r: Json)
    ensures
        r@ == spec_encode(v@),
    decreases v,
{
    match v {
        Value::Bool(b) => Json::Bool(*b),
        Value::Int32(n) => Json::Num(*n as i64),
        Value::Int53(n) => Json::Num(*n),
        Value::Int64(n) => Json::Str(num::i64_dec(*n)),
        Value::Bytes(b) => Json::Str(b64::b64_encode(b.as_slice())),
        Value::Text(s) => Json::Str(crate::copy_bytes(s)),
        Value::Vector(elems) => {
            let ghost ev = vals_view(elems@);
            proof {
                lemma_vals_view(elems@);
                lemma_spec_encode_arr_elem(ev);
            }
            proof {
                assert(decreases_to!(*v => *elems));
                assert(decreases_to!(*elems => elems@));
            }
            let mut out: Vec<Json> = Vec::new();
            let mut i: usize = 0;
            while i < elems.len()
                invariant
                    decreases_to!(*v => elems@),
                    i <= elems@.len(),
                    ev == vals_view(elems@),
                    ev.len() == elems@.len(),
                    forall|k: int| 0 <= k < elems@.len() ==> ev[k] == elems@[k]@,
                    spec_encode_arr(ev).len() == ev.len(),
                    forall|k: int| 0 <= k < ev.len() ==> spec_encode_arr(ev)[k] == spec_encode(
                        ev[k],
                    ),
                    out@.len() == i,
                    forall|k: int| 0 <= k < i ==> out@[k]@ == spec_encode_arr(ev)[k],
                decreases elems@.len() - i,
            {
                proof {
                    assert(decreases_to!(elems@ => elems@[i as int]));
                }
                let e = encode(&elems[i]);
                out.push(e);
                i = i + 1;
            }
            proof {
                crate::json::lemma_arr_elems_view(out@);
                assert(crate::json::arr_view(out) =~= spec_encode_arr(ev));
            }
            Json::Arr(out)
        },
        Value::Record(tag, fields) => {
            let ghost fv = fields_view(fields@);
            proof {
                lemma_fields_view(fields@);
                lemma_spec_encode_fields_elem(fv);
            }
            proof {
                assert(decreases_to!(*v => *fields));
                assert(decreases_to!(*fields => fields@));
            }
            let mut entries: Vec<(Vec<u8>, Json)> = Vec::new();
            entries.push((crate::lit("@type"), Json::Str(crate::copy_bytes(tag))));
            let mut i: usize = 0;
            while i < fields.len()
                invariant
                    decreases_to!(*v => fields@),
                    i <= fields@.len(),
                    fv == fields_view(fields@),
                    fv.len() == fields@.len(),
                    forall|k: int| 0 <= k < fields@.len() ==> fv[k] == (
                        fields@[k].0@,
                        fields@[k].1@,
                    ),
                    spec_encode_fields(fv).len() == fv.len(),
                    forall|k: int| 0 <= k < fv.len() ==> spec_encode_fields(fv)[k] == (
                        fv[k].0,
                        spec_encode(fv[k].1),
                    ),
                    entries@.len() == i + 1,
                    entries@[0].0@ == spec_at_type() && entries@[0].1@ == JsonV::Str(tag@),
                    forall|k: int| 1 <= k < i + 1 ==> (entries@[k].0@, entries@[k].1@)
                        == spec_encode_fields(fv)[k - 1],
                decreases fields@.len() - i,
            {
                proof {
                    assert(decreases_to!(fields@ => fields@[i as int]));
                    assert(decreases_to!(fields@[i as int] => fields@[i as int].1));
                }
                let name = crate::copy_bytes(&fields[i].0);
                let e = encode(&fields[i].1);
                entries.push((name, e));
                i = i + 1;
            }
            proof {
                crate::json::lemma_obj_entries_view(entries@);
                assert(crate::json::obj_view(entries) =~= seq![(spec_at_type(), JsonV::Str(tag@))]
                    + spec_encode_fields(fv));
            }
            Json::Obj(entries)
        },
    }
}


/// Abstract form of a decoding result.
pub open spec fn decode_result_view(r: Result<Value, WireError>) -> Result<ValueV, WireErrorV> {
    match r {
        Result::Ok(v) => Result::Ok(v@),
        Result::Err(e) => Result::Err(e@),
    }
}

/// A search that stops at `i` returns `i`.
proof fn lemma_find_ctor_prefix(defs: Seq<DefV>, ctors: Seq<int>, tag: Seq<u8>, i: int)
    requires
        0 <= i < ctors.len(),
        forall|k: int|
            0 <= k < i ==> crate::spec_full_name(
                defs[#[trigger] ctors[k]].namespace,
                defs[ctors[k]].name,
            ) != tag,
        crate::spec_full_name(defs[ctors[i]].namespace, defs[ctors[i]].name) == tag,
    ensures
        spec_find_ctor(defs, ctors, tag) == i,
    decreases i,
{
    if i > 0 {
        assert forall|k: int| 0 <= k < i - 1 implies crate::spec_full_name(
            defs[#[trigger] ctors.skip(1)[k]].namespace,
            defs[ctors.skip(1)[k]].name,
        ) != tag by {
            assert(ctors.skip(1)[k] == ctors[k + 1]);
        }
        assert(ctors.skip(1)[i - 1] == ctors[i]);
        lemma_find_ctor_prefix(defs, ctors.skip(1), tag, i - 1);
    }
}

/// Find the first constructor of `g` whose schema name is `tag`.
pub fn find_ctor(defs: &Vec<Definition>, g: &VariantGroup, tag: &[u8]) -> (r: usize)
    requires
        forall|k: int| 0 <= k < g.ctors@.len() ==> (g.ctors@[k] as int) < defs@.len(),
    ensures
        r as int == spec_find_ctor(defs.deep_view(), g@.ctors, tag@),
        r <= g.ctors@.len(),
{
    let ghost dv = defs.deep_view();
    let ghost cv = g@.ctors;
    proof {
        assert(cv.skip(0) =~= cv);
    }
    let mut i: usize = 0;
    while i < g.ctors.len()
        invariant
            i <= g.ctors@.len(),
            dv == defs.deep_view(),
            dv.len() == defs@.len(),
            forall|k: int| 0 <= k < dv.len() ==> dv[k] == defs@[k]@,
            cv == g@.ctors,
            cv.len() == g.ctors@.len(),
            forall|k: int| 0 <= k < cv.len() ==> cv[k] == g.ctors@[k] as int,
            forall|k: int| 0 <= k < cv.len() ==> 0 <= #[trigger] cv[k] < dv.len(),
            spec_find_ctor(dv, cv, tag@) == i + spec_find_ctor(dv, cv.skip(i as int), tag@),
            forall|k: int|
                0 <= k < i ==> crate::spec_full_name(
                    defs.deep_view()[#[trigger] cv[k]].namespace,
                    defs.deep_view()[cv[k]].name,
                ) != tag@,
        decreases g.ctors@.len() - i,
    {
        proof {
            assert(cv.skip(i as int)[0] == cv[i as int]);
        }
        let idx = g.ctors[i];
        let full = crate::full_name(&defs[idx].namespace, defs[idx].name.as_slice());
        if crate::bytes_eq(full.as_slice(), tag) {
            proof {
                lemma_find_ctor_prefix(dv, cv, tag@, i as int);
            }
            return i;
        }
        proof {
            assert(cv.skip(i as int).skip(1) =~= cv.skip(i + 1));
        }
        i = i + 1;
    }
    proof {
        assert(cv.skip(i as int).len() == 0);
    }
    i
}


/// Decode a JSON document against an expected type: the inverse of
/// [`encode`].  The `"@type"` entry is found wherever it stands and
/// dispatched on by exact match; an unknown tag fails with
/// `UnrecognizedVariant`.  Fields are then read in the canonical encoded
/// shape (tag first, schema order); any other arrangement is
/// `Malformed`.
pub fn decode(defs: &Vec<Definition>, groups: &Vec<VariantGroup>, t: &Ty, j: &Json) -> (r: Result<
    Value,
    WireError,
>)
    requires
        crate::grouper::groups_ctors_in_range(
            crate::grouper::groups_view(groups@),
            defs@.len() as int,
        ),
    ensures
        decode_result_view(r) == spec_decode(
            defs.deep_view(),
            crate::grouper::groups_view(groups@),
            t@,
            j@,
        ),
    decreases j, 1int,
{
    let ghost dv = defs.deep_view();
    let ghost gv = crate::grouper::groups_view(groups@);
    let name = t.name.as_slice();
    if crate::bytes_eq(name, crate::lit("Bool").as_slice()) {
        match j {
            Json::Bool(b) => Result::Ok(Value::Bool(*b)),
            _ => Result::Err(WireError::Malformed),
        }
    } else if crate::bytes_eq(name, crate::lit("Int32").as_slice()) {
        match j {
            Json::Num(n) => if -2147483648 <= *n && *n <= 2147483647 {
                Result::Ok(Value::Int32(*n as i32))
            } else {
                Result::Err(WireError::Malformed)
            },
            _ => Result::Err(WireError::Malformed),
        }
    } else if crate::bytes_eq(name, crate::lit("Int53").as_slice()) {
        match j {
            Json::Num(n) => Result::Ok(Value::Int53(*n)),
            _ => Result::Err(WireError::Malformed),
        }
    } else if crate::bytes_eq(name, crate::lit("Int64").as_slice()) {
        match j {
            Json::Str(s) => match crate::num::i64_parse(s.as_slice()) {
                Option::Some(v) => Result::Ok(Value::Int64(v)),
                Option::None => Result::Err(WireError::Malformed),
            },
            _ => Result::Err(WireError::Malformed),
        }
    } else if crate::bytes_eq(name, crate::lit("Bytes").as_slice()) {
        match j {
            Json::Str(s) => match crate::b64::b64_decode(s.as_slice()) {
                Option::Some(b) => Result::Ok(Value::Bytes(b)),
                Option::None => Result::Err(WireError::Malformed),
            },
            _ => Result::Err(WireError::Malformed),
        }
    } else if crate::bytes_eq(name, crate::lit("string").as_slice()) {
        match j {
            Json::Str(s) => Result::Ok(Value::Text(crate::copy_bytes(s))),
            _ => Result::Err(WireError::Malformed),
        }
    } else if crate::bytes_eq(name, crate::lit("vector").as_slice()) {
        match &t.arg {
            Option::Some(ta) => match j {
                Json::Arr(elems) => {
                    let ghost ev = crate::json::arr_elems_view(elems@);
                    proof {
                        crate::json::lemma_arr_elems_view(elems@);
                        assert(ev.skip(0) =~= ev);
                        assert(decreases_to!(*j => *elems));
                        assert(decreases_to!(*elems => elems@));
                    }
                    let mut out: Vec<Value> = Vec::new();
                    let ghost mut acc = Seq::<ValueV>::empty();
                    let mut i: usize = 0;
                    while i < elems.len()
                        invariant
                            decreases_to!(*j => elems@),
                            i <= elems@.len(),
                            dv == defs.deep_view(),
                            gv == crate::grouper::groups_view(groups@),
                            crate::grouper::groups_ctors_in_range(gv, dv.len() as int),
                            dv.len() == defs@.len(),
                            ev.len() == elems@.len(),
                            forall|k: int| 0 <= k < elems@.len() ==> ev[k] == elems@[k]@,
                            acc == vals_view(out@),
                            spec_decode(dv, gv, t@, j@) == (match spec_decode_arr(
                                dv,
                                gv,
                                (**ta)@,
                                ev,
                            ) {
                                Result::Ok(vs) => Result::<ValueV, WireErrorV>::Ok(
                                    ValueV::Vector(vs),
                                ),
                                Result::Err(e) => Result::<ValueV, WireErrorV>::Err(e),
                            }),
                            match spec_decode_arr(dv, gv, (**ta)@, ev.skip(i as int)) {
                                Result::Ok(rest) => spec_decode_arr(dv, gv, (**ta)@, ev)
                                    == Result::<Seq<ValueV>, WireErrorV>::Ok(acc + rest),
                                Result::Err(e) => spec_decode_arr(dv, gv, (**ta)@, ev)
                                    == Result::<Seq<ValueV>, WireErrorV>::Err(e),
                            },
                        decreases elems@.len() - i,
                    {
                        proof {
                            assert(ev.skip(i as int)[0] == ev[i as int]);
                            assert(ev.skip(i as int).subrange(
                                1,
                                ev.skip(i as int).len() as int,
                            ) =~= ev.skip(i + 1));
                            assert(decreases_to!(elems@ => elems@[i as int]));
                        }
                        match decode(defs, groups, ta, &elems[i]) {
                            Result::Ok(v) => {
                                let ghost old_out = out@;
                                let ghost vv = v@;
                                out.push(v);
                                proof {
                                    lemma_vals_view(old_out);
                                    lemma_vals_view(out@);
                                    assert(vals_view(out@) =~= acc.push(vv));
                                    match spec_decode_arr(dv, gv, (**ta)@, ev.skip(i + 1)) {
                                        Result::Ok(rest) => {
                                            assert(acc + (seq![vv] + rest) =~= acc.push(vv)
                                                + rest);
                                        },
                                        Result::Err(_) => {},
                                    }
                                    acc = acc.push(vv);
                                }
                            },
                            Result::Err(e) => {
                                return Result::Err(e);
                            },
                        }
                        i = i + 1;
                    }
                    proof {
                        assert(ev.skip(i as int).len() == 0);
                        assert(acc + Seq::<ValueV>::empty() =~= acc);
                    }
                    Result::Ok(Value::Vector(out))
                },
                _ => Result::Err(WireError::Malformed),
            },
            Option::None => Result::Err(WireError::Malformed),
        }
    } else {
        decode_record(defs, groups, t, j)
    }
}


/// Decode an object against an abstract (record) type: the tag picks the
/// constructor, the fields follow in schema order.
fn decode_record(defs: &Vec<Definition>, groups: &Vec<VariantGroup>, t: &Ty, j: &Json) -> (r:
    Result<Value, WireError>)
    requires
        crate::grouper::groups_ctors_in_range(
            crate::grouper::groups_view(groups@),
            defs@.len() as int,
        ),
        !spec_is_builtin(t@.name()),
    ensures
        decode_result_view(r) == spec_decode(
            defs.deep_view(),
            crate::grouper::groups_view(groups@),
            t@,
            j@,
        ),
    decreases j, 0int,
{
    let ghost dv = defs.deep_view();
    let ghost gv = crate::grouper::groups_view(groups@);
    let entries = match j {
        Json::Obj(entries) => entries,
        _ => {
            return Result::Err(WireError::Malformed);
        },
    };
    let ghost ents = crate::json::obj_entries_view(entries@);
    proof {
        crate::json::lemma_obj_entries_view(entries@);
    }
    let tag: Vec<u8> = match crate::json::lookup(entries, crate::lit("@type").as_slice()) {
        Option::Some(Json::Str(s)) => crate::copy_bytes(s),
        Option::Some(_) => {
            return Result::Err(WireError::Malformed);
        },
        Option::None => {
            return Result::Err(WireError::Malformed);
        },
    };
    let gidx = crate::grouper::find_group(groups, t.name.as_slice());
    proof {
        assert forall|k: int| 0 <= k < gv.len() implies gv[k] == groups@[k]@ by {}
    }
    if gidx >= groups.len() {
        return Result::Err(WireError::UnrecognizedVariant(tag));
    }
    let g = &groups[gidx];
    proof {
        assert(g@ == gv[gidx as int]);
        assert forall|k: int| 0 <= k < g.ctors@.len() implies (g.ctors@[k] as int)
            < defs@.len() by {
            assert(g@.ctors[k] == g.ctors@[k] as int);
            assert(0 <= gv[gidx as int].ctors[k] < dv.len());
        }
    }
    let cidx = find_ctor(defs, g, tag.as_slice());
    if cidx >= g.ctors.len() {
        return Result::Err(WireError::UnrecognizedVariant(tag));
    }
    let shape_ok: bool = entries.len() >= 1 && crate::bytes_eq(
        entries[0].0.as_slice(),
        crate::lit("@type").as_slice(),
    ) && (match &entries[0].1 {
        Json::Str(s2) => crate::bytes_eq(s2.as_slice(), tag.as_slice()),
        _ => false,
    });
    if !shape_ok {
        proof {
            assert(!(ents.len() >= 1 && ents[0] == (spec_at_type(), JsonV::Str(tag@))));
        }
        return Result::Err(WireError::Malformed);
    }
    proof {
        assert(ents[0] == (spec_at_type(), JsonV::Str(tag@)));
    }
    let idx = g.ctors[cidx];
    proof {
        assert(g@.ctors[cidx as int] == idx as int);
        assert(0 <= gv[gidx as int].ctors[cidx as int] < dv.len());
    }
    let d = &defs[idx];
    let ghost pv = dv[idx as int].params;
    proof {
        assert(dv[idx as int] == defs@[idx as int]@);
        assert(pv.len() == d.params@.len());
        assert(ents.skip(1int) =~= ents.subrange(1, ents.len() as int));
        assert(pv.skip(0) =~= pv);
        assert(decreases_to!(*j => *entries));
        assert(decreases_to!(*entries => entries@));
    }
    let ghost whole = spec_decode(dv, gv, t@, j@);
    let mut fields: Vec<(Vec<u8>, Value)> = Vec::new();
    let ghost mut facc = Seq::<(Seq<u8>, ValueV)>::empty();
    let mut p: usize = 0;
    while p < d.params.len()
        invariant
            decreases_to!(*j => entries@),
            p <= d.params@.len(),
            dv == defs.deep_view(),
            gv == crate::grouper::groups_view(groups@),
            crate::grouper::groups_ctors_in_range(gv, dv.len() as int),
            dv.len() == defs@.len(),
            whole == spec_decode(dv, gv, t@, j@),
            p + 1 <= ents.len(),
            ents.len() == entries@.len(),
            forall|k: int| 0 <= k < entries@.len() ==> ents[k] == (entries@[k].0@, entries@[k].1@),
            idx < defs@.len(),
            d == defs@[idx as int],
            pv == dv[idx as int].params,
            pv.len() == d.params@.len(),
            forall|k: int| 0 <= k < pv.len() ==> pv[k] == d.params@[k]@,
            facc == fields_view(fields@),
            ents.len() >= 1,
            match spec_decode_fields(dv, gv, pv.skip(p as int), ents.skip(p + 1)) {
                Result::Ok(rest) => whole == Result::<ValueV, WireErrorV>::Ok(
                    ValueV::Record(tag@, facc + rest),
                ),
                Result::Err(e) => whole == Result::<ValueV, WireErrorV>::Err(e),
            },
        decreases d.params@.len() - p,
    {
        proof {
            assert(pv.skip(p as int)[0] == pv[p as int]);
            assert(pv.skip(p as int).skip(1) =~= pv.skip(p + 1));
        }
        if p + 1 >= entries.len() {
            proof {
                assert(ents.skip(p + 1).len() == 0);
            }
            return Result::Err(WireError::Malformed);
        }
        proof {
            assert(ents.skip(p + 1)[0] == ents[p + 1]);
            assert(ents.skip(p + 1).subrange(1, ents.skip(p + 1).len() as int) =~= ents.skip(
                p + 2,
            ));
        }
        if !crate::bytes_eq(entries[p + 1].0.as_slice(), d.params[p].name.as_slice()) {
            return Result::Err(WireError::Malformed);
        }
        proof {
            assert(decreases_to!(entries@ => entries@[p + 1]));
            assert(decreases_to!(entries@[p + 1] => entries@[p + 1].1));
        }
        match decode(defs, groups, &d.params[p].ty, &entries[p + 1].1) {
            Result::Ok(v) => {
                let ghost old_fields = fields@;
                let ghost vv = v@;
                let name = crate::copy_bytes(&d.params[p].name);
                fields.push((name, v));
                proof {
                    lemma_fields_view(old_fields);
                    lemma_fields_view(fields@);
                    assert(fields_view(fields@) =~= facc.push((pv[p as int].name, vv)));
                    match spec_decode_fields(dv, gv, pv.skip(p + 1), ents.skip(p + 2)) {
                        Result::Ok(rest) => {
                            assert(facc + (seq![(pv[p as int].name, vv)] + rest) =~= facc.push(
                                (pv[p as int].name, vv),
                            ) + rest);
                        },
                        Result::Err(_) => {},
                    }
                    facc = facc.push((pv[p as int].name, vv));
                }
            },
            Result::Err(e) => {
                return Result::Err(e);
            },
        }
        p = p + 1;
    }
    if p + 1 != entries.len() {
        proof {
            assert(pv.skip(p as int).len() == 0);
            assert(ents.skip(p + 1).len() != 0);
        }
        return Result::Err(WireError::Malformed);
    }
    proof {
        assert(pv.skip(p as int).len() == 0);
        assert(ents.skip(p + 1).len() == 0);
        assert(facc + Seq::<(Seq<u8>, ValueV)>::empty() =~= facc);
    }
    Result::Ok(Value::Record(tag, fields))
}

} // verus!
