//! Code generator for TDLib's Type-Language (TL) schemas.
//!
//! A parsed TL schema is an ordered list of [`tl::Definition`]s.  The
//! generator turns that list into Rust source text: one record per
//! constructor, one discriminated union per abstract result type, and one
//! request record per RPC function.  The values of those generated types
//! travel over a JSON wire protocol whose encoding rules are modelled and
//! proved in [`codec`].

use vstd::prelude::*;
use vstd::string::StringSliceAdditionalSpecFns;

pub mod b64;
pub mod client;
pub mod enums;
pub mod functions;
pub mod codec;
pub mod grouper;
pub mod json;
pub mod metadata;
pub mod num;
pub mod rustifier;
pub mod tl;
pub mod types;

pub use client::{create_client, set_log_message_callback};

verus! {

/// The bytes of a string slice.
pub open spec fn str_bytes(s: &str) -> Seq<u8> {
    s.spec_bytes()
}

/// Copy the bytes of a string into an owned buffer.
pub fn lit(s: &str) -> (r: Vec<u8>)
    ensures
        r@ == str_bytes(s),
{
    vstd::slice::slice_to_vec(s.as_bytes())
}

/// Result types that are never emitted as records or enums: they map
/// directly to native scalars, each with its own wire encoding.
pub open spec fn spec_is_special_name(name: Seq<u8>) -> bool {
    ||| name == str_bytes("Bool")
    ||| name == str_bytes("Bytes")
    ||| name == str_bytes("Int32")
    ||| name == str_bytes("Int53")
    ||| name == str_bytes("Int64")
}

/// The exact bytes of the names the wire rules dispatch on.  Spelling
/// them out once lets every later proof tell the names apart.
pub proof fn lemma_wire_names()
    ensures
        str_bytes("Bool") == seq![66u8, 111u8, 111u8, 108u8],
        str_bytes("Bytes") == seq![66u8, 121u8, 116u8, 101u8, 115u8],
        str_bytes("Int32") == seq![73u8, 110u8, 116u8, 51u8, 50u8],
        str_bytes("Int53") == seq![73u8, 110u8, 116u8, 53u8, 51u8],
        str_bytes("Int64") == seq![73u8, 110u8, 116u8, 54u8, 52u8],
        str_bytes("string") == seq![115u8, 116u8, 114u8, 105u8, 110u8, 103u8],
        str_bytes("vector") == seq![118u8, 101u8, 99u8, 116u8, 111u8, 114u8],
        str_bytes("@type") == seq![64u8, 116u8, 121u8, 112u8, 101u8],
{
    reveal_strlit("Bool");
    reveal_strlit("Bytes");
    reveal_strlit("Int32");
    reveal_strlit("Int53");
    reveal_strlit("Int64");
    reveal_strlit("string");
    reveal_strlit("vector");
    reveal_strlit("@type");
    assert(vstd::utf8::is_ascii_chars("Bool"@));
    vstd::utf8::is_ascii_chars_encode_utf8("Bool"@);
    assert(str_bytes("Bool") =~= seq![66u8, 111u8, 111u8, 108u8]);
    assert(vstd::utf8::is_ascii_chars("Bytes"@));
    vstd::utf8::is_ascii_chars_encode_utf8("Bytes"@);
    assert(str_bytes("Bytes") =~= seq![66u8, 121u8, 116u8, 101u8, 115u8]);
    assert(vstd::utf8::is_ascii_chars("Int32"@));
    vstd::utf8::is_ascii_chars_encode_utf8("Int32"@);
    assert(str_bytes("Int32") =~= seq![73u8, 110u8, 116u8, 51u8, 50u8]);
    assert(vstd::utf8::is_ascii_chars("Int53"@));
    vstd::utf8::is_ascii_chars_encode_utf8("Int53"@);
    assert(str_bytes("Int53") =~= seq![73u8, 110u8, 116u8, 53u8, 51u8]);
    assert(vstd::utf8::is_ascii_chars("Int64"@));
    vstd::utf8::is_ascii_chars_encode_utf8("Int64"@);
    assert(str_bytes("Int64") =~= seq![73u8, 110u8, 116u8, 54u8, 52u8]);
    assert(vstd::utf8::is_ascii_chars("string"@));
    vstd::utf8::is_ascii_chars_encode_utf8("string"@);
    assert(str_bytes("string") =~= seq![115u8, 116u8, 114u8, 105u8, 110u8, 103u8]);
    assert(vstd::utf8::is_ascii_chars("vector"@));
    vstd::utf8::is_ascii_chars_encode_utf8("vector"@);
    assert(str_bytes("vector") =~= seq![118u8, 101u8, 99u8, 116u8, 111u8, 114u8]);
    assert(vstd::utf8::is_ascii_chars("@type"@));
    vstd::utf8::is_ascii_chars_encode_utf8("@type"@);
    assert(str_bytes("@type") =~= seq![64u8, 116u8, 121u8, 112u8, 101u8]);
}

/// Copy a byte string into an owned buffer.
pub fn copy_bytes(v: &Vec<u8>) -> (r: Vec<u8>)
    ensures
        r@ == v@,
{
    vstd::slice::slice_to_vec(v.as_slice())
}

/// Append the bytes of a string to a buffer.
pub fn put(out: &mut Vec<u8>, s: &str)
    ensures
        final(out)@ == old(out)@ + str_bytes(s),
{
    let mut piece = lit(s);
    out.append(&mut piece);
}

/// Append bytes to a buffer.
pub fn put_bytes(out: &mut Vec<u8>, b: &[u8])
    ensures
        final(out)@ == old(out)@ + b@,
{
    let mut piece = vstd::slice::slice_to_vec(b);
    out.append(&mut piece);
}

/// Compare two byte strings.
pub fn bytes_eq(a: &[u8], b: &[u8]) -> (r: bool)
    ensures
        r == (a@ == b@),
{
    if a.len() != b.len() {
        assert(a@ != b@);
        return false;
    }
    let mut i: usize = 0;
    while i < a.len()
        invariant
            i <= a.len(),
            a@.len() == b@.len(),
            forall|k: int| 0 <= k < i ==> a@[k] == b@[k],
        decreases a@.len() - i,
    {
        if a[i] != b[i] {
            assert(a@ != b@);
            return false;
        }
        i = i + 1;
    }
    assert(a@ =~= b@);
    true
}

/// The full schema name: namespace segments joined by the namespace
/// separator, then the bare name.  This is the name spec terms the
/// schema name, and the wire tag of a constructor.
pub open spec fn spec_full_from(ns: Seq<Seq<u8>>, i: int, name: Seq<u8>) -> Seq<u8>
    decreases ns.len() - i,
{
    if i < 0 || i >= ns.len() {
        name
    } else {
        ns[i] + seq![46u8] + spec_full_from(ns, i + 1, name)
    }
}

/// The full schema name of a namespaced name.
pub open spec fn spec_full_name(ns: Seq<Seq<u8>>, name: Seq<u8>) -> Seq<u8> {
    spec_full_from(ns, 0, name)
}

/// Join a namespace path and a bare name into the full schema name.
pub fn full_name(ns: &Vec<Vec<u8>>, name: &[u8]) -> (r: Vec<u8>)
    ensures
        r@ == spec_full_name(ns.deep_view(), name@),
{
    let ghost nv = ns.deep_view();
    let mut out: Vec<u8> = Vec::new();
    let mut i: usize = 0;
    while i < ns.len()
        invariant
            i <= ns@.len(),
            nv == ns.deep_view(),
            nv.len() == ns@.len(),
            forall|k: int| 0 <= k < ns@.len() ==> nv[k] == ns@[k]@,
            spec_full_name(nv, name@) == out@ + spec_full_from(nv, i as int, name@),
        decreases ns@.len() - i,
    {
        let ghost before = out@;
        let mut seg = copy_bytes(&ns[i]);
        out.append(&mut seg);
        out.push(46);
        proof {
            assert(out@ =~= before + nv[i as int] + seq![46u8]);
            assert(before + (nv[i as int] + seq![46u8] + spec_full_from(nv, i + 1, name@)) =~= out@
                + spec_full_from(nv, i + 1, name@));
        }
        i = i + 1;
    }
    let ghost before = out@;
    put_bytes(&mut out, name);
    proof {
        assert(spec_full_name(nv, name@) =~= out@);
    }
    out
}

/// Whether `name` is one of the five special-cased scalar result types,
/// for which no record or enum is ever generated.
pub fn is_special_name(name: &[u8]) -> (r: bool)
    ensures
        r == spec_is_special_name(name@),
{
    ||| bytes_eq(name, lit("Bool").as_slice())
    ||| bytes_eq(name, lit("Bytes").as_slice())
    ||| bytes_eq(name, lit("Int32").as_slice())
    ||| bytes_eq(name, lit("Int53").as_slice())
    ||| bytes_eq(name, lit("Int64").as_slice())
}

/// Whether `ty` names a special-cased scalar result type.
pub fn ignore_type(ty: &tl::Ty) -> (r: bool)
    ensures
        r == spec_is_special_name(ty.name@),
{
    is_special_name(ty.name.as_slice())
}

/// The fixed license header reproduced verbatim at the top of the
/// generated output.
pub open spec fn spec_header() -> Seq<u8> {
    str_bytes(
        "// Copyright 2021 - developers of the `tdgrand` project.\n// Copyright 2020 - developers of the `grammers` project.\n//\n// Licensed under the Apache License, Version 2.0 <LICENSE-APACHE or\n// https://www.apache.org/licenses/LICENSE-2.0> or the MIT license\n// <LICENSE-MIT or https://opensource.org/licenses/MIT>, at your\n// option. This file may not be copied, modified, or distributed\n// except according to those terms.\n",
    )
}

/// The license header as owned bytes.
pub fn header_text() -> (r: Vec<u8>)
    ensures
        r@ == spec_header(),
{
    lit(
        "// Copyright 2021 - developers of the `tdgrand` project.\n// Copyright 2020 - developers of the `grammers` project.\n//\n// Licensed under the Apache License, Version 2.0 <LICENSE-APACHE or\n// https://www.apache.org/licenses/LICENSE-2.0> or the MIT license\n// <LICENSE-MIT or https://opensource.org/licenses/MIT>, at your\n// option. This file may not be copied, modified, or distributed\n// except according to those terms.\n",
    )
}

/// Why a generation run failed.
#[derive(Debug)]
pub enum GenError {
    /// Two schema names demand one identifier even after disambiguation.
    Collision(rustifier::Collision),
    /// A field, or a function's result, references a type with no
    /// constructors that is not special-cased; the emitter has no
    /// placeholder for it, so the whole run fails rather than emit a
    /// partially-typed artifact.  Carries the offending definition's
    /// name, then the dangling referenced name.
    Dangling(Vec<u8>, Vec<u8>),
}

/// Abstract form of a generation failure.
pub enum GenErrorV {
    Collision(rustifier::CollisionV),
    Dangling(Seq<u8>, Seq<u8>),
}

impl View for GenError {
    type V = GenErrorV;

    open spec fn view(&self) -> GenErrorV {
        match self {
            GenError::Collision(c) => GenErrorV::Collision(c@),
            GenError::Dangling(d, n) => GenErrorV::Dangling(d@, n@),
        }
    }
}

/// The three units, each led by the license header, threading one
/// identifier registry through all three.
pub open spec fn spec_units(dv: Seq<tl::DefV>) -> Result<Seq<u8>, rustifier::CollisionV> {
    match types::spec_types_mod(dv, rustifier::spec_empty_resolver()) {
        Result::Ok((t, r1)) => match enums::spec_enums_mod(dv, grouper::spec_groups(dv), r1) {
            Result::Ok((e, r2)) => match functions::spec_functions_mod(dv, r2) {
                Result::Ok((f, r3)) => Result::Ok(
                    spec_header() + t + spec_header() + e + spec_header() + f,
                ),
                Result::Err(c) => Result::Err(c),
            },
            Result::Err(c) => Result::Err(c),
        },
        Result::Err(c) => Result::Err(c),
    }
}

/// The whole generated artifact: the three units in dependency order.
/// The first schema inconsistency or unresolvable collision aborts the
/// run.
pub open spec fn spec_generate(dv: Seq<tl::DefV>) -> Result<Seq<u8>, GenErrorV> {
    match metadata::spec_dangling(dv, grouper::spec_groups(dv), 0) {
        Option::Some((dn, rn)) => Result::Err(GenErrorV::Dangling(dn, rn)),
        Option::None => match spec_units(dv) {
            Result::Ok(txt) => Result::Ok(txt),
            Result::Err(c) => Result::Err(GenErrorV::Collision(c)),
        },
    }
}

/// Emit the three units, each led by the license header.
#[verifier::rlimit(100)]
fn emit_units(defs: &Vec<tl::Definition>, groups: &Vec<grouper::VariantGroup>) -> (out: Result<
    Vec<u8>,
    rustifier::Collision,
>)
    requires
        grouper::groups_view(groups@) == grouper::spec_groups(defs.deep_view()),
        grouper::groups_ctors_in_range(grouper::groups_view(groups@), defs@.len() as int),
    ensures
        match out {
            Result::Ok(txt) => spec_units(defs.deep_view()) == Result::<
                Seq<u8>,
                rustifier::CollisionV,
            >::Ok(txt@),
            Result::Err(c) => spec_units(defs.deep_view()) == Result::<
                Seq<u8>,
                rustifier::CollisionV,
            >::Err(c@),
        },
{
    let ghost dv = defs.deep_view();
    let mut r = rustifier::Resolver::new();
    let mut out = header_text();
    let t = match types::emit_types_mod(defs, &mut r) {
        Result::Ok(t) => t,
        Result::Err(c) => {
            return Result::Err(c);
        },
    };
    let e = match enums::emit_enums_mod(defs, groups, &mut r) {
        Result::Ok(e) => e,
        Result::Err(c) => {
            return Result::Err(c);
        },
    };
    let f = match functions::emit_functions_mod(defs, &mut r) {
        Result::Ok(f) => f,
        Result::Err(c) => {
            return Result::Err(c);
        },
    };
    put_bytes(&mut out, t.as_slice());
    let mut header2 = header_text();
    out.append(&mut header2);
    put_bytes(&mut out, e.as_slice());
    let mut header3 = header_text();
    out.append(&mut header3);
    put_bytes(&mut out, f.as_slice());
    proof {
        assert(out@ =~= spec_header() + t@ + spec_header() + e@ + spec_header() + f@);
    }
    Result::Ok(out)
}

/// Generate the target-language source for a parsed schema: the types,
/// enums and functions units, in that dependency order, each preceded by
/// the license header.
///
/// A result type with no constructors that is not special-cased — even
/// one referenced only as a function's result — fails the run with a
/// [`GenError::Dangling`] diagnostic rather than emit a partially-typed
/// artifact: the emitters have no placeholder for such a reference.
pub fn generate_rust_code(defs: &Vec<tl::Definition>) -> (out: Result<Vec<u8>, GenError>)
    ensures
        match out {
            Result::Ok(txt) => spec_generate(defs.deep_view()) == Result::<Seq<u8>, GenErrorV>::Ok(
                txt@,
            ),
            Result::Err(c) => spec_generate(defs.deep_view()) == Result::<
                Seq<u8>,
                GenErrorV,
            >::Err(c@),
        },
{
    let ghost dv = defs.deep_view();
    let groups = grouper::group(defs);
    proof {
        grouper::lemma_groups_in_range(dv, dv.len() as int);
    }
    match metadata::dangling(defs, &groups) {
        Option::Some(p) => {
            return Result::Err(GenError::Dangling(p.0, p.1));
        },
        Option::None => {},
    }
    match emit_units(defs, &groups) {
        Result::Ok(txt) => Result::Ok(txt),
        Result::Err(c) => Result::Err(GenError::Collision(c)),
    }
}

/// Parameters naming only special-cased scalars never dangle.
proof fn lemma_special_params_not_dangle(gs: Seq<grouper::GroupV>, params: Seq<tl::ParamV>, j: int)
    requires
        0 <= j,
        forall|n: int|
            0 <= n < params.len() ==> spec_is_special_name((#[trigger] params[n]).ty.name()),
    ensures
        metadata::spec_params_dangle(gs, params, j) is None,
    decreases params.len() - j,
{
    if j < params.len() {
        lemma_special_params_not_dangle(gs, params, j + 1);
    }
}

/// No-emit gate for the special-cased names: nothing dangles in a
/// schema whose references all carry special-cased names.
proof fn lemma_no_emit_not_dangling(defs: Seq<tl::DefV>, gs: Seq<grouper::GroupV>, i: int)
    requires
        0 <= i,
        forall|k: int|
            0 <= k < defs.len() ==> (#[trigger] defs[k]).category == tl::Category::Types,
        forall|k: int, n: int|
            0 <= k < defs.len() && 0 <= n < defs[k].params.len() ==> spec_is_special_name(
                ((#[trigger] defs[k].params[n])).ty.name(),
            ),
    ensures
        metadata::spec_dangling(defs, gs, i) is None,
    decreases defs.len() - i,
{
    if i < defs.len() {
        lemma_special_params_not_dangle(gs, defs[i].params, 0);
        lemma_no_emit_not_dangling(defs, gs, i + 1);
    }
}

} // verus!
