//! The types unit: one record definition per constructor.
//!
//! Every grouped constructor becomes one `pub struct` with one public
//! field per schema parameter, preceded by a comment carrying the wire
//! tag: the constructor's exact schema name, untouched by identifier
//! casing.  Scalar parameter types map to native scalars, `vector<T>` to
//! `Vec<T>`, and abstract type references to the generated enums.

use vstd::prelude::*;
use crate::rustifier::{
    Collision, CollisionV, Resolver, ResolverV, Scope, spec_camel, spec_resolve, resolver_wf,
};
use crate::str_bytes;
use crate::tl::{Category, DefV, Definition, ParamV, Ty, TyV};

verus! {

/// The emitted text of a type reference.  References to generated
/// enums are rendered from the bare type name, matching the flat
/// abstract-type namespace the grouper keys on.
pub open spec fn spec_ty_text(t: TyV) -> Seq<u8>
    decreases t,
{
    if t.name() == str_bytes("Bool") {
        str_bytes("bool")
    } else if t.name() == str_bytes("Bytes") {
        str_bytes("Vec<u8>")
    } else if t.name() == str_bytes("Int32") {
        str_bytes("i32")
    } else if t.name() == str_bytes("Int53") {
        str_bytes("i64")
    } else if t.name() == str_bytes("Int64") {
        str_bytes("i64")
    } else if t.name() == str_bytes("string") {
        str_bytes("String")
    } else if t.name() == str_bytes("vector") {
        match t.arg() {
            Option::Some(a) => str_bytes("Vec<") + spec_ty_text(*a) + str_bytes(">"),
            Option::None => str_bytes("()"),
        }
    } else {
        str_bytes("crate::enums::") + spec_camel(t.name())
    }
}

/// Emit the text of a type reference.
pub fn ty_text(t: &Ty) -> (r: Vec<u8>)
    ensures
        r@ == spec_ty_text(t@),
    decreases t,
{
    let name = t.name.as_slice();
    if crate::bytes_eq(name, crate::lit("Bool").as_slice()) {
        crate::lit("bool")
    } else if crate::bytes_eq(name, crate::lit("Bytes").as_slice()) {
        crate::lit("Vec<u8>")
    } else if crate::bytes_eq(name, crate::lit("Int32").as_slice()) {
        crate::lit("i32")
    } else if crate::bytes_eq(name, crate::lit("Int53").as_slice()) {
        crate::lit("i64")
    } else if crate::bytes_eq(name, crate::lit("Int64").as_slice()) {
        crate::lit("i64")
    } else if crate::bytes_eq(name, crate::lit("string").as_slice()) {
        crate::lit("String")
    } else if crate::bytes_eq(name, crate::lit("vector").as_slice()) {
        match &t.arg {
            Option::Some(a) => {
                let mut out = crate::lit("Vec<");
                let mut inner = ty_text(a);
                out.append(&mut inner);
                let mut close = crate::lit(">");
                out.append(&mut close);
                proof {
                    assert(out@ =~= spec_ty_text(t@));
                }
                out
            },
            Option::None => crate::lit("()"),
        }
    } else {
        let mut out = crate::lit("crate::enums::");
        let mut id = crate::rustifier::camel(t.name.as_slice());
        out.append(&mut id);
        proof {
            assert(out@ =~= spec_ty_text(t@));
        }
        out
    }
}

/// The emitted field lines from parameter `i` on, threading the registry.
pub open spec fn spec_fields_text(params: Seq<ParamV>, i: int, r: ResolverV) -> Result<
    (Seq<u8>, ResolverV),
    CollisionV,
>
    decreases params.len() - i,
{
    if i < 0 || i >= params.len() {
        Result::Ok((Seq::empty(), r))
    } else {
        let (r1, res) = spec_resolve(r, Seq::empty(), params[i].name, Scope::Field);
        match res {
            Result::Ok(fid) => match spec_fields_text(params, i + 1, r1) {
                Result::Ok((rest, r2)) => Result::Ok(
                    (
                        str_bytes("    pub ") + fid + str_bytes(": ") + spec_ty_text(params[i].ty)
                            + str_bytes(",\n") + rest,
                        r2,
                    ),
                ),
                Result::Err(c) => Result::Err(c),
            },
            Result::Err(c) => Result::Err(c),
        }
    }
}

/// Emit the field lines of a record.
pub fn fields_text(params: &Vec<crate::tl::Parameter>, r: &mut Resolver) -> (out: Result<
    Vec<u8>,
    Collision,
>)
    ensures
        match out {
            Result::Ok(txt) => spec_fields_text(
                Seq::new(params@.len(), |k: int| params@[k]@),
                0,
                old(r)@,
            ) == Result::<(Seq<u8>, ResolverV), CollisionV>::Ok((txt@, final(r)@)),
            Result::Err(c) => spec_fields_text(
                Seq::new(params@.len(), |k: int| params@[k]@),
                0,
                old(r)@,
            ) == Result::<(Seq<u8>, ResolverV), CollisionV>::Err(c@),
        },
        resolver_wf(old(r)@) ==> resolver_wf(final(r)@),
{
    let ghost pv = Seq::new(params@.len(), |k: int| params@[k]@);
    let empty_ns: Vec<Vec<u8>> = Vec::new();
    proof {
        assert(empty_ns.deep_view() =~= Seq::<Seq<u8>>::empty());
    }
    let mut out: Vec<u8> = Vec::new();
    let mut i: usize = 0;
    while i < params.len()
        invariant
            i <= params@.len(),
            pv == Seq::new(params@.len(), |k: int| params@[k]@),
            pv.len() == params@.len(),
            empty_ns.deep_view() == Seq::<Seq<u8>>::empty(),
            resolver_wf(old(r)@) ==> resolver_wf(r@),
            match spec_fields_text(pv, i as int, r@) {
                Result::Ok((rest, rf)) => spec_fields_text(pv, 0, old(r)@) == Result::<
                    (Seq<u8>, ResolverV),
                    CollisionV,
                >::Ok((out@ + rest, rf)),
                Result::Err(c) => spec_fields_text(pv, 0, old(r)@) == Result::<
                    (Seq<u8>, ResolverV),
                    CollisionV,
                >::Err(c),
            },
        decreases params@.len() - i,
    {
        proof {
            assert(pv[i as int] == params@[i as int]@);
        }
        let ghost r_entry = r@;
        let ghost out_entry = out@;
        let fid = match r.resolve(&empty_ns, params[i].name.as_slice(), Scope::Field) {
            Result::Ok(fid) => fid,
            Result::Err(c) => {
                return Result::Err(c);
            },
        };
        crate::put(&mut out, "    pub ");
        crate::put_bytes(&mut out, fid.as_slice());
        crate::put(&mut out, ": ");
        let ty = ty_text(&params[i].ty);
        crate::put_bytes(&mut out, ty.as_slice());
        crate::put(&mut out, ",\n");
        proof {
            let piece = str_bytes("    pub ") + fid@ + str_bytes(": ") + spec_ty_text(
                pv[i as int].ty,
            ) + str_bytes(",\n");
            assert(out@ =~= out_entry + piece);
            match spec_fields_text(pv, i + 1, r@) {
                Result::Ok((rest, rf)) => {
                    assert(out_entry + (piece + rest) =~= out@ + rest);
                },
                Result::Err(_) => {},
            }
        }
        i = i + 1;
    }
    proof {
        assert(out@ + Seq::<u8>::empty() =~= out@);
    }
    Result::Ok(out)
}

/// The emitted record for one definition: a comment carrying the wire
/// tag — the full schema name, untouched by identifier casing — then the
/// `pub struct` with its fields.  Returns the resolved identifier too.
pub open spec fn spec_record_text(d: DefV, r: ResolverV, sc: Scope) -> Result<
    (Seq<u8>, Seq<u8>, ResolverV),
    CollisionV,
> {
    let (r1, res) = spec_resolve(r, d.namespace, d.name, sc);
    match res {
        Result::Ok(ident) => match spec_fields_text(d.params, 0, r1) {
            Result::Ok((ftxt, r2)) => Result::Ok(
                (
                    ident,
                    str_bytes("\n// Wire tag \"") + crate::spec_full_name(d.namespace, d.name)
                        + str_bytes("\".\npub struct ") + ident + str_bytes(" {\n") + ftxt
                        + str_bytes("}\n"),
                    r2,
                ),
            ),
            Result::Err(c) => Result::Err(c),
        },
        Result::Err(c) => Result::Err(c),
    }
}

/// Emit the record for one definition.
pub fn record_text(d: &Definition, r: &mut Resolver, sc: Scope) -> (out: Result<
    (Vec<u8>, Vec<u8>),
    Collision,
>)
    ensures
        match out {
            Result::Ok(p) => spec_record_text(d@, old(r)@, sc) == Result::<
                (Seq<u8>, Seq<u8>, ResolverV),
                CollisionV,
            >::Ok((p.0@, p.1@, final(r)@)),
            Result::Err(c) => spec_record_text(d@, old(r)@, sc) == Result::<
                (Seq<u8>, Seq<u8>, ResolverV),
                CollisionV,
            >::Err(c@),
        },
        resolver_wf(old(r)@) ==> resolver_wf(final(r)@),
{
    let ident = match r.resolve(&d.namespace, d.name.as_slice(), sc) {
        Result::Ok(ident) => ident,
        Result::Err(c) => {
            return Result::Err(c);
        },
    };
    let ftxt = match fields_text(&d.params, r) {
        Result::Ok(ftxt) => ftxt,
        Result::Err(c) => {
            return Result::Err(c);
        },
    };
    let mut out: Vec<u8> = Vec::new();
    crate::put(&mut out, "\n// Wire tag \"");
    let full = crate::full_name(&d.namespace, d.name.as_slice());
    crate::put_bytes(&mut out, full.as_slice());
    crate::put(&mut out, "\".\npub struct ");
    crate::put_bytes(&mut out, ident.as_slice());
    crate::put(&mut out, " {\n");
    crate::put_bytes(&mut out, ftxt.as_slice());
    crate::put(&mut out, "}\n");
    Result::Ok((ident, out))
}

/// The records of every grouped constructor from `i` on, in schema order.
pub open spec fn spec_types_from(defs: Seq<DefV>, i: int, r: ResolverV) -> Result<
    (Seq<u8>, ResolverV),
    CollisionV,
>
    decreases defs.len() - i,
{
    if i < 0 || i >= defs.len() {
        Result::Ok((Seq::empty(), r))
    } else if crate::grouper::spec_grouped(defs[i]) {
        match spec_record_text(defs[i], r, Scope::Variant) {
            Result::Ok((ident, txt, r1)) => match spec_types_from(defs, i + 1, r1) {
                Result::Ok((rest, r2)) => Result::Ok((txt + rest, r2)),
                Result::Err(c) => Result::Err(c),
            },
            Result::Err(c) => Result::Err(c),
        }
    } else {
        spec_types_from(defs, i + 1, r)
    }
}

/// A stretch with nothing grouped emits nothing and issues nothing.
pub proof fn lemma_types_from_skip(defs: Seq<DefV>, i: int, r: ResolverV)
    requires
        forall|k: int| i <= k < defs.len() ==> !crate::grouper::spec_grouped(#[trigger] defs[k]),
    ensures
        spec_types_from(defs, i, r) == Result::<(Seq<u8>, ResolverV), CollisionV>::Ok(
            (Seq::empty(), r),
        ),
    decreases defs.len() - i,
{
    if 0 <= i < defs.len() {
        lemma_types_from_skip(defs, i + 1, r);
    }
}

/// The whole types unit.
pub open spec fn spec_types_mod(defs: Seq<DefV>, r: ResolverV) -> Result<
    (Seq<u8>, ResolverV),
    CollisionV,
> {
    match spec_types_from(defs, 0, r) {
        Result::Ok((txt, r1)) => Result::Ok(
            (str_bytes("\npub mod types {\n") + txt + str_bytes("}\n"), r1),
        ),
        Result::Err(c) => Result::Err(c),
    }
}

/// Emit the types unit: one record per grouped constructor.
pub fn emit_types_mod(defs: &Vec<Definition>, r: &mut Resolver) -> (out: Result<Vec<u8>, Collision>)
    ensures
        match out {
            Result::Ok(txt) => spec_types_mod(defs.deep_view(), old(r)@) == Result::<
                (Seq<u8>, ResolverV),
                CollisionV,
            >::Ok((txt@, final(r)@)),
            Result::Err(c) => spec_types_mod(defs.deep_view(), old(r)@) == Result::<
                (Seq<u8>, ResolverV),
                CollisionV,
            >::Err(c@),
        },
        resolver_wf(old(r)@) ==> resolver_wf(final(r)@),
{
    let ghost dv = defs.deep_view();
    let mut body: Vec<u8> = Vec::new();
    let mut i: usize = 0;
    while i < defs.len()
        invariant
            i <= defs@.len(),
            dv == defs.deep_view(),
            dv.len() == defs@.len(),
            forall|k: int| 0 <= k < dv.len() ==> dv[k] == defs@[k]@,
            resolver_wf(old(r)@) ==> resolver_wf(r@),
            match spec_types_from(dv, i as int, r@) {
                Result::Ok((rest, rf)) => spec_types_from(dv, 0, old(r)@) == Result::<
                    (Seq<u8>, ResolverV),
                    CollisionV,
                >::Ok((body@ + rest, rf)),
                Result::Err(c) => spec_types_from(dv, 0, old(r)@) == Result::<
                    (Seq<u8>, ResolverV),
                    CollisionV,
                >::Err(c),
            },
        decreases defs@.len() - i,
    {
        let d = &defs[i];
        let eligible = match d.category {
            Category::Types => !crate::ignore_type(&d.result),
            Category::Functions => false,
        };
        proof {
            assert(dv[i as int] == defs@[i as int]@);
            assert(eligible == crate::grouper::spec_grouped(dv[i as int]));
        }
        let ghost body_entry = body@;
        if eligible {
            match record_text(d, r, Scope::Variant) {
                Result::Ok(p) => {
                    crate::put_bytes(&mut body, p.1.as_slice());
                    proof {
                        match spec_types_from(dv, i + 1, r@) {
                            Result::Ok((rest, rf)) => {
                                assert(body_entry + (p.1@ + rest) =~= body@ + rest);
                            },
                            Result::Err(_) => {},
                        }
                    }
                },
                Result::Err(c) => {
                    return Result::Err(c);
                },
            }
        }
        i = i + 1;
    }
    proof {
        assert(body@ + Seq::<u8>::empty() =~= body@);
    }
    let mut out = crate::lit("\npub mod types {\n");
    crate::put_bytes(&mut out, body.as_slice());
    crate::put(&mut out, "}\n");
    Result::Ok(out)
}

} // verus!
