//! The functions unit: one request record per RPC function.
//!
//! Every function-category definition becomes a record exactly like a
//! constructor's — same field rules, same wire-tag rule — plus a type
//! alias binding the request to its declared response type, so the
//! runtime collaborator can type what it hands back.  The generator
//! leaves the request envelope open: a correlation field can be attached
//! externally without touching the generated field set.

use vstd::prelude::*;
use crate::rustifier::{Collision, CollisionV, Resolver, ResolverV, Scope, resolver_wf};
use crate::str_bytes;
use crate::tl::{Category, DefV, Definition};
use crate::types::{spec_record_text, spec_ty_text, record_text, ty_text};

verus! {

/// The request records from definition `i` on, in schema order.
pub open spec fn spec_functions_from(defs: Seq<DefV>, i: int, r: ResolverV) -> Result<
    (Seq<u8>, ResolverV),
    CollisionV,
>
    decreases defs.len() - i,
{
    if i < 0 || i >= defs.len() {
        Result::Ok((Seq::empty(), r))
    } else if defs[i].category == Category::Functions {
        match spec_record_text(defs[i], r, Scope::Function) {
            Result::Ok((ident, txt, r1)) => match spec_functions_from(defs, i + 1, r1) {
                Result::Ok((rest, r2)) => Result::Ok(
                    (
                        txt + str_bytes("pub type ") + ident + str_bytes("Response = ")
                            + spec_ty_text(defs[i].result) + str_bytes(";\n") + rest,
                        r2,
                    ),
                ),
                Result::Err(c) => Result::Err(c),
            },
            Result::Err(c) => Result::Err(c),
        }
    } else {
        spec_functions_from(defs, i + 1, r)
    }
}

/// A stretch without functions emits nothing and issues nothing.
pub proof fn lemma_functions_from_skip(defs: Seq<DefV>, i: int, r: ResolverV)
    requires
        forall|k: int|
            i <= k < defs.len() ==> (#[trigger] defs[k]).category != Category::Functions,
    ensures
        spec_functions_from(defs, i, r) == Result::<(Seq<u8>, ResolverV), CollisionV>::Ok(
            (Seq::empty(), r),
        ),
    decreases defs.len() - i,
{
    if 0 <= i < defs.len() {
        lemma_functions_from_skip(defs, i + 1, r);
    }
}

/// The whole functions unit.
pub open spec fn spec_functions_mod(defs: Seq<DefV>, r: ResolverV) -> Result<
    (Seq<u8>, ResolverV),
    CollisionV,
> {
    match spec_functions_from(defs, 0, r) {
        Result::Ok((txt, r1)) => Result::Ok(
            (str_bytes("\npub mod functions {\n") + txt + str_bytes("}\n"), r1),
        ),
        Result::Err(c) => Result::Err(c),
    }
}

/// Emit the functions unit: one request record and response alias per
/// RPC function.
pub fn emit_functions_mod(defs: &Vec<Definition>, r: &mut Resolver) -> (out: Result<
    Vec<u8>,
    Collision,
>)
    ensures
        match out {
            Result::Ok(txt) => spec_functions_mod(defs.deep_view(), old(r)@) == Result::<
                (Seq<u8>, ResolverV),
                CollisionV,
            >::Ok((txt@, final(r)@)),
            Result::Err(c) => spec_functions_mod(defs.deep_view(), old(r)@) == Result::<
                (Seq<u8>, ResolverV),
                CollisionV,
            >::Err(c@),
        },
        resolver_wf(old(r)@) ==> resolver_wf(final(r)@),
{
    let ghost dv = defs.deep_view();
    let mut body: Vec<u8> = Vec::new();
    let mut i: usize = 0;
    while i < defs.len()
        invariant
            i <= defs@.len(),
            dv == defs.deep_view(),
            dv.len() == defs@.len(),
            forall|k: int| 0 <= k < dv.len() ==> dv[k] == defs@[k]@,
            resolver_wf(old(r)@) ==> resolver_wf(r@),
            match spec_functions_from(dv, i as int, r@) {
                Result::Ok((rest, rf)) => spec_functions_from(dv, 0, old(r)@) == Result::<
                    (Seq<u8>, ResolverV),
                    CollisionV,
                >::Ok((body@ + rest, rf)),
                Result::Err(c) => spec_functions_from(dv, 0, old(r)@) == Result::<
                    (Seq<u8>, ResolverV),
                    CollisionV,
                >::Err(c),
            },
        decreases defs@.len() - i,
    {
        let d = &defs[i];
        proof {
            assert(dv[i as int] == defs@[i as int]@);
        }
        let is_function = match d.category {
            Category::Functions => true,
            Category::Types => false,
        };
        let ghost body_entry = body@;
        if is_function {
            match record_text(d, r, Scope::Function) {
                Result::Ok(p) => {
                    crate::put_bytes(&mut body, p.1.as_slice());
                    crate::put(&mut body, "pub type ");
                    crate::put_bytes(&mut body, p.0.as_slice());
                    crate::put(&mut body, "Response = ");
                    let rt = ty_text(&d.result);
                    crate::put_bytes(&mut body, rt.as_slice());
                    crate::put(&mut body, ";\n");
                    proof {
                        let piece = p.1@ + str_bytes("pub type ") + p.0@ + str_bytes("Response = ")
                            + spec_ty_text(dv[i as int].result) + str_bytes(";\n");
                        assert(body@ =~= body_entry + piece);
                        match spec_functions_from(dv, i + 1, r@) {
                            Result::Ok((rest, rf)) => {
                                assert(body_entry + (piece + rest) =~= body@ + rest);
                            },
                            Result::Err(_) => {},
                        }
                    }
                },
                Result::Err(c) => {
                    return Result::Err(c);
                },
            }
        }
        i = i + 1;
    }
    proof {
        assert(body@ + Seq::<u8>::empty() =~= body@);
    }
    let mut out = crate::lit("\npub mod functions {\n");
    crate::put_bytes(&mut out, body.as_slice());
    crate::put(&mut out, "}\n");
    Result::Ok(out)
}

} // verus!
