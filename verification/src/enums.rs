//! The enums unit: one discriminated union per abstract result type.
//!
//! Every variant group becomes one `pub enum` with one variant per
//! constructor, each wrapping that constructor's record from the types
//! unit; the variant name is the constructor's resolved identifier, so
//! the two always agree.  A group with a single constructor still gets a
//! one-variant enum: nothing is flattened away.

use vstd::prelude::*;
use crate::grouper::{GroupV, VariantGroup, groups_ctors_in_range, groups_view};
use crate::rustifier::{Collision, CollisionV, Resolver, ResolverV, Scope, spec_resolve, resolver_wf};
use crate::str_bytes;
use crate::tl::{DefV, Definition};

verus! {

/// The variant lines of one group from constructor `k` on.
pub open spec fn spec_variants_text(defs: Seq<DefV>, ctors: Seq<int>, k: int, r: ResolverV) -> Result<
    (Seq<u8>, ResolverV),
    CollisionV,
>
    decreases ctors.len() - k,
{
    if k < 0 || k >= ctors.len() {
        Result::Ok((Seq::empty(), r))
    } else {
        let d = defs[ctors[k]];
        let (r1, res) = spec_resolve(r, d.namespace, d.name, Scope::Variant);
        match res {
            Result::Ok(vid) => match spec_variants_text(defs, ctors, k + 1, r1) {
                Result::Ok((rest, r2)) => Result::Ok(
                    (
                        str_bytes("    ") + vid + str_bytes("(crate::types::") + vid + str_bytes(
                            "),\n",
                        ) + rest,
                        r2,
                    ),
                ),
                Result::Err(c) => Result::Err(c),
            },
            Result::Err(c) => Result::Err(c),
        }
    }
}

/// Emit the variant lines of one group.
pub fn variants_text(defs: &Vec<Definition>, g: &VariantGroup, r: &mut Resolver) -> (out: Result<
    Vec<u8>,
    Collision,
>)
    requires
        forall|k: int| 0 <= k < g.ctors@.len() ==> (g.ctors@[k] as int) < defs@.len(),
    ensures
        match out {
            Result::Ok(txt) => spec_variants_text(defs.deep_view(), g@.ctors, 0, old(r)@)
                == Result::<(Seq<u8>, ResolverV), CollisionV>::Ok((txt@, final(r)@)),
            Result::Err(c) => spec_variants_text(defs.deep_view(), g@.ctors, 0, old(r)@)
                == Result::<(Seq<u8>, ResolverV), CollisionV>::Err(c@),
        },
        resolver_wf(old(r)@) ==> resolver_wf(final(r)@),
{
    let ghost dv = defs.deep_view();
    let ghost cv = g@.ctors;
    let mut out: Vec<u8> = Vec::new();
    let mut k: usize = 0;
    while k < g.ctors.len()
        invariant
            k <= g.ctors@.len(),
            dv == defs.deep_view(),
            dv.len() == defs@.len(),
            forall|j: int| 0 <= j < dv.len() ==> dv[j] == defs@[j]@,
            cv == g@.ctors,
            cv.len() == g.ctors@.len(),
            forall|j: int| 0 <= j < cv.len() ==> cv[j] == g.ctors@[j] as int,
            forall|j: int| 0 <= j < cv.len() ==> 0 <= #[trigger] cv[j] < dv.len(),
            resolver_wf(old(r)@) ==> resolver_wf(r@),
            match spec_variants_text(dv, cv, k as int, r@) {
                Result::Ok((rest, rf)) => spec_variants_text(dv, cv, 0, old(r)@) == Result::<
                    (Seq<u8>, ResolverV),
                    CollisionV,
                >::Ok((out@ + rest, rf)),
                Result::Err(c) => spec_variants_text(dv, cv, 0, old(r)@) == Result::<
                    (Seq<u8>, ResolverV),
                    CollisionV,
                >::Err(c),
            },
        decreases g.ctors@.len() - k,
    {
        let idx = g.ctors[k];
        let d = &defs[idx];
        proof {
            assert(dv[idx as int] == defs@[idx as int]@);
        }
        let ghost out_entry = out@;
        let vid = match r.resolve(&d.namespace, d.name.as_slice(), Scope::Variant) {
            Result::Ok(vid) => vid,
            Result::Err(c) => {
                return Result::Err(c);
            },
        };
        crate::put(&mut out, "    ");
        crate::put_bytes(&mut out, vid.as_slice());
        crate::put(&mut out, "(crate::types::");
        crate::put_bytes(&mut out, vid.as_slice());
        crate::put(&mut out, "),\n");
        proof {
            let piece = str_bytes("    ") + vid@ + str_bytes("(crate::types::") + vid@ + str_bytes(
                "),\n",
            );
            assert(out@ =~= out_entry + piece);
            match spec_variants_text(dv, cv, k + 1, r@) {
                Result::Ok((rest, rf)) => {
                    assert(out_entry + (piece + rest) =~= out@ + rest);
                },
                Result::Err(_) => {},
            }
        }
        k = k + 1;
    }
    proof {
        assert(out@ + Seq::<u8>::empty() =~= out@);
    }
    Result::Ok(out)
}

/// The enums from group `i` on, in first-appearance order.
pub open spec fn spec_enums_from(defs: Seq<DefV>, gs: Seq<GroupV>, i: int, r: ResolverV) -> Result<
    (Seq<u8>, ResolverV),
    CollisionV,
>
    decreases gs.len() - i,
{
    if i < 0 || i >= gs.len() {
        Result::Ok((Seq::empty(), r))
    } else {
        let (r1, res) = spec_resolve(r, Seq::empty(), gs[i].name, Scope::Type);
        match res {
            Result::Ok(ident) => match spec_variants_text(defs, gs[i].ctors, 0, r1) {
                Result::Ok((vtxt, r2)) => match spec_enums_from(defs, gs, i + 1, r2) {
                    Result::Ok((rest, r3)) => Result::Ok(
                        (
                            str_bytes("\npub enum ") + ident + str_bytes(" {\n") + vtxt
                                + str_bytes("}\n") + rest,
                            r3,
                        ),
                    ),
                    Result::Err(c) => Result::Err(c),
                },
                Result::Err(c) => Result::Err(c),
            },
            Result::Err(c) => Result::Err(c),
        }
    }
}

/// No groups, no enums.
pub proof fn lemma_enums_from_empty(defs: Seq<DefV>, r: ResolverV)
    ensures
        spec_enums_from(defs, Seq::<GroupV>::empty(), 0, r) == Result::<
            (Seq<u8>, ResolverV),
            CollisionV,
        >::Ok((Seq::empty(), r)),
{
}

/// The whole enums unit.
pub open spec fn spec_enums_mod(defs: Seq<DefV>, gs: Seq<GroupV>, r: ResolverV) -> Result<
    (Seq<u8>, ResolverV),
    CollisionV,
> {
    match spec_enums_from(defs, gs, 0, r) {
        Result::Ok((txt, r1)) => Result::Ok(
            (str_bytes("\npub mod enums {\n") + txt + str_bytes("}\n"), r1),
        ),
        Result::Err(c) => Result::Err(c),
    }
}

/// Emit the enums unit: one union per variant group.
pub fn emit_enums_mod(defs: &Vec<Definition>, groups: &Vec<VariantGroup>, r: &mut Resolver) -> (out:
    Result<Vec<u8>, Collision>)
    requires
        groups_ctors_in_range(groups_view(groups@), defs@.len() as int),
    ensures
        match out {
            Result::Ok(txt) => spec_enums_mod(defs.deep_view(), groups_view(groups@), old(r)@)
                == Result::<(Seq<u8>, ResolverV), CollisionV>::Ok((txt@, final(r)@)),
            Result::Err(c) => spec_enums_mod(defs.deep_view(), groups_view(groups@), old(r)@)
                == Result::<(Seq<u8>, ResolverV), CollisionV>::Err(c@),
        },
        resolver_wf(old(r)@) ==> resolver_wf(final(r)@),
{
    let ghost dv = defs.deep_view();
    let ghost gv = groups_view(groups@);
    let empty_ns: Vec<Vec<u8>> = Vec::new();
    proof {
        assert(empty_ns.deep_view() =~= Seq::<Seq<u8>>::empty());
    }
    let mut body: Vec<u8> = Vec::new();
    let mut i: usize = 0;
    while i < groups.len()
        invariant
            i <= groups@.len(),
            dv == defs.deep_view(),
            dv.len() == defs@.len(),
            gv == groups_view(groups@),
            gv.len() == groups@.len(),
            forall|j: int| 0 <= j < gv.len() ==> gv[j] == groups@[j]@,
            groups_ctors_in_range(gv, dv.len() as int),
            empty_ns.deep_view() == Seq::<Seq<u8>>::empty(),
            resolver_wf(old(r)@) ==> resolver_wf(r@),
            match spec_enums_from(dv, gv, i as int, r@) {
                Result::Ok((rest, rf)) => spec_enums_from(dv, gv, 0, old(r)@) == Result::<
                    (Seq<u8>, ResolverV),
                    CollisionV,
                >::Ok((body@ + rest, rf)),
                Result::Err(c) => spec_enums_from(dv, gv, 0, old(r)@) == Result::<
                    (Seq<u8>, ResolverV),
                    CollisionV,
                >::Err(c),
            },
        decreases groups@.len() - i,
    {
        let g = &groups[i];
        proof {
            assert(g@ == gv[i as int]);
        }
        let ghost body_entry = body@;
        let ident = match r.resolve(&empty_ns, g.name.as_slice(), Scope::Type) {
            Result::Ok(ident) => ident,
            Result::Err(c) => {
                return Result::Err(c);
            },
        };
        proof {
            assert forall|k: int| 0 <= k < g.ctors@.len() implies (g.ctors@[k] as int)
                < defs@.len() by {
                assert(g@.ctors[k] == g.ctors@[k] as int);
                assert(0 <= gv[i as int].ctors[k] < dv.len());
            }
        }
        let vtxt = match variants_text(defs, g, r) {
            Result::Ok(vtxt) => vtxt,
            Result::Err(c) => {
                return Result::Err(c);
            },
        };
        crate::put(&mut body, "\npub enum ");
        crate::put_bytes(&mut body, ident.as_slice());
        crate::put(&mut body, " {\n");
        crate::put_bytes(&mut body, vtxt.as_slice());
        crate::put(&mut body, "}\n");
        proof {
            let piece = str_bytes("\npub enum ") + ident@ + str_bytes(" {\n") + vtxt@ + str_bytes(
                "}\n",
            );
            assert(body@ =~= body_entry + piece);
            match spec_enums_from(dv, gv, i + 1, r@) {
                Result::Ok((rest, rf)) => {
                    assert(body_entry + (piece + rest) =~= body@ + rest);
                },
                Result::Err(_) => {},
            }
        }
        i = i + 1;
    }
    proof {
        assert(body@ + Seq::<u8>::empty() =~= body@);
    }
    let mut out = crate::lit("\npub mod enums {\n");
    crate::put_bytes(&mut out, body.as_slice());
    crate::put(&mut out, "}\n");
    Result::Ok(out)
}

} // verus!
