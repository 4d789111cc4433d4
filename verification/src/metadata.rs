//! The metadata index over a definition list.
//!
//! Built once, read by every emitter: for each result-type name, the
//! ordered list of constructors producing it (schema order, never
//! re-sorted), and the no-emit marker for the special-cased scalar names.
//! A name with no constructors is not an error here — it only means no
//! enum is emitted for it.

use vstd::prelude::*;
use crate::grouper::{GroupV, VariantGroup, groups_view, spec_find_group, spec_groups};
use crate::str_bytes;
use crate::tl::{Category, DefV, Definition, ParamV, Ty, TyV};

verus! {

/// The first dangling name inside a type reference: a name that is not
/// special-cased, not `string` or `vector`, and has no constructors.
pub open spec fn spec_ty_dangle(gs: Seq<GroupV>, t: TyV) -> Option<Seq<u8>>
    decreases t,
{
    if crate::spec_is_special_name(t.name()) || t.name() == str_bytes("string") {
        Option::None
    } else if t.name() == str_bytes("vector") {
        match t.arg() {
            Option::Some(a) => spec_ty_dangle(gs, *a),
            Option::None => Option::None,
        }
    } else if spec_find_group(gs, t.name()) < gs.len() {
        Option::None
    } else {
        Option::Some(t.name())
    }
}

/// The first dangling name among a parameter list, from `j` on.
pub open spec fn spec_params_dangle(gs: Seq<GroupV>, params: Seq<ParamV>, j: int) -> Option<
    Seq<u8>,
>
    decreases params.len() - j,
{
    if j < 0 || j >= params.len() {
        Option::None
    } else {
        match spec_ty_dangle(gs, params[j].ty) {
            Option::Some(n) => Option::Some(n),
            Option::None => spec_params_dangle(gs, params, j + 1),
        }
    }
}

/// The first dangling name a definition holds: in its fields, and, for a
/// function, in its declared result type.
pub open spec fn spec_def_dangle(gs: Seq<GroupV>, d: DefV) -> Option<Seq<u8>> {
    match spec_params_dangle(gs, d.params, 0) {
        Option::Some(n) => Option::Some(n),
        Option::None => if d.category == Category::Functions {
            spec_ty_dangle(gs, d.result)
        } else {
            Option::None
        },
    }
}

/// The first schema inconsistency in the definition list: the offending
/// definition's name beside the dangling referenced name.
pub open spec fn spec_dangling(defs: Seq<DefV>, gs: Seq<GroupV>, i: int) -> Option<
    (Seq<u8>, Seq<u8>),
>
    decreases defs.len() - i,
{
    if i < 0 || i >= defs.len() {
        Option::None
    } else {
        match spec_def_dangle(gs, defs[i]) {
            Option::Some(n) => Option::Some((defs[i].name, n)),
            Option::None => spec_dangling(defs, gs, i + 1),
        }
    }
}

/// Find the first dangling name inside a type reference.
pub fn ty_dangle(groups: &Vec<VariantGroup>, t: &Ty) -> (r: Option<Vec<u8>>)
    ensures
        match r {
            Option::Some(n) => spec_ty_dangle(groups_view(groups@), t@) == Option::Some(n@),
            Option::None => spec_ty_dangle(groups_view(groups@), t@) is None,
        },
    decreases t,
{
    let name = t.name.as_slice();
    if crate::is_special_name(name) || crate::bytes_eq(name, crate::lit("string").as_slice()) {
        Option::None
    } else if crate::bytes_eq(name, crate::lit("vector").as_slice()) {
        match &t.arg {
            Option::Some(a) => ty_dangle(groups, a),
            Option::None => Option::None,
        }
    } else {
        let k = crate::grouper::find_group(groups, name);
        if k < groups.len() {
            Option::None
        } else {
            Option::Some(vstd::slice::slice_to_vec(name))
        }
    }
}

/// Find the first schema inconsistency: a field of any definition, or a
/// function's result, referencing a type with no constructors that is
/// not special-cased.
pub fn dangling(defs: &Vec<Definition>, groups: &Vec<VariantGroup>) -> (r: Option<
    (Vec<u8>, Vec<u8>),
>)
    ensures
        match r {
            Option::Some(p) => spec_dangling(defs.deep_view(), groups_view(groups@), 0)
                == Option::Some((p.0@, p.1@)),
            Option::None => spec_dangling(defs.deep_view(), groups_view(groups@), 0) is None,
        },
{
    let ghost dv = defs.deep_view();
    let ghost gv = groups_view(groups@);
    let mut i: usize = 0;
    while i < defs.len()
        invariant
            i <= defs@.len(),
            dv == defs.deep_view(),
            dv.len() == defs@.len(),
            forall|k: int| 0 <= k < dv.len() ==> dv[k] == defs@[k]@,
            gv == groups_view(groups@),
            spec_dangling(dv, gv, 0) == spec_dangling(dv, gv, i as int),
        decreases defs@.len() - i,
    {
        let d = &defs[i];
        proof {
            assert(dv[i as int] == defs@[i as int]@);
        }
        let ghost pv = dv[i as int].params;
        let mut j: usize = 0;
        let mut hit: Option<Vec<u8>> = Option::None;
        while j < d.params.len()
            invariant
                j <= d.params@.len(),
                gv == groups_view(groups@),
                d == defs@[i as int],
                i < defs@.len(),
                pv == dv[i as int].params,
                dv[i as int] == defs@[i as int]@,
                pv.len() == d.params@.len(),
                forall|k: int| 0 <= k < pv.len() ==> pv[k] == d.params@[k]@,
                match hit {
                    Option::Some(n) => spec_params_dangle(gv, pv, 0) == Option::Some(n@),
                    Option::None => spec_params_dangle(gv, pv, 0) == spec_params_dangle(
                        gv,
                        pv,
                        j as int,
                    ),
                },
                hit is Some ==> j == d.params@.len(),
            decreases d.params@.len() - j,
        {
            match ty_dangle(groups, &d.params[j].ty) {
                Option::Some(n) => {
                    hit = Option::Some(n);
                    proof {
                        assert(pv[j as int] == d.params@[j as int]@);
                    }
                    j = d.params.len();
                },
                Option::None => {
                    proof {
                        assert(pv[j as int] == d.params@[j as int]@);
                    }
                    j = j + 1;
                },
            }
        }
        let found: Option<Vec<u8>> = match hit {
            Option::Some(n) => Option::Some(n),
            Option::None => {
                let is_function = match d.category {
                    Category::Functions => true,
                    Category::Types => false,
                };
                if is_function {
                    ty_dangle(groups, &d.result)
                } else {
                    Option::None
                }
            },
        };
        match found {
            Option::Some(n) => {
                return Option::Some((vstd::slice::slice_to_vec(d.name.as_slice()), n));
            },
            Option::None => {},
        }
        i = i + 1;
    }
    Option::None
}

/// The per-run index: variant groups in first-appearance order.
pub struct Metadata {
    /// One group per result-type name with at least one constructor.
    pub groups: Vec<VariantGroup>,
}

impl Metadata {
    /// Index a definition list in a single pass.
    pub fn new(defs: &Vec<Definition>) -> (r: Metadata)
        ensures
            groups_view(r.groups@) == spec_groups(defs.deep_view()),
    {
        Metadata { groups: crate::grouper::group(defs) }
    }

    /// The constructor group of a result-type name, in schema order, or
    /// nothing when the name has no constructors.
    pub fn constructors_of(&self, name: &[u8]) -> (r: Option<&VariantGroup>)
        ensures
            match r {
                Option::Some(g) => spec_find_group(groups_view(self.groups@), name@)
                    < groups_view(self.groups@).len() && g@ == groups_view(self.groups@)[
                    spec_find_group(groups_view(self.groups@), name@)],
                Option::None => spec_find_group(groups_view(self.groups@), name@) >= groups_view(
                    self.groups@,
                ).len(),
            },
    {
        let k = crate::grouper::find_group(&self.groups, name);
        if k < self.groups.len() {
            proof {
                assert(groups_view(self.groups@)[k as int] == self.groups@[k as int]@);
            }
            Option::Some(&self.groups[k])
        } else {
            Option::None
        }
    }

    /// The no-emit marker: whether a result-type name is special-cased,
    /// so no record or enum is generated for it.
    pub fn is_no_emit(&self, name: &[u8]) -> (r: bool)
        ensures
            r == crate::spec_is_special_name(name@),
    {
        crate::is_special_name(name)
    }
}

} // verus!
