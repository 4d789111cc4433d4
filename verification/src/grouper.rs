//! Partitioning constructors into variant groups.
//!
//! Every `Type`-category definition whose result type is not special-cased
//! belongs to exactly one group, the group of its result-type name.  Groups
//! appear in the order their result-type name first appears in the schema,
//! and constructors inside a group keep schema order.
//!
//! Groups key on the bare result-type name: abstract type names are
//! treated as one flat namespace, as TDLib's schema spells them.  Two
//! result types alike in name but in different namespaces would share a
//! group; constructor names, by contrast, are kept apart by their full
//! namespaced names throughout resolution and wire dispatch.

use vstd::prelude::*;
use crate::spec_is_special_name;
use crate::tl::{Category, DefV, Definition};

verus! {

/// The constructors of one abstract result type, as indices into the
/// definition list, in schema order.
pub struct VariantGroup {
    /// The result-type name the group belongs to.
    pub name: Vec<u8>,
    /// Indices of the group's constructors in the definition list.
    pub ctors: Vec<usize>,
}

/// Abstract form of a variant group.
pub struct GroupV {
    pub name: Seq<u8>,
    pub ctors: Seq<int>,
}

impl View for VariantGroup {
    type V = GroupV;

    open spec fn view(&self) -> GroupV {
        GroupV {
            name: self.name@,
            ctors: Seq::new(self.ctors@.len(), |i: int| self.ctors@[i] as int),
        }
    }
}

/// Abstract form of a group list.
pub open spec fn groups_view(gs: Seq<VariantGroup>) -> Seq<GroupV> {
    Seq::new(gs.len(), |i: int| gs[i]@)
}

/// Whether a definition is grouped: a constructor whose result type is not
/// special-cased.
pub open spec fn spec_grouped(d: DefV) -> bool {
    d.category == Category::Types && !spec_is_special_name(d.result.name())
}

/// The first group with the given name, or the length of the list.
pub open spec fn spec_find_group(gs: Seq<GroupV>, name: Seq<u8>) -> int
    decreases gs.len(),
{
    if gs.len() == 0 {
        0
    } else if gs[0].name == name {
        0
    } else {
        1 + spec_find_group(gs.skip(1), name)
    }
}

/// The groups of the first `i` definitions, in first-appearance order.
pub open spec fn spec_groups_upto(defs: Seq<DefV>, i: int) -> Seq<GroupV>
    decreases i,
{
    if i <= 0 {
        Seq::empty()
    } else {
        let gs = spec_groups_upto(defs, i - 1);
        let d = defs[i - 1];
        if spec_grouped(d) {
            let k = spec_find_group(gs, d.result.name());
            if k < gs.len() {
                gs.update(k, GroupV { name: gs[k].name, ctors: gs[k].ctors.push(i - 1) })
            } else {
                gs.push(GroupV { name: d.result.name(), ctors: seq![i - 1] })
            }
        } else {
            gs
        }
    }
}

/// A definition list with nothing grouped has no groups.
pub proof fn lemma_groups_upto_empty(defs: Seq<DefV>, i: int)
    requires
        forall|k: int| 0 <= k < i ==> !spec_grouped(#[trigger] defs[k]),
    ensures
        spec_groups_upto(defs, i) == Seq::<GroupV>::empty(),
    decreases i,
{
    if i > 0 {
        lemma_groups_upto_empty(defs, i - 1);
    }
}

/// The variant groups of a definition list.
pub open spec fn spec_groups(defs: Seq<DefV>) -> Seq<GroupV> {
    spec_groups_upto(defs, defs.len() as int)
}

/// Find the first group carrying `name`.
pub fn find_group(gs: &Vec<VariantGroup>, name: &[u8]) -> (r: usize)
    ensures
        r as int == spec_find_group(groups_view(gs@), name@),
        r <= gs@.len(),
{
    let ghost gv = groups_view(gs@);
    proof {
        assert(gv.skip(0) =~= gv);
    }
    let mut i: usize = 0;
    while i < gs.len()
        invariant
            i <= gs@.len(),
            gv == groups_view(gs@),
            spec_find_group(gv, name@) == i + spec_find_group(gv.skip(i as int), name@),
            forall|k: int| 0 <= k < i ==> gv[k].name != name@,
        decreases gs@.len() - i,
    {
        proof {
            assert(gv.skip(i as int)[0] == gv[i as int]);
        }
        if crate::bytes_eq(gs[i].name.as_slice(), name) {
            proof {
                lemma_find_group_prefix(gv, name@, i as int);
            }
            return i;
        }
        proof {
            assert(gv.skip(i as int).skip(1) =~= gv.skip(i + 1));
        }
        i = i + 1;
    }
    proof {
        assert(gv.skip(i as int).len() == 0);
    }
    i
}

/// A search that stops at `i` returns `i`.
proof fn lemma_find_group_prefix(gs: Seq<GroupV>, name: Seq<u8>, i: int)
    requires
        0 <= i < gs.len(),
        forall|k: int| 0 <= k < i ==> gs[k].name != name,
        gs[i].name == name,
    ensures
        spec_find_group(gs, name) == i,
    decreases i,
{
    if i > 0 {
        lemma_find_group_prefix(gs.skip(1), name, i - 1);
    }
}

/// Group the definition list: the canonical variant groups, in schema
/// first-appearance order, constructors in schema order.
pub fn group(defs: &Vec<Definition>) -> (r: Vec<VariantGroup>)
    ensures
        groups_view(r@) == spec_groups(defs.deep_view()),
{
    let ghost dv = defs.deep_view();
    let mut gs: Vec<VariantGroup> = Vec::new();
    let mut i: usize = 0;
    while i < defs.len()
        invariant
            i <= defs@.len(),
            dv == defs.deep_view(),
            dv.len() == defs@.len(),
            forall|k: int| 0 <= k < dv.len() ==> dv[k] == defs@[k]@,
            groups_view(gs@) == spec_groups_upto(dv, i as int),
        decreases defs@.len() - i,
    {
        let d = &defs[i];
        let eligible = match d.category {
            Category::Types => !crate::ignore_type(&d.result),
            Category::Functions => false,
        };
        proof {
            assert(dv[i as int] == defs@[i as int]@);
            assert(eligible == spec_grouped(dv[i as int]));
        }
        if eligible {
            let k = find_group(&gs, d.result.name.as_slice());
            if k < gs.len() {
                let ghost old_gs = groups_view(gs@);
                let mut g = gs.remove(k);
                g.ctors.push(i);
                gs.insert(k, g);
                proof {
                    assert(groups_view(gs@)[k as int].ctors =~= old_gs[k as int].ctors.push(
                        i as int,
                    ));
                    assert(groups_view(gs@) =~~= old_gs.update(
                        k as int,
                        GroupV {
                            name: old_gs[k as int].name,
                            ctors: old_gs[k as int].ctors.push(i as int),
                        },
                    ));
                }
            } else {
                let ghost old_gs = groups_view(gs@);
                let mut ctors: Vec<usize> = Vec::new();
                ctors.push(i);
                let name = vstd::slice::slice_to_vec(d.result.name.as_slice());
                gs.push(VariantGroup { name, ctors });
                proof {
                    let last = gs@.len() - 1;
                    assert(gs@[last]@.name == dv[i as int].result.name());
                    assert(gs@[last]@.ctors =~= seq![i as int]);
                    assert(groups_view(gs@) =~~= old_gs.push(
                        GroupV { name: dv[i as int].result.name(), ctors: seq![i as int] },
                    ));
                }
            }
        }
        proof {
            assert(groups_view(gs@) =~~= spec_groups_upto(dv, i + 1));
        }
        i = i + 1;
    }
    proof {
        assert(groups_view(gs@) =~~= spec_groups(dv));
    }
    gs
}


/// Every constructor index in the groups lies below `n`.
pub open spec fn groups_ctors_in_range(gs: Seq<GroupV>, n: int) -> bool {
    forall|g: int, k: int|
        0 <= g < gs.len() && 0 <= k < gs[g].ctors.len() ==> 0 <= #[trigger] gs[g].ctors[k] < n
}

/// A group search never returns a negative index.
pub proof fn lemma_find_group_nonneg(gs: Seq<GroupV>, name: Seq<u8>)
    ensures
        spec_find_group(gs, name) >= 0,
    decreases gs.len(),
{
    if gs.len() > 0 && gs[0].name != name {
        lemma_find_group_nonneg(gs.skip(1), name);
    }
}

/// The groups of a definition list only index into that list.
pub proof fn lemma_groups_in_range(defs: Seq<DefV>, i: int)
    requires
        0 <= i <= defs.len(),
    ensures
        groups_ctors_in_range(spec_groups_upto(defs, i), defs.len() as int),
    decreases i,
{
    if i > 0 {
        lemma_groups_in_range(defs, i - 1);
        let gs = spec_groups_upto(defs, i - 1);
        let new = spec_groups_upto(defs, i);
        let d = defs[i - 1];
        if spec_grouped(d) {
            let k = spec_find_group(gs, d.result.name());
            lemma_find_group_nonneg(gs, d.result.name());
            let upd = gs.update(k, GroupV { name: gs[k].name, ctors: gs[k].ctors.push(i - 1) });
            let pushed = gs.push(GroupV { name: d.result.name(), ctors: seq![i - 1] });
            if k < gs.len() {
                assert(new == upd);
            } else {
                assert(new == pushed);
            }
            assert forall|g: int, c: int|
                0 <= g < new.len() && 0 <= c < new[g].ctors.len() implies 0 <= #[trigger] new[g].ctors[c]
                < defs.len() by {
                if k < gs.len() {
                    assert(new[g] == upd[g]);
                    if g == k {
                        assert(upd[g].ctors == gs[g].ctors.push(i - 1));
                        if c < gs[g].ctors.len() {
                            assert(new[g].ctors[c] == gs[g].ctors[c]);
                        }
                    } else {
                        assert(upd[g] == gs[g]);
                    }
                } else {
                    assert(new[g] == pushed[g]);
                    if g < gs.len() {
                        assert(pushed[g] == gs[g]);
                    } else {
                        assert(pushed[g].ctors == seq![i - 1]);
                    }
                }
            }
        }
    }
}


/// A missed group search saw every name.
pub proof fn lemma_find_group_misses(gs: Seq<GroupV>, name: Seq<u8>)
    requires
        spec_find_group(gs, name) >= gs.len(),
    ensures
        forall|k: int| 0 <= k < gs.len() ==> (#[trigger] gs[k]).name != name,
    decreases gs.len(),
{
    if gs.len() > 0 {
        lemma_find_group_nonneg(gs.skip(1), name);
        lemma_find_group_misses(gs.skip(1), name);
        assert forall|k: int| 0 <= k < gs.len() implies (#[trigger] gs[k]).name != name by {
            if k > 0 {
                assert(gs.skip(1)[k - 1] == gs[k]);
            }
        }
    }
}

/// A found group carries the name.
pub proof fn lemma_find_group_hits(gs: Seq<GroupV>, name: Seq<u8>)
    requires
        spec_find_group(gs, name) < gs.len(),
    ensures
        0 <= spec_find_group(gs, name),
        gs[spec_find_group(gs, name)].name == name,
    decreases gs.len(),
{
    if gs.len() > 0 && gs[0].name != name {
        lemma_find_group_nonneg(gs.skip(1), name);
        lemma_find_group_hits(gs.skip(1), name);
        assert(gs.skip(1)[spec_find_group(gs.skip(1), name)] == gs[spec_find_group(gs, name)]);
    }
}

/// The shape the grouping keeps at every step: group names are unique,
/// every listed constructor index is a grouped definition below `i`
/// carrying the group's result-type name, indices ascend (schema order),
/// and every grouped definition below `i` stands in some group.
pub open spec fn groups_shape(defs: Seq<DefV>, gs: Seq<GroupV>, i: int) -> bool {
    &&& forall|a: int, b: int|
        0 <= a < b < gs.len() ==> (#[trigger] gs[a]).name != (#[trigger] gs[b]).name
    &&& forall|g: int, k: int|
        0 <= g < gs.len() && 0 <= k < gs[g].ctors.len() ==> 0 <= #[trigger] gs[g].ctors[k] < i
            && spec_grouped(defs[gs[g].ctors[k]]) && defs[gs[g].ctors[k]].result.name()
            == gs[g].name
    &&& forall|g: int, k1: int, k2: int|
        0 <= g < gs.len() && 0 <= k1 < k2 < gs[g].ctors.len() ==> (#[trigger] gs[g].ctors[k1])
            < (#[trigger] gs[g].ctors[k2])
    &&& forall|c: int|
        0 <= c < i && spec_grouped(#[trigger] defs[c]) ==> exists|g: int, k: int|
            0 <= g < gs.len() && 0 <= k < gs[g].ctors.len() && gs[g].ctors[k] == c
}

/// Every constructor belongs to exactly one group, groups never re-sort,
/// and group names never repeat: the grouping invariant, proved for the
/// canonical groups of any definition list.
pub proof fn lemma_groups_shape(defs: Seq<DefV>, i: int)
    requires
        0 <= i <= defs.len(),
    ensures
        groups_shape(defs, spec_groups_upto(defs, i), i),
    decreases i,
{
    if i > 0 {
        lemma_groups_shape(defs, i - 1);
        let gs = spec_groups_upto(defs, i - 1);
        let new = spec_groups_upto(defs, i);
        let d = defs[i - 1];
        if spec_grouped(d) {
            let j = spec_find_group(gs, d.result.name());
            lemma_find_group_nonneg(gs, d.result.name());
            let upd = gs.update(j, GroupV { name: gs[j].name, ctors: gs[j].ctors.push(i - 1) });
            let pushed = gs.push(GroupV { name: d.result.name(), ctors: seq![i - 1] });
            if j < gs.len() {
                lemma_find_group_hits(gs, d.result.name());
                assert(new == upd);
                assert forall|c: int|
                    0 <= c < i && spec_grouped(#[trigger] defs[c]) implies exists|g: int, k: int|
                    0 <= g < new.len() && 0 <= k < new[g].ctors.len() && new[g].ctors[k] == c by {
                    if c == i - 1 {
                        assert(new[j].ctors[new[j].ctors.len() - 1] == c);
                    } else {
                        let (g, k): (int, int) = choose|g: int, k: int|
                            0 <= g < gs.len() && 0 <= k < gs[g].ctors.len() && gs[g].ctors[k] == c;
                        assert(new[g].ctors[k] == c);
                    }
                }
                assert forall|g: int, k: int|
                    0 <= g < new.len() && 0 <= k < new[g].ctors.len() implies 0
                    <= #[trigger] new[g].ctors[k] < i && spec_grouped(defs[new[g].ctors[k]])
                    && defs[new[g].ctors[k]].result.name() == new[g].name by {
                    assert(new[g] == upd[g]);
                    if g != j {
                        assert(upd[g] == gs[g]);
                    } else if k < gs[g].ctors.len() {
                        assert(new[g].ctors[k] == gs[g].ctors[k]);
                    }
                }
                assert forall|g: int, k1: int, k2: int|
                    0 <= g < new.len() && 0 <= k1 < k2 < new[g].ctors.len() implies (
                #[trigger] new[g].ctors[k1]) < (#[trigger] new[g].ctors[k2]) by {
                    assert(new[g] == upd[g]);
                    if g != j {
                        assert(upd[g] == gs[g]);
                    } else {
                        if k2 < gs[g].ctors.len() {
                            assert(new[g].ctors[k1] == gs[g].ctors[k1]);
                            assert(new[g].ctors[k2] == gs[g].ctors[k2]);
                        } else {
                            if k1 < gs[g].ctors.len() {
                                assert(new[g].ctors[k1] == gs[g].ctors[k1]);
                                assert(gs[g].ctors[k1] < i - 1);
                            }
                        }
                    }
                }
            } else {
                lemma_find_group_misses(gs, d.result.name());
                assert(new == pushed);
                assert forall|c: int|
                    0 <= c < i && spec_grouped(#[trigger] defs[c]) implies exists|g: int, k: int|
                    0 <= g < new.len() && 0 <= k < new[g].ctors.len() && new[g].ctors[k] == c by {
                    if c == i - 1 {
                        assert(new[new.len() - 1].ctors[0] == c);
                    } else {
                        let (g, k): (int, int) = choose|g: int, k: int|
                            0 <= g < gs.len() && 0 <= k < gs[g].ctors.len() && gs[g].ctors[k] == c;
                        assert(new[g].ctors[k] == c);
                    }
                }
                assert forall|g: int, k: int|
                    0 <= g < new.len() && 0 <= k < new[g].ctors.len() implies 0
                    <= #[trigger] new[g].ctors[k] < i && spec_grouped(defs[new[g].ctors[k]])
                    && defs[new[g].ctors[k]].result.name() == new[g].name by {
                    if g < gs.len() {
                        assert(new[g] == gs[g]);
                    } else {
                        assert(new[g].ctors == seq![i - 1]);
                    }
                }
                assert forall|g: int, k1: int, k2: int|
                    0 <= g < new.len() && 0 <= k1 < k2 < new[g].ctors.len() implies (
                #[trigger] new[g].ctors[k1]) < (#[trigger] new[g].ctors[k2]) by {
                    if g < gs.len() {
                        assert(new[g] == gs[g]);
                    }
                }
            }
        }
    }
}

} // verus!
