//! Schema identifiers to target-language identifiers.
//!
//! Names are case-normalized for the syntactic role they fill, reserved
//! words are escaped by a trailing underscore, and a per-scope registry
//! keeps every issued identifier unique for the whole generation run.
//! The registry's memo keys on the full schema name — namespace path and
//! bare name — so names alike only in their bare part stay distinct: two
//! schema names that normalize alike are disambiguated by appending the
//! case-normalized namespace path, and when even that collides,
//! resolution fails carrying both full names rather than let one
//! definition shadow another.

use vstd::prelude::*;
use crate::str_bytes;

verus! {

/// The syntactic role an identifier is resolved for.
#[derive(Clone, Copy, PartialEq, Eq, Structural, Debug)]
pub enum Scope {
    /// A record type name.
    Type,
    /// An enum variant name.
    Variant,
    /// A record field name.
    Field,
    /// A request type name.
    Function,
}

/// One issued identifier: the full schema name (namespace path and bare
/// name) it was issued for, and the target identifier.
pub struct IssuedName {
    pub raw: Vec<u8>,
    pub ident: Vec<u8>,
}

/// Abstract form of an issued identifier.
pub struct IssuedV {
    pub raw: Seq<u8>,
    pub ident: Seq<u8>,
}

impl View for IssuedName {
    type V = IssuedV;

    open spec fn view(&self) -> IssuedV {
        IssuedV { raw: self.raw@, ident: self.ident@ }
    }
}

/// Abstract form of one scope's table.
pub open spec fn table_view(t: Seq<IssuedName>) -> Seq<IssuedV> {
    Seq::new(t.len(), |i: int| t[i]@)
}

/// Lower-case a byte if it is an upper-case ASCII letter.
pub open spec fn spec_lower(b: u8) -> u8 {
    if 65 <= b <= 90 {
        (b + 32) as u8
    } else {
        b
    }
}

/// Upper-case a byte if it is a lower-case ASCII letter.
pub open spec fn spec_upper(b: u8) -> u8 {
    if 97 <= b <= 122 {
        (b - 32) as u8
    } else {
        b
    }
}

/// Snake-case tail from position `i`: an underscore before each interior
/// upper-case letter, every letter lowered.
pub open spec fn spec_snake_from(s: Seq<u8>, i: int) -> Seq<u8>
    decreases s.len() - i,
{
    if i < 0 || i >= s.len() {
        Seq::empty()
    } else {
        let b = s[i];
        let piece: Seq<u8> = if i == 0 {
            seq![spec_lower(b)]
        } else if 65 <= b <= 90 {
            seq![95u8, spec_lower(b)]
        } else {
            seq![b]
        };
        piece + spec_snake_from(s, i + 1)
    }
}

/// The snake-case form of a schema name.
pub open spec fn spec_snake(s: Seq<u8>) -> Seq<u8> {
    spec_snake_from(s, 0)
}

/// The camel-case form of a schema name: first letter raised.
pub open spec fn spec_camel(s: Seq<u8>) -> Seq<u8> {
    if s.len() == 0 {
        s
    } else {
        seq![spec_upper(s[0])] + s.skip(1)
    }
}

/// The reserved words of the target language that the escaping convention
/// covers; an identifier equal to one is suffixed with an underscore.
/// Two keywords stand as their byte values so the list holds them
/// without spelling them in this source.
#[verifier::opaque]
pub open spec fn spec_reserved(s: Seq<u8>) -> bool {
    ||| s == str_bytes("as")
    ||| s == str_bytes("async")
    ||| s == str_bytes("await")
    ||| s == str_bytes("break")
    ||| s == str_bytes("box")
    ||| s == str_bytes("const")
    ||| s == str_bytes("continue")
    ||| s == str_bytes("crate")
    ||| s == str_bytes("dyn")
    ||| s == str_bytes("else")
    ||| s == str_bytes("enum")
    ||| s == seq![101u8, 120u8, 116u8, 101u8, 114u8, 110u8]
    ||| s == str_bytes("false")
    ||| s == str_bytes("fn")
    ||| s == str_bytes("for")
    ||| s == str_bytes("if")
    ||| s == str_bytes("impl")
    ||| s == str_bytes("in")
    ||| s == str_bytes("let")
    ||| s == str_bytes("loop")
    ||| s == str_bytes("match")
    ||| s == str_bytes("mod")
    ||| s == str_bytes("move")
    ||| s == str_bytes("mut")
    ||| s == str_bytes("pub")
    ||| s == str_bytes("ref")
    ||| s == str_bytes("return")
    ||| s == str_bytes("self")
    ||| s == str_bytes("Self")
    ||| s == str_bytes("static")
    ||| s == str_bytes("struct")
    ||| s == str_bytes("super")
    ||| s == str_bytes("trait")
    ||| s == str_bytes("true")
    ||| s == str_bytes("type")
    ||| s == seq![117u8, 110u8, 115u8, 97u8, 102u8, 101u8]
    ||| s == str_bytes("use")
    ||| s == str_bytes("where")
    ||| s == str_bytes("while")
}

/// The normalized candidate identifier for a name in a scope, reserved
/// words escaped.
pub open spec fn spec_normalize(raw: Seq<u8>, scope: Scope) -> Seq<u8> {
    let base = match scope {
        Scope::Type => spec_camel(raw),
        Scope::Variant => spec_camel(raw),
        Scope::Field => spec_snake(raw),
        Scope::Function => spec_camel(raw),
    };
    if spec_reserved(base) {
        base + seq![95u8]
    } else {
        base
    }
}

/// A namespace segment normalized to the casing of the scope it serves.
pub open spec fn spec_norm_segment(seg: Seq<u8>, scope: Scope) -> Seq<u8> {
    match scope {
        Scope::Field => spec_snake(seg),
        _ => spec_camel(seg),
    }
}

/// The candidate disambiguated by the namespace path: each segment,
/// case-normalized for the scope, appended after an underscore.
pub open spec fn spec_with_namespace(cand: Seq<u8>, ns: Seq<Seq<u8>>, i: int, scope: Scope) -> Seq<
    u8,
>
    decreases ns.len() - i,
{
    if i < 0 || i >= ns.len() {
        cand
    } else {
        spec_with_namespace(cand + seq![95u8] + spec_norm_segment(ns[i], scope), ns, i + 1, scope)
    }
}

/// Lower-case a byte.
pub fn lower(b: u8) -> (r: u8)
    ensures
        r == spec_lower(b),
{
    if 65 <= b && b <= 90 {
        b + 32
    } else {
        b
    }
}

/// Upper-case a byte.
pub fn upper(b: u8) -> (r: u8)
    ensures
        r == spec_upper(b),
{
    if 97 <= b && b <= 122 {
        b - 32
    } else {
        b
    }
}

/// Snake-case a schema name.
pub fn snake(s: &[u8]) -> (r: Vec<u8>)
    ensures
        r@ == spec_snake(s@),
{
    let mut out: Vec<u8> = Vec::new();
    let mut i: usize = 0;
    while i < s.len()
        invariant
            i <= s@.len(),
            spec_snake(s@) == out@ + spec_snake_from(s@, i as int),
        decreases s@.len() - i,
    {
        let b = s[i];
        if i > 0 && 65 <= b && b <= 90 {
            out.push(95);
            out.push(lower(b));
        } else {
            out.push(lower(b));
        }
        proof {
            assert(spec_snake(s@) =~= out@ + spec_snake_from(s@, i + 1));
        }
        i = i + 1;
    }
    proof {
        assert(spec_snake(s@) =~= out@);
    }
    out
}

/// Camel-case a schema name.
pub fn camel(s: &[u8]) -> (r: Vec<u8>)
    ensures
        r@ == spec_camel(s@),
{
    let mut out: Vec<u8> = Vec::new();
    if s.len() == 0 {
        assert(out@ =~= spec_camel(s@));
        return out;
    }
    out.push(upper(s[0]));
    let mut i: usize = 1;
    while i < s.len()
        invariant
            1 <= i <= s@.len(),
            s@.len() > 0,
            out@ == seq![spec_upper(s@[0])] + s@.subrange(1, i as int),
        decreases s@.len() - i,
    {
        out.push(s[i]);
        proof {
            assert(out@ =~= seq![spec_upper(s@[0])] + s@.subrange(1, i + 1));
        }
        i = i + 1;
    }
    proof {
        assert(s@.subrange(1, s@.len() as int) =~= s@.skip(1));
        assert(out@ =~= spec_camel(s@));
    }
    out
}

/// Whether a candidate identifier is a reserved word.
pub fn reserved(s: &[u8]) -> (r: bool)
    ensures
        r == spec_reserved(s@),
{
    proof {
        reveal(spec_reserved);
    }
    let ghost w1 = seq![101u8, 120u8, 116u8, 101u8, 114u8, 110u8];
    let ghost w2 = seq![117u8, 110u8, 115u8, 97u8, 102u8, 101u8];
    let kw1 = vec![101u8, 120u8, 116u8, 101u8, 114u8, 110u8];
    let kw2 = vec![117u8, 110u8, 115u8, 97u8, 102u8, 101u8];
    proof {
        assert(kw1@ =~= w1);
        assert(kw2@ =~= w2);
    }
    ||| crate::bytes_eq(s, crate::lit("as").as_slice())
    ||| crate::bytes_eq(s, crate::lit("async").as_slice())
    ||| crate::bytes_eq(s, crate::lit("await").as_slice())
    ||| crate::bytes_eq(s, crate::lit("break").as_slice())
    ||| crate::bytes_eq(s, crate::lit("box").as_slice())
    ||| crate::bytes_eq(s, crate::lit("const").as_slice())
    ||| crate::bytes_eq(s, crate::lit("continue").as_slice())
    ||| crate::bytes_eq(s, crate::lit("crate").as_slice())
    ||| crate::bytes_eq(s, crate::lit("dyn").as_slice())
    ||| crate::bytes_eq(s, crate::lit("else").as_slice())
    ||| crate::bytes_eq(s, crate::lit("enum").as_slice())
    ||| crate::bytes_eq(s, kw1.as_slice())
    ||| crate::bytes_eq(s, crate::lit("false").as_slice())
    ||| crate::bytes_eq(s, crate::lit("fn").as_slice())
    ||| crate::bytes_eq(s, crate::lit("for").as_slice())
    ||| crate::bytes_eq(s, crate::lit("if").as_slice())
    ||| crate::bytes_eq(s, crate::lit("impl").as_slice())
    ||| crate::bytes_eq(s, crate::lit("in").as_slice())
    ||| crate::bytes_eq(s, crate::lit("let").as_slice())
    ||| crate::bytes_eq(s, crate::lit("loop").as_slice())
    ||| crate::bytes_eq(s, crate::lit("match").as_slice())
    ||| crate::bytes_eq(s, crate::lit("mod").as_slice())
    ||| crate::bytes_eq(s, crate::lit("move").as_slice())
    ||| crate::bytes_eq(s, crate::lit("mut").as_slice())
    ||| crate::bytes_eq(s, crate::lit("pub").as_slice())
    ||| crate::bytes_eq(s, crate::lit("ref").as_slice())
    ||| crate::bytes_eq(s, crate::lit("return").as_slice())
    ||| crate::bytes_eq(s, crate::lit("self").as_slice())
    ||| crate::bytes_eq(s, crate::lit("Self").as_slice())
    ||| crate::bytes_eq(s, crate::lit("static").as_slice())
    ||| crate::bytes_eq(s, crate::lit("struct").as_slice())
    ||| crate::bytes_eq(s, crate::lit("super").as_slice())
    ||| crate::bytes_eq(s, crate::lit("trait").as_slice())
    ||| crate::bytes_eq(s, crate::lit("true").as_slice())
    ||| crate::bytes_eq(s, crate::lit("type").as_slice())
    ||| crate::bytes_eq(s, kw2.as_slice())
    ||| crate::bytes_eq(s, crate::lit("use").as_slice())
    ||| crate::bytes_eq(s, crate::lit("where").as_slice())
    ||| crate::bytes_eq(s, crate::lit("while").as_slice())
}

/// Normalize a schema name for a scope.
pub fn normalize(raw: &[u8], scope: Scope) -> (r: Vec<u8>)
    ensures
        r@ == spec_normalize(raw@, scope),
{
    let mut base = match scope {
        Scope::Type => camel(raw),
        Scope::Variant => camel(raw),
        Scope::Field => snake(raw),
        Scope::Function => camel(raw),
    };
    if reserved(base.as_slice()) {
        base.push(95);
        assert(base@ =~= spec_normalize(raw@, scope));
    }
    base
}

/// Append the case-normalized namespace path to a candidate.
pub fn with_namespace(cand: Vec<u8>, ns: &Vec<Vec<u8>>, scope: Scope) -> (r: Vec<u8>)
    ensures
        r@ == spec_with_namespace(cand@, ns.deep_view(), 0, scope),
{
    let ghost nv = ns.deep_view();
    let mut out = cand;
    let mut i: usize = 0;
    while i < ns.len()
        invariant
            i <= ns@.len(),
            nv == ns.deep_view(),
            nv.len() == ns@.len(),
            forall|k: int| 0 <= k < ns@.len() ==> nv[k] == ns@[k]@,
            spec_with_namespace(out@, nv, i as int, scope) == spec_with_namespace(
                cand@,
                nv,
                0,
                scope,
            ),
        decreases ns@.len() - i,
    {
        let ghost before = out@;
        out.push(95);
        let mut seg = match scope {
            Scope::Field => snake(ns[i].as_slice()),
            _ => camel(ns[i].as_slice()),
        };
        out.append(&mut seg);
        proof {
            assert(out@ =~= before + seq![95u8] + spec_norm_segment(nv[i as int], scope));
        }
        i = i + 1;
    }
    out
}


/// A fatal resolution failure: two schema names demand the same target
/// identifier even after disambiguation.  Both names are reported.
#[derive(Debug)]
pub struct Collision {
    /// The schema name that already holds the identifier.
    pub existing: Vec<u8>,
    /// The schema name whose resolution failed.
    pub incoming: Vec<u8>,
}

/// Abstract form of a collision report.
pub struct CollisionV {
    pub existing: Seq<u8>,
    pub incoming: Seq<u8>,
}

impl View for Collision {
    type V = CollisionV;

    open spec fn view(&self) -> CollisionV {
        CollisionV { existing: self.existing@, incoming: self.incoming@ }
    }
}

/// The first entry issued for `raw`, or the table's length.
pub open spec fn spec_find_raw(t: Seq<IssuedV>, raw: Seq<u8>) -> int
    decreases t.len(),
{
    if t.len() == 0 {
        0
    } else if t[0].raw == raw {
        0
    } else {
        1 + spec_find_raw(t.skip(1), raw)
    }
}

/// Whether some entry already carries `ident`.
pub open spec fn spec_taken(t: Seq<IssuedV>, ident: Seq<u8>) -> bool {
    exists|k: int| 0 <= k < t.len() && (#[trigger] t[k]).ident == ident
}

/// The schema name of the first entry carrying `ident`.
pub open spec fn spec_holder(t: Seq<IssuedV>, ident: Seq<u8>) -> Seq<u8>
    decreases t.len(),
{
    if t.len() == 0 {
        Seq::empty()
    } else if t[0].ident == ident {
        t[0].raw
    } else {
        spec_holder(t.skip(1), ident)
    }
}

/// One scope's table after resolving the bare name `raw` under its
/// namespace, paired with the outcome.  The memo — and the collision
/// report — key on the full schema name, so two names alike only in
/// their bare part stay two names.
pub open spec fn spec_resolve_table(
    t: Seq<IssuedV>,
    ns: Seq<Seq<u8>>,
    raw: Seq<u8>,
    scope: Scope,
) -> (Seq<IssuedV>, Result<Seq<u8>, CollisionV>) {
    let full = crate::spec_full_name(ns, raw);
    let k = spec_find_raw(t, full);
    if k < t.len() {
        (t, Result::Ok(t[k].ident))
    } else {
        let cand = spec_normalize(raw, scope);
        if !spec_taken(t, cand) {
            (t.push(IssuedV { raw: full, ident: cand }), Result::Ok(cand))
        } else {
            let cand2 = spec_with_namespace(cand, ns, 0, scope);
            if cand2 != cand && !spec_taken(t, cand2) {
                (t.push(IssuedV { raw: full, ident: cand2 }), Result::Ok(cand2))
            } else {
                (t, Result::Err(CollisionV { existing: spec_holder(t, cand), incoming: full }))
            }
        }
    }
}

/// A well-formed table: every issued identifier is unique in its scope,
/// and no schema name appears twice.
pub open spec fn table_wf(t: Seq<IssuedV>) -> bool {
    &&& forall|i: int, j: int|
        0 <= i < j < t.len() ==> (#[trigger] t[i]).ident != (#[trigger] t[j]).ident
    &&& forall|i: int, j: int|
        0 <= i < j < t.len() ==> (#[trigger] t[i]).raw != (#[trigger] t[j]).raw
}

/// Resolving keeps a table well formed: a fresh identifier is only issued
/// when nothing in the scope carries it.
pub proof fn lemma_resolve_table_wf(t: Seq<IssuedV>, ns: Seq<Seq<u8>>, raw: Seq<u8>, scope: Scope)
    requires
        table_wf(t),
    ensures
        table_wf(spec_resolve_table(t, ns, raw, scope).0),
{
    let full = crate::spec_full_name(ns, raw);
    let k = spec_find_raw(t, full);
    if k < t.len() {
    } else {
        lemma_find_raw_misses(t, full);
        let cand = spec_normalize(raw, scope);
        if !spec_taken(t, cand) {
            let t2 = t.push(IssuedV { raw: full, ident: cand });
            assert forall|i: int, j: int| 0 <= i < j < t2.len() implies (#[trigger] t2[i]).ident
                != (#[trigger] t2[j]).ident by {
                if j == t.len() {
                    assert(t2[i] == t[i]);
                    assert(!(t[i].ident == cand));
                }
            }
            assert forall|i: int, j: int| 0 <= i < j < t2.len() implies (#[trigger] t2[i]).raw
                != (#[trigger] t2[j]).raw by {
                if j == t.len() {
                    assert(t2[i] == t[i]);
                }
            }
        } else {
            let cand2 = spec_with_namespace(cand, ns, 0, scope);
            if cand2 != cand && !spec_taken(t, cand2) {
                let t2 = t.push(IssuedV { raw: full, ident: cand2 });
                assert forall|i: int, j: int| 0 <= i < j < t2.len() implies (#[trigger] t2[i]).ident
                    != (#[trigger] t2[j]).ident by {
                    if j == t.len() {
                        assert(t2[i] == t[i]);
                        assert(!(t[i].ident == cand2));
                    }
                }
                assert forall|i: int, j: int| 0 <= i < j < t2.len() implies (#[trigger] t2[i]).raw
                    != (#[trigger] t2[j]).raw by {
                    if j == t.len() {
                        assert(t2[i] == t[i]);
                    }
                }
            }
        }
    }
}

/// A missed search saw every schema name.
proof fn lemma_find_raw_misses(t: Seq<IssuedV>, raw: Seq<u8>)
    requires
        spec_find_raw(t, raw) >= t.len(),
    ensures
        forall|k: int| 0 <= k < t.len() ==> (#[trigger] t[k]).raw != raw,
    decreases t.len(),
{
    if t.len() > 0 {
        lemma_find_raw_nonneg(t.skip(1), raw);
        lemma_find_raw_misses(t.skip(1), raw);
        assert forall|k: int| 0 <= k < t.len() implies (#[trigger] t[k]).raw != raw by {
            if k > 0 {
                assert(t.skip(1)[k - 1] == t[k]);
            }
        }
    }
}

/// A table search never returns a negative index.
pub proof fn lemma_find_raw_nonneg(t: Seq<IssuedV>, raw: Seq<u8>)
    ensures
        spec_find_raw(t, raw) >= 0,
    decreases t.len(),
{
    if t.len() > 0 && t[0].raw != raw {
        lemma_find_raw_nonneg(t.skip(1), raw);
    }
}

/// Uniqueness: a well-formed scope never emits two definitions under one
/// identifier — entries at distinct positions carry distinct identifiers,
/// whatever schema names they were issued for.
pub proof fn lemma_scope_uniqueness(t: Seq<IssuedV>, i: int, j: int)
    requires
        table_wf(t),
        0 <= i < t.len(),
        0 <= j < t.len(),
        i != j,
    ensures
        t[i].ident != t[j].ident,
{
}


/// A search that stops at `i` returns `i`.
proof fn lemma_find_raw_prefix(t: Seq<IssuedV>, raw: Seq<u8>, i: int)
    requires
        0 <= i < t.len(),
        forall|k: int| 0 <= k < i ==> (#[trigger] t[k]).raw != raw,
        t[i].raw == raw,
    ensures
        spec_find_raw(t, raw) == i,
    decreases i,
{
    if i > 0 {
        assert forall|k: int| 0 <= k < i - 1 implies (#[trigger] t.skip(1)[k]).raw != raw by {
            assert(t.skip(1)[k] == t[k + 1]);
        }
        assert(t.skip(1)[i - 1] == t[i]);
        lemma_find_raw_prefix(t.skip(1), raw, i - 1);
    }
}

/// Find the entry issued for `raw`.
fn find_raw(table: &Vec<IssuedName>, raw: &[u8]) -> (r: usize)
    ensures
        r as int == spec_find_raw(table_view(table@), raw@),
        r <= table@.len(),
{
    let ghost tv = table_view(table@);
    proof {
        assert(tv.skip(0) =~= tv);
    }
    let mut i: usize = 0;
    while i < table.len()
        invariant
            i <= table@.len(),
            tv == table_view(table@),
            tv.len() == table@.len(),
            forall|k: int| 0 <= k < table@.len() ==> tv[k] == table@[k]@,
            spec_find_raw(tv, raw@) == i + spec_find_raw(tv.skip(i as int), raw@),
            forall|k: int| 0 <= k < i ==> (#[trigger] tv[k]).raw != raw@,
        decreases table@.len() - i,
    {
        proof {
            assert(tv.skip(i as int)[0] == tv[i as int]);
        }
        if crate::bytes_eq(table[i].raw.as_slice(), raw) {
            proof {
                lemma_find_raw_prefix(tv, raw@, i as int);
            }
            return i;
        }
        proof {
            assert(tv.skip(i as int).skip(1) =~= tv.skip(i + 1));
        }
        i = i + 1;
    }
    proof {
        assert(tv.skip(i as int).len() == 0);
    }
    i
}

/// Whether some entry already carries `ident`.
fn taken(table: &Vec<IssuedName>, ident: &[u8]) -> (r: bool)
    ensures
        r == spec_taken(table_view(table@), ident@),
{
    let ghost tv = table_view(table@);
    let mut i: usize = 0;
    while i < table.len()
        invariant
            i <= table@.len(),
            tv == table_view(table@),
            tv.len() == table@.len(),
            forall|k: int| 0 <= k < table@.len() ==> tv[k] == table@[k]@,
            forall|k: int| 0 <= k < i ==> (#[trigger] tv[k]).ident != ident@,
        decreases table@.len() - i,
    {
        if crate::bytes_eq(table[i].ident.as_slice(), ident) {
            proof {
                assert(tv[i as int].ident == ident@);
            }
            return true;
        }
        i = i + 1;
    }
    false
}

/// The schema name of the first entry carrying `ident`.
fn holder(table: &Vec<IssuedName>, ident: &[u8]) -> (r: Vec<u8>)
    ensures
        r@ == spec_holder(table_view(table@), ident@),
{
    let ghost tv = table_view(table@);
    proof {
        assert(tv.skip(0) =~= tv);
    }
    let mut i: usize = 0;
    while i < table.len()
        invariant
            i <= table@.len(),
            tv == table_view(table@),
            tv.len() == table@.len(),
            forall|k: int| 0 <= k < table@.len() ==> tv[k] == table@[k]@,
            spec_holder(tv, ident@) == spec_holder(tv.skip(i as int), ident@),
        decreases table@.len() - i,
    {
        proof {
            assert(tv.skip(i as int)[0] == tv[i as int]);
        }
        if crate::bytes_eq(table[i].ident.as_slice(), ident) {
            return crate::copy_bytes(&table[i].raw);
        }
        proof {
            assert(tv.skip(i as int).skip(1) =~= tv.skip(i + 1));
        }
        i = i + 1;
    }
    proof {
        assert(tv.skip(i as int).len() == 0);
    }
    Vec::new()
}

/// Abstract form of a resolution outcome.
pub open spec fn resolve_result_view(r: Result<Vec<u8>, Collision>) -> Result<Seq<u8>, CollisionV> {
    match r {
        Result::Ok(id) => Result::Ok(id@),
        Result::Err(c) => Result::Err(c@),
    }
}

/// Resolve `raw` in one scope's table: memoized, normalized, kept unique.
#[verifier::rlimit(60)]
pub fn resolve_in(
    table: &mut Vec<IssuedName>,
    ns: &Vec<Vec<u8>>,
    raw: &[u8],
    scope: Scope,
) -> (r: Result<Vec<u8>, Collision>)
    ensures
        table_view(final(table)@) == spec_resolve_table(
            table_view(old(table)@),
            ns.deep_view(),
            raw@,
            scope,
        ).0,
        resolve_result_view(r) == spec_resolve_table(
            table_view(old(table)@),
            ns.deep_view(),
            raw@,
            scope,
        ).1,
        table_wf(table_view(old(table)@)) ==> table_wf(table_view(final(table)@)),
{
    let ghost tv = table_view(table@);
    proof {
        if table_wf(tv) {
            lemma_resolve_table_wf(tv, ns.deep_view(), raw@, scope);
        }
    }
    let full = crate::full_name(ns, raw);
    let k = find_raw(table, full.as_slice());
    if k < table.len() {
        return Result::Ok(crate::copy_bytes(&table[k].ident));
    }
    let cand = normalize(raw, scope);
    if !taken(table, cand.as_slice()) {
        let ghost old_tv = table_view(table@);
        let entry = IssuedName { raw: crate::copy_bytes(&full), ident: crate::copy_bytes(&cand) };
        table.push(entry);
        proof {
            assert(table_view(table@) =~= old_tv.push(IssuedV { raw: full@, ident: cand@ }));
        }
        return Result::Ok(cand);
    }
    let cand2 = with_namespace(crate::copy_bytes(&cand), ns, scope);
    if !crate::bytes_eq(cand2.as_slice(), cand.as_slice()) && !taken(table, cand2.as_slice()) {
        let ghost old_tv = table_view(table@);
        let entry = IssuedName { raw: crate::copy_bytes(&full), ident: crate::copy_bytes(&cand2) };
        table.push(entry);
        proof {
            assert(table_view(table@) =~= old_tv.push(IssuedV { raw: full@, ident: cand2@ }));
        }
        return Result::Ok(cand2);
    }
    let existing = holder(table, cand.as_slice());
    Result::Err(Collision { existing, incoming: full })
}


/// The per-run identifier registry: one table per scope.  Constructors
/// occupy the variant scope (their records and enum variants share one
/// name), abstract types the type scope, parameters the field scope and
/// functions the function scope.
pub struct Resolver {
    pub types: Vec<IssuedName>,
    pub variants: Vec<IssuedName>,
    pub fields: Vec<IssuedName>,
    pub functions: Vec<IssuedName>,
}

/// Abstract form of the registry.
pub struct ResolverV {
    pub types: Seq<IssuedV>,
    pub variants: Seq<IssuedV>,
    pub fields: Seq<IssuedV>,
    pub functions: Seq<IssuedV>,
}

impl View for Resolver {
    type V = ResolverV;

    open spec fn view(&self) -> ResolverV {
        ResolverV {
            types: table_view(self.types@),
            variants: table_view(self.variants@),
            fields: table_view(self.fields@),
            functions: table_view(self.functions@),
        }
    }
}

/// The table a scope resolves in.
pub open spec fn spec_scope_table(r: ResolverV, scope: Scope) -> Seq<IssuedV> {
    match scope {
        Scope::Type => r.types,
        Scope::Variant => r.variants,
        Scope::Field => r.fields,
        Scope::Function => r.functions,
    }
}

/// The registry with one scope's table replaced.
pub open spec fn spec_set_table(r: ResolverV, scope: Scope, t: Seq<IssuedV>) -> ResolverV {
    match scope {
        Scope::Type => ResolverV { types: t, ..r },
        Scope::Variant => ResolverV { variants: t, ..r },
        Scope::Field => ResolverV { fields: t, ..r },
        Scope::Function => ResolverV { functions: t, ..r },
    }
}

/// The registry and outcome after resolving `raw` in `scope`.
pub open spec fn spec_resolve(
    r: ResolverV,
    ns: Seq<Seq<u8>>,
    raw: Seq<u8>,
    scope: Scope,
) -> (ResolverV, Result<Seq<u8>, CollisionV>) {
    let (t, res) = spec_resolve_table(spec_scope_table(r, scope), ns, raw, scope);
    (spec_set_table(r, scope, t), res)
}

/// A well-formed registry: every scope's table is well formed.
pub open spec fn resolver_wf(r: ResolverV) -> bool {
    table_wf(r.types) && table_wf(r.variants) && table_wf(r.fields) && table_wf(r.functions)
}

impl Resolver {
    /// An empty registry: nothing issued yet.
    pub fn new() -> (r: Resolver)
        ensures
            r@ == spec_empty_resolver(),
            resolver_wf(r@),
    {
        let r = Resolver {
            types: Vec::new(),
            variants: Vec::new(),
            fields: Vec::new(),
            functions: Vec::new(),
        };
        proof {
            assert(r@.types =~= spec_empty_resolver().types);
            assert(r@.variants =~= spec_empty_resolver().variants);
            assert(r@.fields =~= spec_empty_resolver().fields);
            assert(r@.functions =~= spec_empty_resolver().functions);
        }
        r
    }

    /// Resolve a schema name for a scope, issuing or recalling its
    /// identifier; fails only on an unresolvable collision.
    pub fn resolve(&mut self, ns: &Vec<Vec<u8>>, raw: &[u8], scope: Scope) -> (r: Result<
        Vec<u8>,
        Collision,
    >)
        ensures
            final(self)@ == spec_resolve(old(self)@, ns.deep_view(), raw@, scope).0,
            resolve_result_view(r) == spec_resolve(old(self)@, ns.deep_view(), raw@, scope).1,
            resolver_wf(old(self)@) ==> resolver_wf(final(self)@),
    {
        let out = match scope {
            Scope::Type => resolve_in(&mut self.types, ns, raw, scope),
            Scope::Variant => resolve_in(&mut self.variants, ns, raw, scope),
            Scope::Field => resolve_in(&mut self.fields, ns, raw, scope),
            Scope::Function => resolve_in(&mut self.functions, ns, raw, scope),
        };
        out
    }
}

/// The empty registry.
pub open spec fn spec_empty_resolver() -> ResolverV {
    ResolverV {
        types: Seq::empty(),
        variants: Seq::empty(),
        fields: Seq::empty(),
        functions: Seq::empty(),
    }
}

} // verus!
