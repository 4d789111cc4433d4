//! The decision logic around the native client's JSON traffic.
//!
//! The runtime around the library receives one JSON document at a time
//! and must route it: a document carrying an `"@extra"` string answers a
//! pending request; otherwise a numeric `"@client_id"` marks an update
//! for that client; anything else is unknown.  Outgoing requests get a
//! fresh `"@extra"` correlation identifier attached before sending; the
//! identifier lives in the envelope, never in the schema-defined fields.

use vstd::prelude::*;
use crate::json::{Json, JsonV, spec_lookup, obj_entries_view};
use crate::str_bytes;

verus! {

/// Where an incoming document goes.
#[derive(Debug, PartialEq, Eq)]
pub enum Routing {
    /// An answer to a pending request; carries the `"@extra"` value.
    Reply(Vec<u8>),
    /// An update for the given client.
    Update(i64),
    /// Neither a reply nor a well-formed update.
    Unknown,
}

/// Abstract form of a routing decision.
pub enum RoutingV {
    Reply(Seq<u8>),
    Update(int),
    Unknown,
}

impl View for Routing {
    type V = RoutingV;

    open spec fn view(&self) -> RoutingV {
        match self {
            Routing::Reply(extra) => RoutingV::Reply(extra@),
            Routing::Update(id) => RoutingV::Update(*id as int),
            Routing::Unknown => RoutingV::Unknown,
        }
    }
}

/// The routing of a document: an `"@extra"` string makes it a reply; a
/// numeric `"@client_id"` makes it an update; anything else is unknown.
pub open spec fn spec_route(j: JsonV) -> RoutingV {
    match j {
        JsonV::Obj(entries) => match spec_lookup(entries, str_bytes("@extra")) {
            Option::Some(JsonV::Str(extra)) => RoutingV::Reply(extra),
            _ => match spec_lookup(entries, str_bytes("@client_id")) {
                Option::Some(JsonV::Num(n)) => RoutingV::Update(n),
                _ => RoutingV::Unknown,
            },
        },
        _ => RoutingV::Unknown,
    }
}

/// Route one incoming document.
pub fn route(j: &Json) -> (r: Routing)
    ensures
        r@ == spec_route(j@),
{
    let entries = match j {
        Json::Obj(entries) => entries,
        _ => {
            return Routing::Unknown;
        },
    };
    proof {
        crate::json::lemma_obj_entries_view(entries@);
    }
    match crate::json::lookup(entries, crate::lit("@extra").as_slice()) {
        Option::Some(Json::Str(extra)) => {
            return Routing::Reply(crate::copy_bytes(extra));
        },
        _ => {},
    }
    match crate::json::lookup(entries, crate::lit("@client_id").as_slice()) {
        Option::Some(Json::Num(n)) => Routing::Update(*n),
        _ => Routing::Unknown,
    }
}

/// The entries that survive attaching: everything but `"@extra"`.
pub open spec fn spec_keep(s: Seq<(Seq<u8>, JsonV)>) -> Seq<(Seq<u8>, JsonV)> {
    s.filter(|e: (Seq<u8>, JsonV)| e.0 != str_bytes("@extra"))
}

/// One step of the filter, from the front.
proof fn lemma_keep_step(s: Seq<(Seq<u8>, JsonV)>, i: int)
    requires
        0 <= i < s.len(),
    ensures
        spec_keep(s.take(i + 1)) == (if s[i].0 != str_bytes("@extra") {
            spec_keep(s.take(i)).push(s[i])
        } else {
            spec_keep(s.take(i))
        }),
{
    reveal_with_fuel(Seq::filter, 2);
    assert(s.take(i + 1).drop_last() =~= s.take(i));
    assert(s.take(i + 1).last() == s[i]);
}

/// The empty prefix keeps nothing.
proof fn lemma_keep_empty(s: Seq<(Seq<u8>, JsonV)>)
    ensures
        spec_keep(s.take(0int)) == Seq::<(Seq<u8>, JsonV)>::empty(),
{
    reveal_with_fuel(Seq::filter, 2);
    assert(s.take(0int) =~= Seq::<(Seq<u8>, JsonV)>::empty());
    assert(Seq::<(Seq<u8>, JsonV)>::empty().filter(
        |e: (Seq<u8>, JsonV)| e.0 != str_bytes("@extra"),
    ) =~= Seq::<(Seq<u8>, JsonV)>::empty());
}

/// The request with a correlation identifier attached: every earlier
/// `"@extra"` entry is dropped and one carrying `extra` is appended.  A
/// document that is not an object is left untouched.
pub open spec fn spec_attach_extra(j: JsonV, extra: Seq<u8>) -> JsonV {
    match j {
        JsonV::Obj(entries) => JsonV::Obj(
            spec_keep(entries).push((str_bytes("@extra"), JsonV::Str(extra))),
        ),
        _ => j,
    }
}

/// Attach a correlation identifier to an outgoing request.
pub fn attach_extra(j: Json, extra: Vec<u8>) -> (r: Json)
    ensures
        r@ == spec_attach_extra(j@, extra@),
{
    let entries = match j {
        Json::Obj(entries) => entries,
        other => {
            return other;
        },
    };
    let ghost ents = obj_entries_view(entries@);
    proof {
        crate::json::lemma_obj_entries_view(entries@);
        lemma_keep_empty(ents);
    }
    let mut kept: Vec<(Vec<u8>, Json)> = Vec::new();
    let mut i: usize = 0;
    while i < entries.len()
        invariant
            i <= entries@.len(),
            ents == obj_entries_view(entries@),
            ents.len() == entries@.len(),
            forall|k: int| 0 <= k < entries@.len() ==> ents[k] == (entries@[k].0@, entries@[k].1@),
            obj_entries_view(kept@) == spec_keep(ents.take(i as int)),
        decreases entries@.len() - i,
    {
        let ghost old_kept = kept@;
        let keep = !crate::bytes_eq(entries[i].0.as_slice(), crate::lit("@extra").as_slice());
        if keep {
            let key = crate::copy_bytes(&entries[i].0);
            let val = clone_json(&entries[i].1);
            kept.push((key, val));
        }
        proof {
            lemma_keep_step(ents, i as int);
            if keep {
                crate::json::lemma_obj_entries_view(old_kept);
                crate::json::lemma_obj_entries_view(kept@);
                assert(obj_entries_view(kept@) =~= obj_entries_view(old_kept).push(
                    ents[i as int],
                ));
            }
        }
        i = i + 1;
    }
    let ghost kept_before = kept@;
    kept.push((crate::lit("@extra"), Json::Str(extra)));
    proof {
        assert(ents.take(entries@.len() as int) =~= ents);
        crate::json::lemma_obj_entries_view(kept_before);
        crate::json::lemma_obj_entries_view(kept@);
        assert(obj_entries_view(kept@) =~= spec_keep(ents).push(
            (str_bytes("@extra"), JsonV::Str(extra@)),
        ));
    }
    Json::Obj(kept)
}

/// Copy a JSON document.
pub fn clone_json(j: &Json) -> (r: Json)
    ensures
        r@ == j@,
    decreases j,
{
    match j {
        Json::Bool(b) => Json::Bool(*b),
        Json::Num(n) => Json::Num(*n),
        Json::Str(s) => Json::Str(crate::copy_bytes(s)),
        Json::Arr(a) => {
            proof {
                assert(decreases_to!(*j => *a));
                assert(decreases_to!(*a => a@));
                crate::json::lemma_arr_elems_view(a@);
            }
            let mut out: Vec<Json> = Vec::new();
            let mut i: usize = 0;
            while i < a.len()
                invariant
                    decreases_to!(*j => a@),
                    i <= a@.len(),
                    out@.len() == i,
                    forall|k: int| 0 <= k < i ==> out@[k]@ == a@[k]@,
                decreases a@.len() - i,
            {
                proof {
                    assert(decreases_to!(a@ => a@[i as int]));
                }
                let e = clone_json(&a[i]);
                out.push(e);
                i = i + 1;
            }
            proof {
                crate::json::lemma_arr_elems_view(out@);
                crate::json::lemma_arr_elems_view(a@);
                assert(crate::json::arr_view(out) =~= crate::json::arr_view(*a));
            }
            Json::Arr(out)
        },
        Json::Obj(o) => {
            proof {
                assert(decreases_to!(*j => *o));
                assert(decreases_to!(*o => o@));
            }
            let mut out: Vec<(Vec<u8>, Json)> = Vec::new();
            let mut i: usize = 0;
            while i < o.len()
                invariant
                    decreases_to!(*j => o@),
                    i <= o@.len(),
                    out@.len() == i,
                    forall|k: int| 0 <= k < i ==> out@[k].0@ == o@[k].0@ && out@[k].1@ == o@[k].1@,
                decreases o@.len() - i,
            {
                proof {
                    assert(decreases_to!(o@ => o@[i as int]));
                    assert(decreases_to!(o@[i as int] => o@[i as int].1));
                }
                let key = crate::copy_bytes(&o[i].0);
                let val = clone_json(&o[i].1);
                out.push((key, val));
                i = i + 1;
            }
            proof {
                crate::json::lemma_obj_entries_view(out@);
                crate::json::lemma_obj_entries_view(o@);
                assert(crate::json::obj_view(out) =~= crate::json::obj_view(*o));
            }
            Json::Obj(out)
        },
    }
}

/// Relies on `uuid::Uuid::new_v4` and its hyphenated rendering: a fresh
/// random correlation identifier, always 36 ASCII bytes.  Nothing more
/// is assumed of a random value.
#[verifier::external_body]
fn fresh_uuid_bytes() -> (r: Vec<u8>)
    ensures
        r@.len() == 36,
{
    uuid::Uuid::new_v4().to_string().into_bytes()
}

/// Attach a fresh correlation identifier to an outgoing request and hand
/// it back beside the identifier, so the caller can await the reply
/// carrying the same `"@extra"` value.  Whatever identifier the source
/// yields, the envelope holds exactly it.
pub fn prepare_request(j: Json) -> (r: (Json, Vec<u8>))
    ensures
        r.1@.len() == 36,
        r.0@ == spec_attach_extra(j@, r.1@),
{
    let extra = fresh_uuid_bytes();
    let tagged = attach_extra(j, crate::copy_bytes(&extra));
    (tagged, extra)
}


/// The binding's view of the client instances created in this process.
/// The native layer allocates identifiers one after another; this model
/// tracks them so a fresh identifier is provably fresh.
pub struct ClientRegistry {
    /// The identifier the next client receives.
    pub next: i32,
    /// Every identifier handed out so far, in creation order.
    pub ids: Vec<i32>,
}

impl ClientRegistry {
    /// All handed-out identifiers lie below the next one.
    pub open spec fn wf(self) -> bool {
        forall|k: int| 0 <= k < self.ids@.len() ==> #[trigger] self.ids@[k] < self.next
    }

    /// A registry with no clients yet; identifiers start at 1, as the
    /// native layer's do.
    pub fn new() -> (r: ClientRegistry)
        ensures
            r.wf(),
            r.ids@.len() == 0,
            r.next == 1,
    {
        ClientRegistry { next: 1, ids: Vec::new() }
    }
}

/// Create a client: hand out the next identifier and record it.  The
/// identifier is fresh — it equals none handed out before.  The native
/// layer performs the matching instance creation.
pub fn create_client(reg: &mut ClientRegistry) -> (id: i32)
    requires
        old(reg).wf(),
        old(reg).next < 0x7fff_ffff,
    ensures
        final(reg).wf(),
        id == old(reg).next,
        final(reg).next == old(reg).next + 1,
        final(reg).ids@ == old(reg).ids@.push(id),
        forall|k: int| 0 <= k < old(reg).ids@.len() ==> #[trigger] old(reg).ids@[k] != id,
{
    let id = reg.next;
    reg.next = reg.next + 1;
    reg.ids.push(id);
    id
}

/// The log-forwarding policy: whether a callback is installed and up to
/// which verbosity it wants messages.
pub struct LogPolicy {
    /// Whether any callback is installed.
    pub enabled: bool,
    /// The maximum verbosity level forwarded.
    pub max_verbosity: i32,
}

/// Install or remove the log callback policy: messages are forwarded
/// only while a callback is set, and only up to the given verbosity.
/// The native layer registers or clears the actual callback to match.
pub fn set_log_message_callback(policy: &mut LogPolicy, max_verbosity_level: i32, enabled: bool)
    ensures
        final(policy).enabled == enabled,
        final(policy).max_verbosity == max_verbosity_level,
{
    policy.enabled = enabled;
    policy.max_verbosity = max_verbosity_level;
}

/// Whether a log message of the given verbosity reaches the callback:
/// exactly when one is installed and the level is within its bound.
pub fn should_forward_log(policy: &LogPolicy, verbosity_level: i32) -> (r: bool)
    ensures
        r == (policy.enabled && verbosity_level <= policy.max_verbosity),
{
    policy.enabled && verbosity_level <= policy.max_verbosity
}

} // verus!
