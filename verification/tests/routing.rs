//! Routing of incoming documents and the request envelope.

use tdgrand::client::{attach_extra, prepare_request, route, ClientRegistry, LogPolicy, Routing,
    should_forward_log};
use tdgrand::json::Json;
use tdgrand::{create_client, set_log_message_callback};

#[test]
fn client_identifiers_are_fresh_and_sequential() {
    let mut reg = ClientRegistry::new();
    let a = create_client(&mut reg);
    let b = create_client(&mut reg);
    let c = create_client(&mut reg);
    assert_eq!((a, b, c), (1, 2, 3));
    assert_eq!(reg.ids, vec![1, 2, 3]);
}

#[test]
fn log_policy_gates_forwarding() {
    let mut policy = LogPolicy { enabled: false, max_verbosity: 0 };
    set_log_message_callback(&mut policy, 2, true);
    assert!(should_forward_log(&policy, 1));
    assert!(should_forward_log(&policy, 2));
    assert!(!should_forward_log(&policy, 3));
    set_log_message_callback(&mut policy, 2, false);
    assert!(!should_forward_log(&policy, 1));
}

#[test]
fn a_document_with_an_extra_string_is_a_reply() {
    let j = Json::Obj(vec![
        (b"@type".to_vec(), Json::Str(b"ok".to_vec())),
        (b"@extra".to_vec(), Json::Str(b"abc".to_vec())),
    ]);
    assert_eq!(route(&j), Routing::Reply(b"abc".to_vec()));
}

#[test]
fn a_document_with_a_client_id_is_an_update() {
    let j = Json::Obj(vec![
        (b"@type".to_vec(), Json::Str(b"updateOption".to_vec())),
        (b"@client_id".to_vec(), Json::Num(3)),
    ]);
    assert_eq!(route(&j), Routing::Update(3));
}

#[test]
fn anything_else_is_unknown() {
    assert_eq!(route(&Json::Num(1)), Routing::Unknown);
    let j = Json::Obj(vec![(b"@type".to_vec(), Json::Str(b"x".to_vec()))]);
    assert_eq!(route(&j), Routing::Unknown);
    // An "@extra" that is not a string does not make a reply.
    let j = Json::Obj(vec![(b"@extra".to_vec(), Json::Num(9))]);
    assert_eq!(route(&j), Routing::Unknown);
}

#[test]
fn attach_extra_replaces_earlier_correlation_entries() {
    let j = Json::Obj(vec![
        (b"@type".to_vec(), Json::Str(b"getMe".to_vec())),
        (b"@extra".to_vec(), Json::Str(b"old".to_vec())),
    ]);
    let tagged = attach_extra(j, b"new".to_vec());
    assert_eq!(
        tagged,
        Json::Obj(vec![
            (b"@type".to_vec(), Json::Str(b"getMe".to_vec())),
            (b"@extra".to_vec(), Json::Str(b"new".to_vec())),
        ])
    );
}

#[test]
fn prepare_request_attaches_a_fresh_identifier() {
    let j = Json::Obj(vec![(b"@type".to_vec(), Json::Str(b"getMe".to_vec()))]);
    let (tagged, extra) = prepare_request(j);
    assert_eq!(extra.len(), 36);
    match tagged {
        Json::Obj(entries) => {
            assert_eq!(entries.len(), 2);
            assert_eq!(entries[1].0, b"@extra".to_vec());
            assert_eq!(entries[1].1, Json::Str(extra.clone()));
        },
        _ => panic!("expected an object"),
    }
    // A second envelope draws a different identifier.
    let j2 = Json::Obj(vec![(b"@type".to_vec(), Json::Str(b"getMe".to_vec()))]);
    let (_, extra2) = prepare_request(j2);
    assert_ne!(extra, extra2);
}
