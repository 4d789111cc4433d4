//! The generator observed on concrete schemas: grouping, identifier
//! resolution, determinism, uniqueness and the no-emit special cases.

use tdgrand::{generate_rust_code, GenError};
use tdgrand::grouper::group;
use tdgrand::metadata::Metadata;
use tdgrand::rustifier::{camel, snake, Resolver, Scope};
use tdgrand::tl::{Category, Definition, Parameter, Ty};

fn ty(name: &str) -> Ty {
    Ty { namespace: Vec::new(), name: name.as_bytes().to_vec(), arg: None }
}

fn def(name: &str, params: Vec<Parameter>, result: &str, category: Category) -> Definition {
    Definition {
        namespace: Vec::new(),
        name: name.as_bytes().to_vec(),
        params,
        result: ty(result),
        category,
    }
}

fn param(name: &str, t: Ty) -> Parameter {
    Parameter { name: name.as_bytes().to_vec(), ty: t }
}

const HEADER: &str = "// Copyright 2021 - developers of the `tdgrand` project.\n// Copyright 2020 - developers of the `grammers` project.\n//\n// Licensed under the Apache License, Version 2.0 <LICENSE-APACHE or\n// https://www.apache.org/licenses/LICENSE-2.0> or the MIT license\n// <LICENSE-MIT or https://opensource.org/licenses/MIT>, at your\n// option. This file may not be copied, modified, or distributed\n// except according to those terms.\n";

#[test]
fn casing_helpers() {
    assert_eq!(camel(b"updateNewMessage"), b"UpdateNewMessage".to_vec());
    assert_eq!(camel(b""), b"".to_vec());
    assert_eq!(snake(b"updateNewMessage"), b"update_new_message".to_vec());
    assert_eq!(snake(b"id"), b"id".to_vec());
}

#[test]
fn reserved_words_are_escaped() {
    let mut r = Resolver::new();
    let ns: Vec<Vec<u8>> = Vec::new();
    let id = r.resolve(&ns, b"type", Scope::Field).unwrap();
    assert_eq!(id, b"type_".to_vec());
}

#[test]
fn resolution_is_memoized_per_schema_name() {
    let mut r = Resolver::new();
    let ns: Vec<Vec<u8>> = Vec::new();
    let a = r.resolve(&ns, b"chatId", Scope::Field).unwrap();
    let b = r.resolve(&ns, b"chatId", Scope::Field).unwrap();
    assert_eq!(a, b);
    assert_eq!(a, b"chat_id".to_vec());
}

#[test]
fn colliding_names_disambiguate_by_namespace_or_fail() {
    // Two schema names that normalize to one identifier in one scope.
    let mut r = Resolver::new();
    let ns: Vec<Vec<u8>> = Vec::new();
    let first = r.resolve(&ns, b"sendMessage", Scope::Variant).unwrap();
    assert_eq!(first, b"SendMessage".to_vec());
    let messages_ns: Vec<Vec<u8>> = vec![b"messages".to_vec()];
    let second = r.resolve(&messages_ns, b"SendMessage", Scope::Variant).unwrap();
    assert_eq!(second, b"SendMessage_Messages".to_vec());
    assert_ne!(first, second);
    // Without a namespace to lean on, resolution reports both names.
    let mut fresh = Resolver::new();
    fresh.resolve(&ns, b"sendMessage", Scope::Variant).unwrap();
    let err = fresh.resolve(&ns, b"SendMessage", Scope::Variant);
    assert!(err.is_err());
    let c = err.err().unwrap();
    assert_eq!(c.existing, b"sendMessage".to_vec());
    assert_eq!(c.incoming, b"SendMessage".to_vec());
}

#[test]
fn namespaced_names_are_distinct_schema_names() {
    // Two constructors alike in bare name but in different namespaces
    // are two schema names: never one memo entry, never one identifier.
    let mut r = Resolver::new();
    let ns_a: Vec<Vec<u8>> = vec![b"a".to_vec()];
    let ns_b: Vec<Vec<u8>> = vec![b"b".to_vec()];
    let first = r.resolve(&ns_a, b"foo", Scope::Variant).unwrap();
    let second = r.resolve(&ns_b, b"foo", Scope::Variant).unwrap();
    assert_eq!(first, b"Foo".to_vec());
    assert_eq!(second, b"Foo_B".to_vec());
    assert_ne!(first, second);
    // Asking again for either full name recalls its own identifier.
    assert_eq!(r.resolve(&ns_a, b"foo", Scope::Variant).unwrap(), b"Foo".to_vec());
    assert_eq!(r.resolve(&ns_b, b"foo", Scope::Variant).unwrap(), b"Foo_B".to_vec());
}

#[test]
fn namespaced_constructors_generate_two_distinct_records() {
    let defs = vec![
        Definition {
            namespace: vec![b"a".to_vec()],
            name: b"foo".to_vec(),
            params: Vec::new(),
            result: ty("T"),
            category: Category::Types,
        },
        Definition {
            namespace: vec![b"b".to_vec()],
            name: b"foo".to_vec(),
            params: Vec::new(),
            result: ty("T"),
            category: Category::Types,
        },
    ];
    let out = String::from_utf8(generate_rust_code(&defs).unwrap()).unwrap();
    assert!(out.contains("// Wire tag \"a.foo\".\npub struct Foo {"));
    assert!(out.contains("// Wire tag \"b.foo\".\npub struct Foo_B {"));
    assert!(out.contains("    Foo(crate::types::Foo),\n    Foo_B(crate::types::Foo_B),"));
}

#[test]
fn more_reserved_words_are_escaped() {
    let mut r = Resolver::new();
    let ns: Vec<Vec<u8>> = Vec::new();
    assert_eq!(r.resolve(&ns, b"in", Scope::Field).unwrap(), b"in_".to_vec());
    assert_eq!(r.resolve(&ns, b"const", Scope::Field).unwrap(), b"const_".to_vec());
    assert_eq!(r.resolve(&ns, b"self", Scope::Type).unwrap(), b"Self_".to_vec());
    // Two keywords the source spells only as bytes.
    let kw1: Vec<u8> = vec![101, 120, 116, 101, 114, 110];
    let mut escaped1 = kw1.clone();
    escaped1.push(95);
    assert_eq!(r.resolve(&ns, &kw1, Scope::Field).unwrap(), escaped1);
    let kw2: Vec<u8> = vec![117, 110, 115, 97, 102, 101];
    let mut escaped2 = kw2.clone();
    escaped2.push(95);
    assert_eq!(r.resolve(&ns, &kw2, Scope::Field).unwrap(), escaped2);
}

#[test]
fn generation_fails_whole_run_on_unresolvable_collision() {
    let defs = vec![
        def("sendMessage", vec![], "Ok", Category::Types),
        def("SendMessage", vec![], "Ok", Category::Types),
    ];
    let r = generate_rust_code(&defs);
    match r {
        Err(GenError::Collision(c)) => {
            assert_eq!(c.existing, b"sendMessage".to_vec());
            assert_eq!(c.incoming, b"SendMessage".to_vec());
        },
        _ => panic!("expected a collision"),
    }
}

#[test]
fn dangling_field_reference_fails_the_run() {
    let defs = vec![
        def("ok", vec![param("mystery", ty("Ghostly"))], "Ok", Category::Types),
    ];
    match generate_rust_code(&defs) {
        Err(GenError::Dangling(definition, referenced)) => {
            assert_eq!(definition, b"ok".to_vec());
            assert_eq!(referenced, b"Ghostly".to_vec());
        },
        _ => panic!("expected a dangling-reference failure"),
    }
}

#[test]
fn dangling_function_result_fails_the_run() {
    let defs = vec![
        def("ok", vec![], "Ok", Category::Types),
        def("probe", vec![], "Nowhere", Category::Functions),
    ];
    match generate_rust_code(&defs) {
        Err(GenError::Dangling(definition, referenced)) => {
            assert_eq!(definition, b"probe".to_vec());
            assert_eq!(referenced, b"Nowhere".to_vec());
        },
        _ => panic!("expected a dangling-reference failure"),
    }
    // A special-cased or known result is fine.
    let good = vec![
        def("ok", vec![], "Ok", Category::Types),
        def("probe", vec![], "Ok", Category::Functions),
        def("count", vec![], "Int32", Category::Functions),
    ];
    assert!(generate_rust_code(&good).is_ok());
}

#[test]
fn groups_follow_first_appearance_and_schema_order() {
    let defs = vec![
        def("a1", vec![], "A", Category::Types),
        def("b1", vec![], "B", Category::Types),
        def("a2", vec![], "A", Category::Types),
        def("boolFake", vec![], "Bool", Category::Types),
        def("f", vec![], "A", Category::Functions),
    ];
    let gs = group(&defs);
    assert_eq!(gs.len(), 2);
    assert_eq!(gs[0].name, b"A".to_vec());
    assert_eq!(gs[0].ctors, vec![0usize, 2usize]);
    assert_eq!(gs[1].name, b"B".to_vec());
    assert_eq!(gs[1].ctors, vec![1usize]);
}

#[test]
fn metadata_indexes_constructors_and_no_emit_names() {
    let defs = vec![
        def("a1", vec![], "A", Category::Types),
        def("a2", vec![], "A", Category::Types),
    ];
    let meta = Metadata::new(&defs);
    let g = meta.constructors_of(b"A").unwrap();
    assert_eq!(g.ctors, vec![0usize, 1usize]);
    assert!(meta.constructors_of(b"B").is_none());
    assert!(meta.is_no_emit(b"Int64"));
    assert!(meta.is_no_emit(b"Bool"));
    assert!(!meta.is_no_emit(b"Message"));
}

#[test]
fn generation_is_deterministic() {
    let mk = || {
        vec![
            def("ok", vec![], "Ok", Category::Types),
            def("getOk", vec![param("flag", ty("Bool"))], "Ok", Category::Functions),
        ]
    };
    let one = generate_rust_code(&mk()).unwrap();
    let two = generate_rust_code(&mk()).unwrap();
    assert_eq!(one, two);
}

#[test]
fn generated_output_is_exact() {
    let defs = vec![
        def("ok", vec![], "Ok", Category::Types),
        def(
            "getOk",
            vec![param("flag", ty("Bool")), param("names", Ty {
                namespace: Vec::new(),
                name: b"vector".to_vec(),
                arg: Some(Box::new(ty("string"))),
            })],
            "Ok",
            Category::Functions,
        ),
    ];
    let out = generate_rust_code(&defs).unwrap();
    let expected = format!(
        "{}{}{}{}{}{}",
        HEADER,
        "\npub mod types {\n\n// Wire tag \"ok\".\npub struct Ok {\n}\n}\n",
        HEADER,
        "\npub mod enums {\n\npub enum Ok {\n    Ok(crate::types::Ok),\n}\n}\n",
        HEADER,
        "\npub mod functions {\n\n// Wire tag \"getOk\".\npub struct GetOk {\n    pub flag: bool,\n    pub names: Vec<String>,\n}\npub type GetOkResponse = crate::enums::Ok;\n}\n"
    );
    assert_eq!(String::from_utf8(out).unwrap(), expected);
}

#[test]
fn no_emit_special_cases_give_empty_units() {
    let defs = vec![
        def("boolTrue", vec![], "Bool", Category::Types),
        def("bytes", vec![], "Bytes", Category::Types),
        def("int32", vec![], "Int32", Category::Types),
        def("int53", vec![], "Int53", Category::Types),
        def("int64", vec![], "Int64", Category::Types),
    ];
    let out = generate_rust_code(&defs).unwrap();
    let expected = format!(
        "{}{}{}{}{}{}",
        HEADER,
        "\npub mod types {\n}\n",
        HEADER,
        "\npub mod enums {\n}\n",
        HEADER,
        "\npub mod functions {\n}\n"
    );
    assert_eq!(String::from_utf8(out).unwrap(), expected);
}

#[test]
fn empty_schema_generates_empty_units() {
    let defs: Vec<Definition> = Vec::new();
    let out = generate_rust_code(&defs).unwrap();
    let text = String::from_utf8(out).unwrap();
    assert!(text.contains("\npub mod types {\n}\n"));
    assert!(text.contains("\npub mod enums {\n}\n"));
    assert!(text.ends_with("\npub mod functions {\n}\n"));
}
