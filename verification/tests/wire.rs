//! The wire codec observed on concrete values: scalar encodings, round
//! trips, tag dispatch and the failure cases.

use tdgrand::codec::{decode, encode, Value, WireError};
use tdgrand::grouper::group;
use tdgrand::json::Json;
use tdgrand::tl::{Category, Definition, Parameter, Ty};

fn ty(name: &str) -> Ty {
    Ty { namespace: Vec::new(), name: name.as_bytes().to_vec(), arg: None }
}

fn vec_of(inner: Ty) -> Ty {
    Ty { namespace: Vec::new(), name: b"vector".to_vec(), arg: Some(Box::new(inner)) }
}

fn ctor(name: &str, params: Vec<Parameter>, result: &str) -> Definition {
    Definition {
        namespace: Vec::new(),
        name: name.as_bytes().to_vec(),
        params,
        result: ty(result),
        category: Category::Types,
    }
}

fn param(name: &str, t: Ty) -> Parameter {
    Parameter { name: name.as_bytes().to_vec(), ty: t }
}

fn schema() -> Vec<Definition> {
    vec![
        ctor(
            "pack",
            vec![
                param("on", ty("Bool")),
                param("count", ty("Int32")),
                param("safe", ty("Int53")),
                param("big", ty("Int64")),
                param("blob", ty("Bytes")),
                param("text", ty("string")),
                param("tags", vec_of(ty("string"))),
            ],
            "Pack",
        ),
        ctor("leafA", vec![param("inner", ty("Pack"))], "Leaf"),
        ctor("leafB", vec![], "Leaf"),
    ]
}

#[test]
fn int64_max_encodes_as_decimal_string() {
    let j = encode(&Value::Int64(9223372036854775807));
    assert_eq!(j, Json::Str(b"9223372036854775807".to_vec()));
}

#[test]
fn int64_min_round_trips() {
    let defs = schema();
    let groups = group(&defs);
    let j = encode(&Value::Int64(i64::MIN));
    assert_eq!(j, Json::Str(b"-9223372036854775808".to_vec()));
    let back = decode(&defs, &groups, &ty("Int64"), &j).unwrap();
    assert_eq!(back, Value::Int64(i64::MIN));
}

#[test]
fn int53_two_pow_53_encodes_as_bare_number() {
    let j = encode(&Value::Int53(9007199254740992));
    assert_eq!(j, Json::Num(9007199254740992));
}

#[test]
fn bytes_encode_as_base64_string() {
    assert_eq!(encode(&Value::Bytes(vec![])), Json::Str(b"".to_vec()));
    assert_eq!(encode(&Value::Bytes(b"f".to_vec())), Json::Str(b"Zg==".to_vec()));
    assert_eq!(encode(&Value::Bytes(b"fo".to_vec())), Json::Str(b"Zm8=".to_vec()));
    assert_eq!(encode(&Value::Bytes(b"foo".to_vec())), Json::Str(b"Zm9v".to_vec()));
    assert_eq!(encode(&Value::Bytes(b"foobar".to_vec())), Json::Str(b"Zm9vYmFy".to_vec()));
}

fn sample_pack() -> Value {
    Value::Record(
        b"pack".to_vec(),
        vec![
            (b"on".to_vec(), Value::Bool(true)),
            (b"count".to_vec(), Value::Int32(-7)),
            (b"safe".to_vec(), Value::Int53(9007199254740992)),
            (b"big".to_vec(), Value::Int64(9223372036854775807)),
            (b"blob".to_vec(), Value::Bytes(vec![0, 255, 16])),
            (b"text".to_vec(), Value::Text(b"hello".to_vec())),
            (
                b"tags".to_vec(),
                Value::Vector(vec![
                    Value::Text(b"a".to_vec()),
                    Value::Text(b"b".to_vec()),
                ]),
            ),
        ],
    )
}

#[test]
fn record_round_trips_with_nesting_and_vectors() {
    let defs = schema();
    let groups = group(&defs);
    let v = Value::Record(
        b"leafA".to_vec(),
        vec![(b"inner".to_vec(), sample_pack())],
    );
    let j = encode(&v);
    let back = decode(&defs, &groups, &ty("Leaf"), &j).unwrap();
    assert_eq!(back, v);
}

#[test]
fn empty_record_round_trips() {
    let defs = schema();
    let groups = group(&defs);
    let v = Value::Record(b"leafB".to_vec(), vec![]);
    let j = encode(&v);
    assert_eq!(decode(&defs, &groups, &ty("Leaf"), &j).unwrap(), v);
}

#[test]
fn tag_is_first_entry_and_exact_schema_name() {
    let j = encode(&sample_pack());
    match j {
        Json::Obj(entries) => {
            assert_eq!(entries[0].0, b"@type".to_vec());
            assert_eq!(entries[0].1, Json::Str(b"pack".to_vec()));
        },
        _ => panic!("expected an object"),
    }
}

#[test]
fn unknown_tag_fails_with_unrecognized_variant() {
    let defs = schema();
    let groups = group(&defs);
    let j = Json::Obj(vec![(b"@type".to_vec(), Json::Str(b"leafC".to_vec()))]);
    let r = decode(&defs, &groups, &ty("Leaf"), &j);
    assert_eq!(r, Err(WireError::UnrecognizedVariant(b"leafC".to_vec())));
}

#[test]
fn unknown_abstract_type_fails_with_unrecognized_variant() {
    let defs = schema();
    let groups = group(&defs);
    let j = Json::Obj(vec![(b"@type".to_vec(), Json::Str(b"mystery".to_vec()))]);
    let r = decode(&defs, &groups, &ty("Opaque"), &j);
    assert_eq!(r, Err(WireError::UnrecognizedVariant(b"mystery".to_vec())));
}

#[test]
fn malformed_shapes_are_rejected() {
    let defs = schema();
    let groups = group(&defs);
    // A number where a Bool is expected.
    assert_eq!(decode(&defs, &groups, &ty("Bool"), &Json::Num(1)), Err(WireError::Malformed));
    // An Int32 out of range.
    assert_eq!(
        decode(&defs, &groups, &ty("Int32"), &Json::Num(2147483648)),
        Err(WireError::Malformed)
    );
    // An Int64 string beyond the 64-bit range.
    assert_eq!(
        decode(&defs, &groups, &ty("Int64"), &Json::Str(b"9223372036854775808".to_vec())),
        Err(WireError::Malformed)
    );
    // A non-digit Int64 string.
    assert_eq!(
        decode(&defs, &groups, &ty("Int64"), &Json::Str(b"12a".to_vec())),
        Err(WireError::Malformed)
    );
    // Broken base64.
    assert_eq!(
        decode(&defs, &groups, &ty("Bytes"), &Json::Str(b"Zg=".to_vec())),
        Err(WireError::Malformed)
    );
    // A record missing its field.
    let j = Json::Obj(vec![(b"@type".to_vec(), Json::Str(b"leafA".to_vec()))]);
    assert_eq!(decode(&defs, &groups, &ty("Leaf"), &j), Err(WireError::Malformed));
    // A record with an extra field.
    let j = Json::Obj(vec![
        (b"@type".to_vec(), Json::Str(b"leafB".to_vec())),
        (b"stray".to_vec(), Json::Num(0)),
    ]);
    assert_eq!(decode(&defs, &groups, &ty("Leaf"), &j), Err(WireError::Malformed));
}

#[test]
fn tag_anywhere_dispatches_but_only_canonical_shape_decodes() {
    let defs = schema();
    let groups = group(&defs);
    // An unknown tag standing after other entries still classifies as
    // UnrecognizedVariant, never as some variant.
    let j = Json::Obj(vec![
        (b"x".to_vec(), Json::Num(1)),
        (b"@type".to_vec(), Json::Str(b"nope".to_vec())),
    ]);
    assert_eq!(
        decode(&defs, &groups, &ty("Leaf"), &j),
        Err(WireError::UnrecognizedVariant(b"nope".to_vec()))
    );
    // A known tag standing elsewhere: the canonical encoded shape puts
    // the tag first, so this decodes as Malformed - still no variant.
    let j2 = Json::Obj(vec![
        (b"x".to_vec(), Json::Num(1)),
        (b"@type".to_vec(), Json::Str(b"leafB".to_vec())),
    ]);
    assert_eq!(decode(&defs, &groups, &ty("Leaf"), &j2), Err(WireError::Malformed));
}

#[test]
fn namespaced_constructors_dispatch_by_full_name() {
    let defs = vec![
        Definition {
            namespace: vec![b"a".to_vec()],
            name: b"foo".to_vec(),
            params: Vec::new(),
            result: ty("T"),
            category: Category::Types,
        },
        Definition {
            namespace: vec![b"b".to_vec()],
            name: b"foo".to_vec(),
            params: Vec::new(),
            result: ty("T"),
            category: Category::Types,
        },
    ];
    let groups = group(&defs);
    let j = Json::Obj(vec![(b"@type".to_vec(), Json::Str(b"b.foo".to_vec()))]);
    assert_eq!(
        decode(&defs, &groups, &ty("T"), &j).unwrap(),
        Value::Record(b"b.foo".to_vec(), Vec::new())
    );
    // The bare name matches no wire tag of the group.
    let j2 = Json::Obj(vec![(b"@type".to_vec(), Json::Str(b"foo".to_vec()))]);
    assert_eq!(
        decode(&defs, &groups, &ty("T"), &j2),
        Err(WireError::UnrecognizedVariant(b"foo".to_vec()))
    );
}

#[test]
fn decoding_agrees_with_serde_json_parsing_of_the_same_document() {
    // Cross-check the modelled document against an off-the-shelf JSON
    // parser: the encoded Int64 really is a string, the Int53 a number.
    let j = encode(&sample_pack());
    let rendered = match &j {
        Json::Obj(entries) => {
            let mut m = serde_json::Map::new();
            for (k, v) in entries {
                let key = String::from_utf8(k.clone()).unwrap();
                let val = match v {
                    Json::Bool(b) => serde_json::Value::Bool(*b),
                    Json::Num(n) => serde_json::Value::Number((*n).into()),
                    Json::Str(s) => {
                        serde_json::Value::String(String::from_utf8(s.clone()).unwrap())
                    },
                    Json::Arr(_) => serde_json::Value::Array(Vec::new()),
                    Json::Obj(_) => serde_json::Value::Object(serde_json::Map::new()),
                };
                m.insert(key, val);
            }
            serde_json::Value::Object(m)
        },
        _ => panic!("expected an object"),
    };
    assert_eq!(rendered["@type"], serde_json::Value::String("pack".to_string()));
    assert!(rendered["big"].is_string());
    assert_eq!(rendered["big"], serde_json::Value::String("9223372036854775807".to_string()));
    assert!(rendered["safe"].is_number());
    assert_eq!(rendered["safe"], serde_json::Value::Number(9007199254740992i64.into()));
}
