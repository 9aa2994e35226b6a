use atlas_idl_schema::schema::{SchemaNode, SchemaType, SmallVecLen};
use atlas_idl_schema::value::TypedValue;

#[test]
fn smallvec_u8_of_u8_returns_bytes() {
    let ty = SchemaType::SmallVec(SmallVecLen::U8, Box::new(SchemaType::U8));
    let buf: &[u8] = &[3, 10, 11, 12]; // len=3, payload 10,11,12
    let (v, consumed) = ty.deserialize_bytes(buf, 0, false).expect("ok");
    match v {
        TypedValue::Bytes(b) => assert_eq!(b, vec![10, 11, 12]),
        other => panic!("expected Bytes, got {:?}", other),
    }
    assert!(consumed == buf.len(), "buffer fully consumed");
}

#[test]
fn smallvec_u16_of_u8_returns_bytes() {
    let ty = SchemaType::SmallVec(SmallVecLen::U16, Box::new(SchemaType::U8));
    let buf: &[u8] = &[3, 0, 9, 8, 7]; // len=3 (LE), payload 9,8,7
    let (v, consumed) = ty.deserialize_bytes(buf, 0, false).expect("ok");
    match v {
        TypedValue::Bytes(b) => assert_eq!(b, vec![9, 8, 7]),
        other => panic!("expected Bytes, got {:?}", other),
    }
    assert!(consumed == buf.len(), "buffer fully consumed");
}

#[test]
fn smallvec_u8_of_pubkey_returns_vec_of_pubkeys() {
    let ty = SchemaType::SmallVec(SmallVecLen::U8, Box::new(SchemaType::Pubkey));

    let pk1 = [1u8; 32];
    let pk2 = [2u8; 32];
    let mut bytes = Vec::with_capacity(1 + 64);
    bytes.push(2u8); // len
    bytes.extend_from_slice(&pk1);
    bytes.extend_from_slice(&pk2);

    let (v, consumed) = ty.deserialize_bytes(bytes.as_slice(), 0, false).expect("ok");
    let expect1 = solana_program::pubkey::Pubkey::new_from_array(pk1).to_string();
    let expect2 = solana_program::pubkey::Pubkey::new_from_array(pk2).to_string();

    match v {
        TypedValue::Vec(items) => {
            assert_eq!(items.len(), 2);
            match (&items[0], &items[1]) {
                (TypedValue::Pubkey(a), TypedValue::Pubkey(b)) => {
                    assert_eq!(a, &expect1);
                    assert_eq!(b, &expect2);
                }
                other => panic!("expected Vec<Pubkey>, got {:?}", other),
            }
        }
        other => panic!("expected Vec, got {:?}", other),
    }
    assert!(consumed == bytes.len(), "buffer fully consumed");
}

#[test]
fn vec_u8_returns_bytes() {
    let ty = SchemaType::vec(SchemaType::U8);
    let buf: &[u8] = &[3, 0, 0, 0, 10, 11, 12];
    let (v, consumed) = ty.deserialize_bytes(buf, 0, false).expect("ok");
    match v {
        TypedValue::Bytes(b) => assert_eq!(b, vec![10, 11, 12]),
        other => panic!("expected Bytes, got {:?}", other),
    }
    assert!(consumed == buf.len(), "buffer fully consumed");
}

#[test]
fn remaining_bytes_consumes_everything() {
    let ty = SchemaType::RemainingBytes;
    let buf: &[u8] = &[1, 2, 3, 4, 5];
    let (v, consumed) = ty.deserialize_bytes(buf, 0, false).expect("ok");
    match v {
        TypedValue::Bytes(b) => assert_eq!(b, vec![1, 2, 3, 4, 5]),
        other => panic!("expected Bytes, got {:?}", other),
    }
    assert_eq!(consumed, buf.len());
}

#[test]
fn short_buffer_fails() {
    let ty = SchemaType::U64;
    let buf: &[u8] = &[1, 2, 3];
    assert!(ty.deserialize_bytes(buf, 0, false).is_err());
}

#[test]
fn invalid_bool_byte_fails() {
    let ty = SchemaType::Bool;
    assert!(ty.deserialize_bytes(&[2u8], 0, false).is_err());
    let (v, _) = ty.deserialize_bytes(&[1u8], 0, false).unwrap();
    assert!(matches!(v, TypedValue::Bool(true)));
    let (v, _) = ty.deserialize_bytes(&[0u8], 0, false).unwrap();
    assert!(matches!(v, TypedValue::Bool(false)));
}

#[test]
fn enum_selector_out_of_range_fails() {
    let ty = SchemaType::Enum(vec![
        SchemaNode::new("A", SchemaType::Empty),
        SchemaNode::new("B", SchemaType::U8),
    ]);
    assert!(ty.deserialize_bytes(&[2u8], 0, false).is_err());
    let (v, _) = ty.deserialize_bytes(&[1u8, 7u8], 0, false).unwrap();
    match v {
        TypedValue::Enum(node) => {
            assert_eq!(node.name, "B");
            assert!(matches!(node.value, TypedValue::U8(7)));
        }
        other => panic!("expected Enum, got {:?}", other),
    }
}

#[test]
fn hidden_struct_field_excluded_unless_requested() {
    let ty = SchemaType::Struct(vec![
        SchemaNode {
            name: "visible".to_string(),
            typ: SchemaType::U8,
            is_hidden: false,
        },
        SchemaNode {
            name: "secret".to_string(),
            typ: SchemaType::U8,
            is_hidden: true,
        },
    ]);
    let buf: &[u8] = &[7, 9];

    let (v, consumed) = ty.deserialize_bytes(buf, 0, false).expect("ok");
    assert_eq!(consumed, 2, "hidden fields still consume their bytes");
    match v {
        TypedValue::Struct(fields) => {
            assert_eq!(fields.len(), 1);
            assert_eq!(fields[0].name, "visible");
        }
        other => panic!("expected Struct, got {:?}", other),
    }

    let (v, _) = ty.deserialize_bytes(buf, 0, true).expect("ok");
    match v {
        TypedValue::Struct(fields) => {
            assert_eq!(fields.len(), 2);
            assert_eq!(fields[1].name, "secret");
            assert!(matches!(fields[1].value, TypedValue::U8(9)));
        }
        other => panic!("expected Struct, got {:?}", other),
    }
}

#[test]
fn hidden_enum_variant_always_fails_without_request() {
    let ty = SchemaType::Enum(vec![SchemaNode {
        name: "Secret".to_string(),
        typ: SchemaType::U8,
        is_hidden: true,
    }]);
    assert!(ty.deserialize_bytes(&[0u8, 5u8], 0, false).is_err());
    // With hidden output requested, the variant decodes.
    let (v, _) = ty.deserialize_bytes(&[0u8, 5u8], 0, true).unwrap();
    assert!(matches!(v, TypedValue::Enum(_)));
}

#[test]
fn string_decodes_utf8() {
    let ty = SchemaType::String;
    let buf: &[u8] = &[3, 0, 0, 0, b'a', b'b', b'c'];
    let (v, consumed) = ty.deserialize_bytes(buf, 0, false).expect("ok");
    match v {
        TypedValue::String(s) => assert_eq!(s, "abc"),
        other => panic!("expected String, got {:?}", other),
    }
    assert_eq!(consumed, buf.len());
}

#[test]
fn string_rejects_invalid_utf8() {
    let ty = SchemaType::String;
    let buf: &[u8] = &[2, 0, 0, 0, 0xff, 0xfe];
    assert!(ty.deserialize_bytes(buf, 0, false).is_err());
}

#[test]
fn signed_integers_read_twos_complement() {
    let (v, _) = SchemaType::I16.deserialize_bytes(&[0xff, 0xff], 0, false).unwrap();
    assert!(matches!(v, TypedValue::I16(-1)));
    let (v, _) = SchemaType::I8.deserialize_bytes(&[0x80], 0, false).unwrap();
    assert!(matches!(v, TypedValue::I8(-128)));
    let (v, _) = SchemaType::I64
        .deserialize_bytes(&(-5i64).to_le_bytes(), 0, false)
        .unwrap();
    assert!(matches!(v, TypedValue::I64(-5)));
}

#[test]
fn option_reads_presence_flag() {
    let ty = SchemaType::option(SchemaType::U16);
    let (v, consumed) = ty.deserialize_bytes(&[1, 7, 0], 0, false).unwrap();
    match v {
        TypedValue::Option(inner) => match *inner {
            Some(TypedValue::U16(7)) => {}
            other => panic!("expected Some(U16(7)), got {:?}", other),
        },
        other => panic!("expected Option, got {:?}", other),
    }
    assert_eq!(consumed, 3);

    let (v, consumed) = ty.deserialize_bytes(&[0], 0, false).unwrap();
    match v {
        TypedValue::Option(inner) => assert!(inner.is_none()),
        other => panic!("expected Option, got {:?}", other),
    }
    assert_eq!(consumed, 1);
}
