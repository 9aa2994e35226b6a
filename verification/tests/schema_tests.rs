use atlas_idl_schema::schema::{SchemaNode, SchemaType, SmallVecLen};
use atlas_idl_schema::value::{TypedValue, ValueNode};

#[test]
fn identical_after_serialization() {
    let market_size_params_struct = SchemaNode::new_struct(
        "MarketSizeParams",
        vec![
            ("bidsSize", SchemaType::U64),
            ("asksSize", SchemaType::U64),
            ("numSeats", SchemaType::U64),
        ],
    );

    let schema = SchemaNode::new_struct(
        "InitializeParams",
        vec![
            ("marketSizeParams", market_size_params_struct.typ),
            ("numQuoteLotsPerQuoteUnit", SchemaType::U64),
            ("tickSizeInQuoteLotsPerBaseUnit", SchemaType::U64),
            ("numBaseLotsPerBaseUnit", SchemaType::U64),
            ("takerFeeBps", SchemaType::U16),
            ("feeCollector", SchemaType::Pubkey),
            ("rawBaseUnitsPerBaseUnit", SchemaType::option(SchemaType::U32)),
        ],
    );
    let serialized = schema.to_wire_bytes();
    let (deserialized, consumed) = SchemaNode::wire_decode(serialized.as_slice(), 0).unwrap();
    assert_eq!(consumed, serialized.len());
    assert_eq!(schema, deserialized);
}

#[test]
fn deserialize_market_size_params() {
    let market_size_params_struct = SchemaNode::new_struct(
        "MarketSizeParams",
        vec![
            ("bidsSize", SchemaType::U64),
            ("asksSize", SchemaType::U64),
            ("numSeats", SchemaType::U64),
        ],
    );

    let mut serialized_data: Vec<u8> = Vec::new();
    serialized_data.extend_from_slice(&100u64.to_le_bytes());
    serialized_data.extend_from_slice(&50u64.to_le_bytes());
    serialized_data.extend_from_slice(&10u64.to_le_bytes());

    let (node, consumed) = market_size_params_struct
        .deserialize_bytes(serialized_data.as_slice(), 0, true)
        .unwrap();
    let deserialized_data = node.unwrap();
    assert_eq!(consumed, serialized_data.len());

    assert_eq!(
        deserialized_data,
        ValueNode::new_struct(
            "MarketSizeParams",
            vec![
                ("bidsSize", TypedValue::U64(100)),
                ("asksSize", TypedValue::U64(50)),
                ("numSeats", TypedValue::U64(10)),
            ],
        )
    );

    assert_eq!(
        deserialized_data.to_json_string().unwrap(),
        r#"{"name":"MarketSizeParams","value":{"bidsSize":"100","asksSize":"50","numSeats":"10"}}"#
    );
}

#[test]
fn json_serialization() {
    let market_size_params_struct = SchemaNode::new_struct(
        "MarketSizeParams",
        vec![
            ("bidsSize", SchemaType::U64),
            ("asksSize", SchemaType::U64),
            ("numSeats", SchemaType::U64),
        ],
    );

    let schema = SchemaNode::new_struct(
        "InitializeParams",
        vec![
            ("marketSizeParams", market_size_params_struct.typ.clone()),
            ("numQuoteLotsPerQuoteUnit", SchemaType::U64),
            ("tickSizeInQuoteLotsPerBaseUnit", SchemaType::U64),
            ("numBaseLotsPerBaseUnit", SchemaType::U64),
            ("takerFeeBps", SchemaType::U16),
            ("feeCollector", SchemaType::Pubkey),
            ("rawBaseUnitsPerBaseUnit", SchemaType::option(SchemaType::U32)),
            ("test_vec", SchemaType::vec(market_size_params_struct.typ.clone())),
            (
                "test_tuple",
                SchemaType::Tuple(vec![
                    market_size_params_struct.typ.clone(),
                    SchemaType::Pubkey,
                    SchemaType::U32,
                ]),
            ),
            (
                "test_enum",
                SchemaType::Enum(vec![
                    SchemaNode::new("Variant1", SchemaType::U64),
                    SchemaNode::new("Variant2", SchemaType::Pubkey),
                    SchemaNode::new("Variant3", SchemaType::Empty),
                ]),
            ),
        ],
    );
    let serialized = schema.to_json_string();
    println!("{}", serialized);
}

#[test]
fn deserialize_vec_u8_as_bytes() {
    // Schema with a single `bytes` field: "transactionMessage": Vec<u8>
    let schema = SchemaNode::new_struct(
        "VaultTransactionCreateArgs",
        vec![
            ("vaultIndex", SchemaType::U8),
            ("ephemeralSigners", SchemaType::U8),
            ("transactionMessage", SchemaType::vec(SchemaType::U8)),
            ("memo", SchemaType::option(SchemaType::String)),
        ],
    );

    // u8 vaultIndex = 4
    // u8 ephemeralSigners = 1
    // Vec<u8> transactionMessage = [1,2,3] (u32 length + bytes)
    // Option<String> memo = None (0u8)
    let mut data = Vec::new();
    data.push(4u8);
    data.push(1u8);
    data.extend_from_slice(&3u32.to_le_bytes());
    data.extend_from_slice(&[1u8, 2u8, 3u8]);
    data.push(0u8);

    let (node_opt, _consumed) = schema.deserialize_bytes(data.as_slice(), 0, true).unwrap();
    let node = node_opt.unwrap();

    if let TypedValue::Struct(fields) = node.value.clone() {
        let tm = fields
            .iter()
            .find(|f| f.name == "transactionMessage")
            .expect("missing field");
        match &tm.value {
            TypedValue::Bytes(b) => assert_eq!(b, &vec![1, 2, 3]),
            other => panic!("expected Bytes, got: {:?}", other),
        }
    } else {
        panic!("expected struct");
    }
}

#[test]
fn wire_round_trip_covers_every_variant() {
    let schema = SchemaNode::new_struct(
        "Everything",
        vec![
            ("a", SchemaType::Empty),
            ("b", SchemaType::Pubkey),
            ("c", SchemaType::String),
            ("d", SchemaType::I8),
            ("e", SchemaType::U8),
            ("f", SchemaType::I16),
            ("g", SchemaType::U16),
            ("h", SchemaType::I32),
            ("i", SchemaType::U32),
            ("j", SchemaType::I64),
            ("k", SchemaType::U64),
            ("l", SchemaType::I128),
            ("m", SchemaType::U128),
            ("n", SchemaType::F32),
            ("o", SchemaType::F64),
            ("p", SchemaType::Bool),
            ("q", SchemaType::option(SchemaType::U8)),
            ("r", SchemaType::array(3, SchemaType::U16)),
            ("s", SchemaType::Tuple(vec![SchemaType::U8, SchemaType::Bool])),
            ("t", SchemaType::vec(SchemaType::U32)),
            (
                "u",
                SchemaType::Enum(vec![
                    SchemaNode::new("One", SchemaType::Empty),
                    SchemaNode::new("Two", SchemaType::U8),
                ]),
            ),
            ("v", SchemaType::SmallVec(SmallVecLen::U16, Box::new(SchemaType::U8))),
            ("w", SchemaType::RemainingBytes),
        ],
    );
    let bytes = schema.to_wire_bytes();
    let (decoded, consumed) = SchemaNode::wire_decode(bytes.as_slice(), 0).unwrap();
    assert_eq!(consumed, bytes.len());
    assert_eq!(decoded, schema);

    // Unknown tags are rejected.
    assert!(atlas_idl_schema::schema::SchemaType::wire_decode(&[0xff, 0xff], 0).is_err());
}
