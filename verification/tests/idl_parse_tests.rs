use atlas_idl_schema::on_chain_idl::OnChainIdl;
use atlas_idl_schema::parse_idl::{camel_to_snake_case, parse_idl, parse_implicit_discriminant, parse_implicit_instruction_discriminant, parse_raw_schema_type, validate_on_chain_idl};
use atlas_idl_schema::schema::{SchemaType, SmallVecLen};
use solana_program::hash::hash;

#[test]
fn test_print_hash() {
    let b = hash(&format!("account:{}", "SpotMarket").into_bytes()).to_bytes();
    println!("{:x}", u64::from_be_bytes(b[..8].try_into().unwrap()));
    let a = hash(&format!("account:{}", "State").into_bytes()).to_bytes();
    println!("{:x}", u64::from_be_bytes(a[..8].try_into().unwrap()));
}

#[test]
fn test_camel_to_snake_case() {
    assert_eq!(camel_to_snake_case("mintV1"), "mint_v1");
    assert_eq!(camel_to_snake_case("CreateTree"), "create_tree");
    assert_eq!(camel_to_snake_case("CancelRedeem"), "cancel_redeem");
    assert_eq!(camel_to_snake_case("NFTMetadataUpdate"), "nft_metadata_update");
    assert_eq!(camel_to_snake_case("doAbc123"), "do_abc123");
}

// Minimal IDL that:
//  - uses SmallVec<u8, Pubkey> directly in an instruction arg
//  - defines a CompiledInstruction type that itself uses SmallVec<u8,u8> and SmallVec<u16,u8>
//  - uses SmallVec<u8, CompiledInstruction> in an instruction arg (nested SmallVec)
fn smallvec_idl() -> String {
    r#"{
      "version": "1.0.0",
      "name": "test_prog",
      "instructions": [
        {
          "name": "foo",
          "accounts": [{"name": "a", "isMut": false, "isSigner": false}],
          "args": [
            { "name": "msg", "type": { "defined": "SmallVec<u8,Pubkey>" } },
            { "name": "ixs", "type": { "defined": "SmallVec<u8,CompiledInstruction>" } }
          ]
        }
      ],
      "types": [
        {
          "name": "CompiledInstruction",
          "type": {
            "kind": "struct",
            "fields": [
              { "name": "programIdIndex", "type": "u8" },
              { "name": "accountIndexes", "type": { "defined": "SmallVec<u8,u8>" } },
              { "name": "data", "type": { "defined": "SmallVec<u16,u8>" } }
            ]
          }
        }
      ]
    }"#
    .to_string()
}

#[test]
fn parses_smallvec_definitions() {
    let idl = parse_idl(smallvec_idl()).expect("parse_idl ok");

    // one instruction, grab its schema
    assert_eq!(idl.instruction_params.len(), 1);
    let (_disc, dec) = &idl.instruction_params[0];
    match &dec.instruction_args_parser.typ {
        SchemaType::Struct(fields) => {
            // msg: SmallVec<u8, Pubkey>
            let msg = fields.iter().find(|f| f.name == "msg").expect("msg present");
            match &msg.typ {
                SchemaType::SmallVec(len_ty, elem) => {
                    assert!(matches!(len_ty, SmallVecLen::U8));
                    assert!(matches!(&**elem, SchemaType::Pubkey));
                }
                other => panic!("msg wrong schema: {:?}", other),
            }

            // ixs: SmallVec<u8, CompiledInstruction>
            let ixs = fields.iter().find(|f| f.name == "ixs").expect("ixs present");
            match &ixs.typ {
                SchemaType::SmallVec(len_ty, elem) => {
                    assert!(matches!(len_ty, SmallVecLen::U8));
                    match &**elem {
                        SchemaType::Struct(ci_fields) => {
                            // inside CompiledInstruction, check its SmallVec fields too
                            let acc_idx =
                                ci_fields.iter().find(|f| f.name == "accountIndexes").unwrap();
                            match &acc_idx.typ {
                                SchemaType::SmallVec(len_ty, elem) => {
                                    assert!(matches!(len_ty, SmallVecLen::U8));
                                    assert!(matches!(&**elem, SchemaType::U8));
                                }
                                other => panic!("accountIndexes wrong schema: {:?}", other),
                            }
                            let data = ci_fields.iter().find(|f| f.name == "data").unwrap();
                            match &data.typ {
                                SchemaType::SmallVec(len_ty, elem) => {
                                    assert!(matches!(len_ty, SmallVecLen::U16));
                                    assert!(matches!(&**elem, SchemaType::U8));
                                }
                                other => panic!("data wrong schema: {:?}", other),
                            }
                        }
                        other => {
                            panic!("ixs elem is not struct CompiledInstruction: {:?}", other)
                        }
                    }
                }
                other => panic!("ixs wrong schema: {:?}", other),
            }
        }
        other => panic!("args not a struct: {:?}", other),
    }
}

#[test]
fn parses_bracket_array_args() {
    // Instruction args use the bracket shorthand
    let json = r#"{
      "version": "1.0.0",
      "name": "arr_prog",
      "instructions": [
        {
          "name": "bar",
          "accounts": [],
          "args": [
            { "name": "three", "type": "[u8; 3]" },
            { "name": "twoKeys", "type": "[publicKey; 2]" }
          ]
        }
      ],
      "types": []
    }"#;

    let idl = parse_idl(json.to_string()).expect("parse_idl ok");
    assert_eq!(idl.instruction_params.len(), 1);

    let (_disc, dec) = &idl.instruction_params[0];
    match &dec.instruction_args_parser.typ {
        SchemaType::Struct(fields) => {
            let f_three = fields.iter().find(|f| f.name == "three").unwrap();
            match &f_three.typ {
                SchemaType::Array(3, inner) => assert!(matches!(**inner, SchemaType::U8)),
                other => panic!("three wrong schema: {:?}", other),
            }

            let f_keys = fields.iter().find(|f| f.name == "twoKeys").unwrap();
            match &f_keys.typ {
                SchemaType::Array(2, inner) => assert!(matches!(**inner, SchemaType::Pubkey)),
                other => panic!("twoKeys wrong schema: {:?}", other),
            }
        }
        other => panic!("args not a struct: {:?}", other),
    }
}

#[test]
fn bracket_shorthand_resolves_directly() {
    match parse_raw_schema_type("[u8; 3]").unwrap() {
        SchemaType::Array(3, inner) => assert!(matches!(*inner, SchemaType::U8)),
        other => panic!("wrong schema: {:?}", other),
    }
    match parse_raw_schema_type("[publicKey; 2]").unwrap() {
        SchemaType::Array(2, inner) => assert!(matches!(*inner, SchemaType::Pubkey)),
        other => panic!("wrong schema: {:?}", other),
    }
    assert!(parse_raw_schema_type("mystery").is_err());
}

#[test]
fn mixed_discriminant_widths_are_rejected() {
    let json = r#"{
      "name": "bad_prog",
      "types": [],
      "accounts": [
        {
          "name": "Narrow",
          "discriminant": { "type": "u8", "value": 1 },
          "type": { "kind": "struct", "fields": [ { "name": "a", "type": "u8" } ] }
        },
        {
          "name": "Wide",
          "discriminant": { "type": "u64", "value": 2 },
          "type": { "kind": "struct", "fields": [ { "name": "b", "type": "u8" } ] }
        }
      ],
      "instructions": []
    }"#;
    assert!(parse_idl(json.to_string()).is_err());
}

#[test]
fn implicit_discriminators_are_deterministic() {
    let (a1, w1) = parse_implicit_discriminant("SpotMarket").unwrap();
    let (a2, w2) = parse_implicit_discriminant("SpotMarket").unwrap();
    assert_eq!(a1, a2);
    assert_eq!(w1, 8);
    assert_eq!(w2, 8);

    let (i1, _) = parse_implicit_instruction_discriminant("mintV1").unwrap();
    let (i2, _) = parse_implicit_instruction_discriminant("mintV1").unwrap();
    assert_eq!(i1, i2);

    // The account form hashes the raw name; the expected value comes from
    // hashing the seed directly.
    let digest = hash("account:SpotMarket".as_bytes()).to_bytes();
    let expected = u64::from_le_bytes(digest[..8].try_into().unwrap());
    assert_eq!(a1, expected);

    // The instruction form hashes the snake-case name.
    let digest = hash("global:mint_v1".as_bytes()).to_bytes();
    let expected = u64::from_le_bytes(digest[..8].try_into().unwrap());
    assert_eq!(i1, expected);
}

#[test]
fn program_index_round_trips_through_wire_form() {
    let idl = parse_idl(smallvec_idl()).expect("parse_idl ok");
    let bytes = idl.wire_encode();
    let (decoded, consumed) = OnChainIdl::wire_decode(bytes.as_slice(), 0).unwrap();
    assert_eq!(consumed, bytes.len());
    assert!(decoded == idl);
    assert!(validate_on_chain_idl(&idl).is_ok());
}

#[test]
fn decodes_instruction_end_to_end() {
    let idl = parse_idl(smallvec_idl()).expect("parse_idl ok");
    let (disc, _) = &idl.instruction_params[0];

    // msg: one key of 32 bytes; ixs: empty list.
    let mut data: Vec<u8> = disc.to_le_bytes().to_vec();
    data.push(1u8); // msg count
    data.extend_from_slice(&[3u8; 32]);
    data.push(0u8); // ixs count

    let keys = vec!["addr1".to_string(), "addr2".to_string()];
    let parsed = idl.get_parsed_instruction(data, keys.as_slice(), false).unwrap();
    assert_eq!(parsed.name, "foo");
    assert_eq!(parsed.accounts, vec!["a".to_string(), "Account 2".to_string()]);
    assert_eq!(parsed.accounts_map[0], ("a".to_string(), "addr1".to_string()));
    assert_eq!(parsed.accounts_map[1], ("Account 2".to_string(), "addr2".to_string()));
    println!("{}", parsed.to_json_string().unwrap());
}

#[test]
fn decodes_account_end_to_end() {
    let json = r#"{
      "name": "acct_prog",
      "types": [],
      "accounts": [
        {
          "name": "Counter",
          "discriminant": { "type": "u8", "value": 7 },
          "type": { "kind": "struct", "fields": [ { "name": "count", "type": "u32" } ] }
        }
      ],
      "instructions": []
    }"#;
    let idl = parse_idl(json.to_string()).expect("parse_idl ok");
    assert_eq!(idl.account_disc_len, 1);

    let mut data = vec![7u8];
    data.extend_from_slice(&41u32.to_le_bytes());
    let parsed = idl.get_parsed_account(data, false).unwrap();
    assert_eq!(parsed.name, "Counter");
    println!("{}", parsed.to_json_string().unwrap());

    // Unknown discriminator and short buffers are rejected.
    assert!(idl.get_parsed_account(vec![9u8, 0, 0, 0, 0], false).is_err());
    assert!(idl.get_parsed_account(vec![], false).is_err());
}

#[test]
fn rejects_bad_small_vec_length_width() {
    let json = r#"{
      "name": "bad_small_vec",
      "types": [],
      "accounts": [],
      "instructions": [
        {
          "name": "foo",
          "accounts": [],
          "args": [ { "name": "xs", "type": { "defined": "SmallVec<u32,u8>" } } ]
        }
      ]
    }"#;
    assert!(parse_idl(json.to_string()).is_err());
}

#[test]
fn rejects_malformed_documents() {
    assert!(parse_idl("not json at all".to_string()).is_err());
    assert!(parse_idl("[1,2,3]".to_string()).is_err());
    // A document without a `types` array is rejected.
    assert!(parse_idl(r#"{"name":"x"}"#.to_string()).is_err());
}
