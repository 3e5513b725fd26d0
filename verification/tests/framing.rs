//! Tests of the request framer, the hex mapping and the wire codec.

use zaino_core::framer::{parse_request, read_nym_request_data, serialize_request,
    serialize_response, compact_size_read, compact_size_write};
use zaino_core::hexstr::{hex_decode, hex_encode};
use zaino_core::json::JsonValue;
use zaino_core::response::{decode_balance, decode_best_block_hash, decode_block, decode_block_hash,
    decode_blockchain_info,
    decode_info, decode_send_transaction, decode_transaction, decode_treestate, decode_txids,
    GetBlockHash, GetBlockResponse, GetTransactionResponse};
use zaino_core::error::{DecodeError, FrameError};

fn obj(fields: Vec<(&str, JsonValue)>) -> JsonValue {
    JsonValue::Obj(fields.into_iter().map(|(k, v)| (k.to_string(), v)).collect())
}

#[test]
fn round_trip_simple_request() {
    let body = vec![9u8, 8, 7];
    let bytes = serialize_request(7, "getinfo", &body);
    let (id, method, parsed_body) = parse_request(&bytes).unwrap();
    assert_eq!(id, 7);
    assert_eq!(method, "getinfo");
    assert_eq!(parsed_body, body);
}

#[test]
fn round_trip_empty_body_and_method() {
    let bytes = serialize_request(0, "", &Vec::new());
    let (id, method, body) = parse_request(&bytes).unwrap();
    assert_eq!(id, 0);
    assert_eq!(method, "");
    assert!(body.is_empty());
}

#[test]
fn round_trip_compact_size_boundaries() {
    for id in [0u64, 1, 252, 253, 0xFFFF, 0x1_0000, 0xFFFF_FFFF, 0x1_0000_0000, u64::MAX] {
        let bytes = serialize_request(id, "m", &vec![1u8]);
        let (got, method, body) = parse_request(&bytes).unwrap();
        assert_eq!(got, id);
        assert_eq!(method, "m");
        assert_eq!(body, vec![1u8]);
    }
}

#[test]
fn round_trip_unicode_method() {
    let bytes = serialize_request(1, "méthode\u{1F600}", &vec![0u8]);
    let (_, method, _) = parse_request(&bytes).unwrap();
    assert_eq!(method, "méthode\u{1F600}");
}

#[test]
fn read_nym_request_data_matches_parse() {
    let bytes = serialize_request(42, "send", &vec![1, 2]);
    assert_eq!(read_nym_request_data(&bytes).unwrap(), parse_request(&bytes).unwrap());
}

#[test]
fn length_mismatch_declared_five_got_three() {
    // id 1, method "m", declared body length 5 but only 3 bytes remain.
    let data = vec![1u8, 1, b'm', 5, 1, 2, 3];
    assert_eq!(parse_request(&data), Err(FrameError::LengthMismatch));
}

#[test]
fn truncated_and_non_canonical_envelopes() {
    assert_eq!(parse_request(&Vec::new()), Err(FrameError::Truncated));
    // 0xFD escape must carry a value >= 253.
    assert_eq!(parse_request(&vec![0xFD, 1, 0]), Err(FrameError::NonCanonical));
    // 0xFD escape with only one following byte.
    assert_eq!(parse_request(&vec![0xFD, 1]), Err(FrameError::Truncated));
}

#[test]
fn invalid_utf8_method_is_encoding_error() {
    // id 1, method of one byte 0xFF, empty body.
    let data = vec![1u8, 1, 0xFF, 0];
    assert_eq!(parse_request(&data), Err(FrameError::Encoding));
}

#[test]
fn compact_size_exact_encodings() {
    let mut out = Vec::new();
    compact_size_write(&mut out, 252);
    assert_eq!(out, vec![252u8]);
    let mut out = Vec::new();
    compact_size_write(&mut out, 253);
    assert_eq!(out, vec![0xFDu8, 253, 0]);
    let mut out = Vec::new();
    compact_size_write(&mut out, 0x1_0000);
    assert_eq!(out, vec![0xFEu8, 0, 0, 1, 0]);
    assert_eq!(compact_size_read(&out, 0), Ok((0x1_0000u64, 5usize)));
}

#[test]
fn response_envelope_parses_with_empty_method() {
    let bytes = serialize_response(3, &vec![0xAAu8, 0xBB]);
    let (id, method, body) = parse_request(&bytes).unwrap();
    assert_eq!(id, 3);
    assert_eq!(method, "");
    assert_eq!(body, vec![0xAAu8, 0xBB]);
}

#[test]
fn hex_decode_and_encode() {
    assert_eq!(hex_decode("00ff10").unwrap(), vec![0u8, 255, 16]);
    assert_eq!(hex_decode("00FF10").unwrap(), vec![0u8, 255, 16]);
    assert_eq!(hex_decode(""), Ok(Vec::new()));
    assert_eq!(hex_decode("abc"), Err(DecodeError::MalformedHex));
    assert_eq!(hex_decode("zz"), Err(DecodeError::MalformedHex));
    assert_eq!(hex_encode(&vec![0u8, 255, 16]), "00ff10");
    let bytes: Vec<u8> = (0..=255u8).collect();
    assert_eq!(hex_decode(&hex_encode(&bytes)).unwrap(), bytes);
}

#[test]
fn default_block_hash_is_zero() {
    let h = GetBlockHash::default();
    assert_eq!(h.0 .0, [0u8; 32]);
}

#[test]
fn decode_txids_keeps_strings_in_order() {
    let v = JsonValue::Arr(vec![
        JsonValue::Str("aa".to_string()),
        JsonValue::Num(7),
        JsonValue::Str("bb".to_string()),
    ]);
    let t = decode_txids(&v).unwrap();
    assert_eq!(t.transactions, vec!["aa".to_string(), "bb".to_string()]);
}

#[test]
fn decode_txids_rejects_non_array() {
    assert_eq!(decode_txids(&JsonValue::Num(1)), Err(DecodeError::UnexpectedShape));
}

fn treestate_doc() -> JsonValue {
    obj(vec![
        ("height", JsonValue::Num(42)),
        ("hash", JsonValue::Str("00ab".to_string())),
        ("time", JsonValue::Num(1700000000)),
        (
            "sapling",
            obj(vec![(
                "commitments",
                obj(vec![("finalState", JsonValue::Str("beef".to_string()))]),
            )]),
        ),
        (
            "orchard",
            obj(vec![(
                "commitments",
                obj(vec![("finalState", JsonValue::Str("cafe".to_string()))]),
            )]),
        ),
    ])
}

#[test]
fn decode_treestate_full_object() {
    let t = decode_treestate(&treestate_doc()).unwrap();
    assert_eq!(t.height, 42);
    assert_eq!(t.hash, "00ab");
    assert_eq!(t.time, 1700000000);
    assert_eq!(t.sapling.commitments.final_state, "beef");
    assert_eq!(t.orchard.commitments.final_state, "cafe");
}

#[test]
fn decode_treestate_missing_fields() {
    let missing_height = obj(vec![("hash", JsonValue::Str("00".to_string()))]);
    assert_eq!(
        decode_treestate(&missing_height),
        Err(DecodeError::MissingField("height".to_string()))
    );
    let bad_time = obj(vec![
        ("height", JsonValue::Num(1)),
        ("hash", JsonValue::Str("00".to_string())),
        ("time", JsonValue::Num(-5)),
    ]);
    assert_eq!(decode_treestate(&bad_time), Err(DecodeError::MissingField("time".to_string())));
    let no_sapling = obj(vec![
        ("height", JsonValue::Num(1)),
        ("hash", JsonValue::Str("00".to_string())),
        ("time", JsonValue::Num(7)),
    ]);
    assert_eq!(
        decode_treestate(&no_sapling),
        Err(DecodeError::MissingField("sapling finalState".to_string()))
    );
}

#[test]
fn decode_transaction_mined_object() {
    let v = obj(vec![
        ("hex", JsonValue::Str("0102".to_string())),
        ("height", JsonValue::Num(12)),
        ("confirmations", JsonValue::Num(3)),
    ]);
    match decode_transaction(&v).unwrap() {
        GetTransactionResponse::Object { hex, height, confirmations } => {
            assert_eq!(hex.0, vec![1u8, 2]);
            assert_eq!(height, 12);
            assert_eq!(confirmations, 3);
        },
        other => panic!("expected object, got {:?}", other),
    }
}

#[test]
fn decode_transaction_mempool_object() {
    let v = obj(vec![
        ("hex", JsonValue::Str("03".to_string())),
        ("txid", JsonValue::Str("aa".to_string())),
    ]);
    match decode_transaction(&v).unwrap() {
        GetTransactionResponse::Object { hex, height, confirmations } => {
            assert_eq!(hex.0, vec![3u8]);
            assert_eq!(height, -1);
            assert_eq!(confirmations, 0);
        },
        other => panic!("expected object, got {:?}", other),
    }
}

#[test]
fn decode_transaction_bare_hex() {
    match decode_transaction(&JsonValue::Str("0a0b".to_string())).unwrap() {
        GetTransactionResponse::Raw(raw) => assert_eq!(raw.0, vec![0x0Au8, 0x0B]),
        other => panic!("expected raw, got {:?}", other),
    }
}

#[test]
fn decode_transaction_errors() {
    assert_eq!(
        decode_transaction(&JsonValue::Str("abc".to_string())),
        Err(DecodeError::MalformedHex)
    );
    assert_eq!(decode_transaction(&JsonValue::Null), Err(DecodeError::UnexpectedShape));
    let no_hex = obj(vec![
        ("height", JsonValue::Num(1)),
        ("confirmations", JsonValue::Num(1)),
    ]);
    assert_eq!(
        decode_transaction(&no_hex),
        Err(DecodeError::MissingField("hex".to_string()))
    );
}

#[test]
fn decode_info_and_balance() {
    let v = obj(vec![
        ("build", JsonValue::Str("v6.0.0".to_string())),
        ("subversion", JsonValue::Str("/MagicBean/".to_string())),
    ]);
    let info = decode_info(&v).unwrap();
    assert_eq!(info.build, "v6.0.0");
    assert_eq!(info.subversion, "/MagicBean/");
    assert_eq!(
        decode_info(&obj(vec![("build", JsonValue::Str("x".to_string()))])),
        Err(DecodeError::MissingField("subversion".to_string()))
    );
    let b = decode_balance(&obj(vec![("balance", JsonValue::Num(1500))])).unwrap();
    assert_eq!(b.balance, 1500);
    assert_eq!(
        decode_balance(&obj(vec![("balance", JsonValue::Num(-1))])),
        Err(DecodeError::MissingField("balance".to_string()))
    );
}

#[test]
fn decode_hash_responses() {
    let hex64 = "11".repeat(32);
    let v = JsonValue::Str(hex64);
    assert_eq!(decode_block_hash(&v).unwrap().0 .0, [0x11u8; 32]);
    assert_eq!(decode_best_block_hash(&v).unwrap().0 .0, [0x11u8; 32]);
    assert_eq!(decode_send_transaction(&v).unwrap().0 .0, [0x11u8; 32]);
    // A well-formed hex string of the wrong length is not a hash.
    assert_eq!(
        decode_block_hash(&JsonValue::Str("1122".to_string())),
        Err(DecodeError::MalformedHex)
    );
    assert_eq!(decode_block_hash(&JsonValue::Num(1)), Err(DecodeError::UnexpectedShape));
}

#[test]
fn decode_block_both_shapes() {
    // Bare raw form.
    match decode_block(&JsonValue::Str("00ff".to_string())).unwrap() {
        GetBlockResponse::Raw(raw) => assert_eq!(raw.0, vec![0u8, 255]),
        other => panic!("expected raw, got {:?}", other),
    }
    // Structured object form.
    let v = obj(vec![
        ("hash", JsonValue::Str("22".repeat(32))),
        ("confirmations", JsonValue::Num(6)),
        ("height", JsonValue::Num(800000)),
        ("time", JsonValue::Num(1700000000)),
        (
            "tx",
            JsonValue::Arr(vec![
                JsonValue::Str("aa".to_string()),
                JsonValue::Str("bb".to_string()),
            ]),
        ),
        (
            "trees",
            obj(vec![("sapling", JsonValue::Num(10)), ("orchard", JsonValue::Num(20))]),
        ),
    ]);
    match decode_block(&v).unwrap() {
        GetBlockResponse::Object { hash, confirmations, height, time, tx, trees } => {
            assert_eq!(hash.0 .0, [0x22u8; 32]);
            assert_eq!(confirmations, 6);
            assert_eq!(height.unwrap().0, 800000);
            assert_eq!(time, Some(1700000000));
            assert_eq!(tx, vec!["aa".to_string(), "bb".to_string()]);
            assert_eq!(trees.sapling, 10);
            assert_eq!(trees.orchard, 20);
        },
        other => panic!("expected object, got {:?}", other),
    }
    // A non-string element in `tx` fails the object shape.
    let bad = obj(vec![
        ("hash", JsonValue::Str("22".repeat(32))),
        ("confirmations", JsonValue::Num(6)),
        ("tx", JsonValue::Arr(vec![JsonValue::Num(1)])),
        (
            "trees",
            obj(vec![("sapling", JsonValue::Num(0)), ("orchard", JsonValue::Num(0))]),
        ),
    ]);
    assert_eq!(decode_block(&bad), Err(DecodeError::MissingField("tx".to_string())));
    assert_eq!(decode_block(&JsonValue::Null), Err(DecodeError::UnexpectedShape));
}

#[test]
fn decode_blockchain_info_object() {
    let upgrade = |name: &str, h: i64| {
        obj(vec![
            ("name", JsonValue::Str(name.to_string())),
            ("activationheight", JsonValue::Num(h)),
            ("status", JsonValue::Str("active".to_string())),
        ])
    };
    let v = obj(vec![
        ("chain", JsonValue::Str("regtest".to_string())),
        ("blocks", JsonValue::Num(200)),
        ("bestblockhash", JsonValue::Str("33".repeat(32))),
        ("estimatedheight", JsonValue::Num(205)),
        (
            "upgrades",
            obj(vec![
                ("5ba81b19", upgrade("Overwinter", 1)),
                ("76b809bb", upgrade("Sapling", 1)),
            ]),
        ),
        (
            "consensus",
            obj(vec![
                ("chaintip", JsonValue::Str("c2d6d0b4".to_string())),
                ("nextblock", JsonValue::Str("c2d6d0b4".to_string())),
            ]),
        ),
    ]);
    let t = decode_blockchain_info(&v).unwrap();
    assert_eq!(t.chain, "regtest");
    assert_eq!(t.blocks.0, 200);
    assert_eq!(t.best_block_hash.0, [0x33u8; 32]);
    assert_eq!(t.estimated_height.0, 205);
    assert_eq!(t.upgrades.len(), 2);
    assert_eq!(t.upgrades[0].0 .0, "5ba81b19");
    assert_eq!(t.upgrades[0].1.name, "Overwinter");
    assert_eq!(t.upgrades[1].1.activation_height.0, 1);
    assert_eq!(t.consensus.chain_tip.0, "c2d6d0b4");
    // A duplicate branch id fails the upgrades table.
    let dup = obj(vec![
        ("chain", JsonValue::Str("regtest".to_string())),
        ("blocks", JsonValue::Num(200)),
        ("bestblockhash", JsonValue::Str("33".repeat(32))),
        ("estimatedheight", JsonValue::Num(205)),
        (
            "upgrades",
            obj(vec![
                ("5ba81b19", upgrade("Overwinter", 1)),
                ("5ba81b19", upgrade("Overwinter", 2)),
            ]),
        ),
        (
            "consensus",
            obj(vec![
                ("chaintip", JsonValue::Str("00".to_string())),
                ("nextblock", JsonValue::Str("00".to_string())),
            ]),
        ),
    ]);
    assert_eq!(
        decode_blockchain_info(&dup),
        Err(DecodeError::MissingField("upgrades".to_string()))
    );
    // Missing chain name is the first reported failure.
    assert_eq!(
        decode_blockchain_info(&obj(vec![])),
        Err(DecodeError::MissingField("chain".to_string()))
    );
}
