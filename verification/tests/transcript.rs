use dkg_transcript::json::doc_json;
use dkg_transcript::keygen::generate_keygens;
use dkg_transcript::transcript::{key_sync_history_data, KeyGenHistoryData};
use dkg_transcript::validator::{derive_address, enodes_to_pub_keys, KeyPairWrapper, Member};
use hbbft::crypto::SecretKey;
use rand::rngs::StdRng;
use rand::SeedableRng;

fn mk_set_seeded(n: usize) -> dkg_transcript::validator::ValidatorSet {
    let mut members = Vec::new();
    for i in 0..n {
        members.push(Member {
            id: vec![(i + 1) as u8; 64],
            keys: KeyPairWrapper::from_secret(SecretKey::random()),
        });
    }
    enodes_to_pub_keys(members)
}

#[test]
fn json_exact_rendering() {
    let addr1: Vec<u8> = (0u8..20).collect();
    let addr2 = vec![0xaau8; 20];
    let doc = KeyGenHistoryData {
        parts: vec![(addr1, vec![0u8, 9, 10, 99, 100, 255])],
        acks: vec![(addr2, vec![vec![], vec![7u8]])],
    };
    let text = String::from_utf8(doc_json(&doc)).expect("rendering is ASCII");
    assert_eq!(
        text,
        "{\"parts\":{\"0x000102030405060708090a0b0c0d0e0f10111213\":[0,9,10,99,100,255]},\
         \"acks\":{\"0xaaaaaaaaaaaaaaaaaaaaaaaaaaaaaaaaaaaaaaaa\":[[],[7]]}}"
    );
}

#[test]
fn json_empty_document() {
    let doc = KeyGenHistoryData {
        parts: Vec::new(),
        acks: Vec::new(),
    };
    let text = String::from_utf8(doc_json(&doc)).expect("rendering is ASCII");
    assert_eq!(text, "{\"parts\":{},\"acks\":{}}");
}

#[test]
fn address_derivation_known_value() {
    // Keccak-256 of the empty string, last 20 bytes.
    let addr = derive_address(&Vec::new());
    let mut hex = String::new();
    for b in &addr {
        hex.push_str(&format!("{:02x}", b));
    }
    assert_eq!(hex, "dcc703c0e500b653ca82273b7bfad8045d85a470");

    // Against the digest crate itself, on a longer input.
    let id: Vec<u8> = (0u8..64).collect();
    let digest = keccak_hash::keccak(id.as_slice());
    assert_eq!(derive_address(&id).as_slice(), &digest.as_bytes()[12..32]);
}

#[test]
fn byte_accounting_matches_encodings() {
    let mut rng = StdRng::seed_from_u64(11);
    let set = mk_set_seeded(3);
    let (_, parts, outcomes) = generate_keygens(&set, &mut rng, 0).expect("run must succeed");

    let expected_parts: u128 = parts
        .iter()
        .map(|(_, p)| bincode::serialize(p).expect("Part has to serialize").len() as u128)
        .sum();
    let expected_acks: u128 = outcomes
        .iter()
        .map(|(_, o)| match o {
            dkg_transcript::keygen::PartOutcome::Valid(Some(a)) => {
                bincode::serialize(a).expect("Ack has to serialize").len() as u128
            }
            _ => panic!("expected a valid outcome with an ack"),
        })
        .sum();
    let n_parts = parts.len();
    let n_acks = outcomes.len();

    let (_, stats) = key_sync_history_data(parts, outcomes).expect("encoding must succeed");
    assert_eq!(stats.num_parts, n_parts);
    assert_eq!(stats.num_acks, n_acks);
    assert_eq!(stats.parts_bytes, expected_parts);
    assert_eq!(stats.acks_bytes, expected_acks);
    assert_eq!(stats.total_bytes(), Some(expected_parts + expected_acks));
}

#[test]
fn document_keys_ignore_supply_order() {
    // The same seed reproduces the same run, so two identical runs stand in
    // for one run whose results are fed to the encoder in two orders.
    let set = mk_set_seeded(2);
    let mut rng1 = StdRng::seed_from_u64(12);
    let (_, parts1, outcomes1) = generate_keygens(&set, &mut rng1, 0).expect("run must succeed");
    let mut rng2 = StdRng::seed_from_u64(12);
    let (_, parts2, outcomes2) = generate_keygens(&set, &mut rng2, 0).expect("run must succeed");

    let (text1, _) = key_sync_history_data(parts1, outcomes1).expect("encoding must succeed");
    let parts2_rev: Vec<_> = parts2.into_iter().rev().collect();
    let outcomes2_rev: Vec<_> = outcomes2.into_iter().rev().collect();
    let (text2, _) =
        key_sync_history_data(parts2_rev, outcomes2_rev).expect("encoding must succeed");

    let doc1: serde_json::Value = serde_json::from_str(&text1).expect("document must parse");
    let doc2: serde_json::Value = serde_json::from_str(&text2).expect("document must parse");
    // The parts mapping is identical whatever the supply order.
    assert_eq!(doc1["parts"], doc2["parts"]);
    // The acks mapping has the same keys (per-key list order follows supply
    // order, so only the key sets are compared).
    let keys1: Vec<&String> = doc1["acks"].as_object().expect("acks").keys().collect();
    let keys2: Vec<&String> = doc2["acks"].as_object().expect("acks").keys().collect();
    assert_eq!(keys1, keys2);
}

#[test]
fn duplicate_validator_keeps_last_descriptor() {
    let sk1 = SecretKey::random();
    let sk2 = SecretKey::random();
    let first = Member {
        id: vec![5u8; 64],
        keys: KeyPairWrapper::from_secret(sk1),
    };
    let second = Member {
        id: vec![5u8; 64],
        keys: KeyPairWrapper::from_secret(sk2.clone()),
    };
    let set = enodes_to_pub_keys(vec![first, second]);
    assert_eq!(set.members.len(), 1);
    assert_eq!(set.members[0].keys.secret, sk2);
}

#[test]
fn validator_set_sorted_by_id() {
    let mut members = Vec::new();
    for tag in [9u8, 3, 7, 1] {
        members.push(Member {
            id: vec![tag; 64],
            keys: KeyPairWrapper::from_secret(SecretKey::random()),
        });
    }
    let set = enodes_to_pub_keys(members);
    let tags: Vec<u8> = set.members.iter().map(|m| m.id[0]).collect();
    assert_eq!(tags, vec![1, 3, 7, 9]);
}

#[test]
fn ack_lists_preserve_supply_order() {
    let mut rng = StdRng::seed_from_u64(13);
    let set = mk_set_seeded(2);
    let (_, parts, outcomes) = generate_keygens(&set, &mut rng, 0).expect("run must succeed");

    // Expected: for each issuer address, the bincode encodings of its acks,
    // in the order the outcomes were collected.
    let mut expected: std::collections::BTreeMap<String, Vec<Vec<u64>>> =
        std::collections::BTreeMap::new();
    for (id, o) in &outcomes {
        let ack = match o {
            dkg_transcript::keygen::PartOutcome::Valid(Some(a)) => a,
            _ => panic!("expected a valid outcome with an ack"),
        };
        let bytes = bincode::serialize(ack).expect("Ack has to serialize");
        let addr = derive_address(id);
        let mut key = String::from("0x");
        for b in &addr {
            key.push_str(&format!("{:02x}", b));
        }
        expected
            .entry(key)
            .or_insert_with(Vec::new)
            .push(bytes.iter().map(|b| *b as u64).collect());
    }

    let (text, _) = key_sync_history_data(parts, outcomes).expect("encoding must succeed");
    let doc: serde_json::Value = serde_json::from_str(&text).expect("document must parse");
    let acks_obj = doc["acks"].as_object().expect("acks object");
    assert_eq!(acks_obj.len(), expected.len());
    for (key, lists) in &expected {
        let got = acks_obj[key].as_array().expect("list");
        assert_eq!(got.len(), lists.len());
        for (g, e) in got.iter().zip(lists.iter()) {
            let g: Vec<u64> = g
                .as_array()
                .expect("byte array")
                .iter()
                .map(|v| v.as_u64().expect("byte value"))
                .collect();
            assert_eq!(&g, e);
        }
    }
}
