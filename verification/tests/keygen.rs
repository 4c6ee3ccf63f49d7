use dkg_transcript::errors::TranscriptError;
use dkg_transcript::keygen::{create_generators, generate_keygens, process_parts, PartOutcome};
use dkg_transcript::transcript::key_sync_history_data;
use dkg_transcript::validator::{derive_address, KeyPairWrapper, Member, ValidatorSet};
use hbbft::crypto::SecretKey;
use rand::rngs::StdRng;
use rand::SeedableRng;

fn mk_member(tag: u8) -> Member {
    let id = vec![tag; 64];
    Member {
        id,
        keys: KeyPairWrapper::from_secret(SecretKey::random()),
    }
}

fn mk_set(n: usize) -> ValidatorSet {
    let mut members = Vec::new();
    for i in 0..n {
        members.push(mk_member((i + 1) as u8));
    }
    dkg_transcript::validator::enodes_to_pub_keys(members)
}

fn hex_addr(id: &Vec<u8>) -> String {
    let addr = derive_address(id);
    let mut s = String::from("0x");
    for b in addr {
        s.push_str(&format!("{:02x}", b));
    }
    s
}

#[test]
fn test_keygen_history_data_serde() {
    let mut rng = StdRng::seed_from_u64(1);
    let set = mk_set(1);
    let (_, parts, _) = generate_keygens(&set, &mut rng, 1).expect("run must succeed");

    let part = parts.iter().nth(0).expect("At least one part needs to exist");
    let part_ser = bincode::serialize(&part.1).expect("Part has to serialize");
    let part_deser: hbbft::sync_key_gen::Part =
        bincode::deserialize(&part_ser).expect("Deserialization expected to succeed");
    assert_eq!(part.1, part_deser);
}

#[test]
fn scenario_single_validator() {
    let mut rng = StdRng::seed_from_u64(2);
    let set = mk_set(1);
    let id = set.members[0].id.clone();
    let (gens, parts, outcomes) = generate_keygens(&set, &mut rng, 0).expect("run must succeed");
    assert_eq!(gens.len(), 1);
    assert_eq!(parts.len(), 1);
    assert_eq!(outcomes.len(), 1);
    let (text, _) = key_sync_history_data(parts, outcomes).expect("encoding must succeed");
    let doc: serde_json::Value = serde_json::from_str(&text).expect("document must parse");
    let parts_obj = doc["parts"].as_object().expect("parts object");
    assert_eq!(parts_obj.len(), 1);
    assert!(parts_obj.contains_key(&hex_addr(&id)));
    let acks_obj = doc["acks"].as_object().expect("acks object");
    assert_eq!(acks_obj.len(), 1);
    assert_eq!(acks_obj[&hex_addr(&id)].as_array().expect("list").len(), 1);
}

#[test]
fn scenario_four_validators() {
    let mut rng = StdRng::seed_from_u64(3);
    let set = mk_set(4);
    let ids: Vec<Vec<u8>> = set.members.iter().map(|m| m.id.clone()).collect();
    let (gens, parts, outcomes) = generate_keygens(&set, &mut rng, 1).expect("run must succeed");
    assert_eq!(gens.len(), 4);
    assert_eq!(parts.len(), 4);
    assert_eq!(outcomes.len(), 16);
    for (_, o) in &outcomes {
        assert!(matches!(o, PartOutcome::Valid(Some(_))));
    }
    let (text, _) = key_sync_history_data(parts, outcomes).expect("encoding must succeed");
    let doc: serde_json::Value = serde_json::from_str(&text).expect("document must parse");
    let parts_obj = doc["parts"].as_object().expect("parts object");
    assert_eq!(parts_obj.len(), 4);
    let acks_obj = doc["acks"].as_object().expect("acks object");
    assert_eq!(acks_obj.len(), 4);
    for id in &ids {
        let key = hex_addr(id);
        assert!(parts_obj.contains_key(&key));
        let list = acks_obj[&key].as_array().expect("list");
        assert_eq!(list.len(), 4);
        assert!(!list.is_empty());
    }
}

#[test]
fn scenario_corrupted_part() {
    let mut rng = StdRng::seed_from_u64(4);
    let set = mk_set(4);
    let (gens, mut parts, _) = match create_generators(&set, 1, &mut rng) {
        Ok(gp) => (gp.0, gp.1, ()),
        Err(e) => panic!("round 1 must succeed: {:?}", e),
    };
    let original = parts[2].1.clone();
    let encoded = bincode::serialize(&original).expect("Part has to serialize");
    let mut found = false;
    for pos in (0..encoded.len()).rev() {
        let mut tampered = encoded.clone();
        tampered[pos] ^= 0x01;
        if let Ok(bad) = bincode::deserialize::<hbbft::sync_key_gen::Part>(&tampered) {
            if bad != original {
                parts[2].1 = bad;
                found = true;
                break;
            }
        }
    }
    assert!(found, "expected at least one decodable corruption");
    let outcome = process_parts(gens, &parts, &mut rng);
    assert!(outcome.is_err(), "a corrupted part must abort the run");
}

#[test]
fn encoder_rejects_invalid_outcome() {
    let id = vec![9u8; 64];
    let acks = vec![(
        id,
        PartOutcome::Invalid(hbbft::sync_key_gen::PartFault::RowCount),
    )];
    let r = key_sync_history_data(Vec::new(), acks);
    assert!(matches!(r, Err(TranscriptError::InvalidOutcome)));
}

#[test]
fn encoder_rejects_missing_ack() {
    let id = vec![9u8; 64];
    let acks = vec![(id, PartOutcome::Valid(None))];
    let r = key_sync_history_data(Vec::new(), acks);
    assert!(matches!(r, Err(TranscriptError::MissingAck)));
}

#[test]
fn adapter_seal_open_roundtrip() {
    let mut rng = StdRng::seed_from_u64(5);
    let kp = KeyPairWrapper::from_secret(SecretKey::random());
    let msg = vec![1u8, 2, 3, 200, 255];
    let opened = dkg_transcript::validator::seal_open_roundtrip(&kp, &msg, &mut rng);
    assert_eq!(opened, Some(msg));
}

#[test]
fn codec_roundtrip_functions() {
    let mut rng = StdRng::seed_from_u64(6);
    let set = mk_set(2);
    let (_, parts, outcomes) = generate_keygens(&set, &mut rng, 0).expect("run must succeed");
    let p = &parts[0].1;
    let back = dkg_transcript::transcript::part_codec_roundtrip(p).expect("round trip succeeds");
    assert_eq!(&back, p);
    let a = match &outcomes[0].1 {
        PartOutcome::Valid(Some(a)) => a.clone(),
        _ => panic!("expected a valid outcome with an ack"),
    };
    let back = dkg_transcript::transcript::ack_codec_roundtrip(&a).expect("round trip succeeds");
    assert_eq!(back, a);
}
