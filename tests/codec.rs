use std::collections::BTreeMap;

use vault::codec::{decode_entries, decode_envelope, encode_entries, encode_envelope};
use vault::entry::Entry;
use vault::errors::VaultError;
use vault::vault_state::VaultState;

fn entry(service: &str, username: &str, passwd: &str, at: i64) -> Entry {
    Entry {
        service: service.to_string(),
        username: username.to_string(),
        passwd: passwd.to_string(),
        created_at: at,
        updated_at: at + 1,
    }
}

#[test]
fn entries_round_trip() {
    let es = vec![entry("bank", "bob", "b0b", -3), entry("mail", "mé", "pässwörd", 1_700_000_000)];
    let bytes = encode_entries(&es);
    assert_eq!(decode_entries(&bytes), Ok(es));
}

#[test]
fn empty_collection_round_trip() {
    let bytes = encode_entries(&vec![]);
    assert_eq!(bytes, vec![0u8; 8]);
    assert_eq!(decode_entries(&bytes), Ok(vec![]));
}

#[test]
fn entry_layout_is_exact() {
    let bytes = encode_entries(&vec![entry("a", "b", "c", 1)]);
    let mut expected = vec![1, 0, 0, 0, 0, 0, 0, 0];
    for text in ["a", "a", "b", "c"] {
        expected.extend_from_slice(&[1, 0, 0, 0, 0, 0, 0, 0]);
        expected.extend_from_slice(text.as_bytes());
    }
    expected.extend_from_slice(&[1, 0, 0, 0, 0, 0, 0, 0]);
    expected.extend_from_slice(&[2, 0, 0, 0, 0, 0, 0, 0]);
    assert_eq!(bytes, expected);
}

#[test]
fn layout_matches_bincode_style_map_encoding() {
    let es = vec![entry("bank", "bob", "b0b", -3), entry("mail", "me", "pw", 42)];
    let mut map: BTreeMap<String, (String, String, String, i64, i64)> = BTreeMap::new();
    for e in &es {
        map.insert(
            e.service.clone(),
            (e.service.clone(), e.username.clone(), e.passwd.clone(), e.created_at, e.updated_at),
        );
    }
    assert_eq!(wincode::serialize(&map).unwrap(), encode_entries(&es));
}

#[test]
fn truncated_entries_are_rejected() {
    let bytes = encode_entries(&vec![entry("a", "b", "c", 1)]);
    for cut in 0..bytes.len() {
        assert_eq!(decode_entries(&bytes[..cut]), Err(VaultError::Serialization));
    }
}

#[test]
fn trailing_bytes_are_rejected() {
    let mut bytes = encode_entries(&vec![entry("a", "b", "c", 1)]);
    bytes.push(0);
    assert_eq!(decode_entries(&bytes), Err(VaultError::Serialization));
}

#[test]
fn unordered_or_duplicate_services_are_rejected() {
    let mut raw = vec![2, 0, 0, 0, 0, 0, 0, 0];
    let one = encode_entries(&vec![entry("b", "u", "p", 0)]);
    let two = encode_entries(&vec![entry("a", "u", "p", 0)]);
    raw.extend_from_slice(&one[8..]);
    raw.extend_from_slice(&two[8..]);
    assert_eq!(decode_entries(&raw), Err(VaultError::Serialization));
    let mut dup = vec![2, 0, 0, 0, 0, 0, 0, 0];
    dup.extend_from_slice(&one[8..]);
    dup.extend_from_slice(&one[8..]);
    assert_eq!(decode_entries(&dup), Err(VaultError::Serialization));
}

#[test]
fn key_must_match_service() {
    let mut bytes = encode_entries(&vec![entry("a", "b", "c", 1)]);
    bytes[16] = b'z';
    assert_eq!(decode_entries(&bytes), Err(VaultError::Serialization));
}

#[test]
fn invalid_utf8_is_rejected() {
    let mut bytes = encode_entries(&vec![entry("a", "b", "c", 1)]);
    bytes[16] = 0xff;
    bytes[25] = 0xff;
    assert_eq!(decode_entries(&bytes), Err(VaultError::Serialization));
}

#[test]
fn envelope_round_trip_and_layout() {
    let v = VaultState { salt: [3u8; 16], nonce: [9u8; 12], cipher: vec![1, 2, 3] };
    let bytes = encode_envelope(&v);
    assert_eq!(bytes.len(), 16 + 12 + 8 + 3);
    assert_eq!(&bytes[..16], &[3u8; 16]);
    assert_eq!(&bytes[16..28], &[9u8; 12]);
    assert_eq!(&bytes[28..36], &[3, 0, 0, 0, 0, 0, 0, 0]);
    let back = decode_envelope(&bytes).unwrap();
    assert_eq!(back.salt, v.salt);
    assert_eq!(back.nonce, v.nonce);
    assert_eq!(back.cipher, v.cipher);
}

#[test]
fn short_envelope_is_rejected() {
    assert!(matches!(decode_envelope(&[0u8; 35]), Err(VaultError::Serialization)));
    let mut bytes = encode_envelope(&VaultState::new(&[1u8; 16]));
    bytes.push(7);
    assert!(matches!(decode_envelope(&bytes), Err(VaultError::Serialization)));
}

#[test]
fn new_envelope_has_zero_nonce_and_no_cipher() {
    let v = VaultState::new(&[5u8; 16]);
    assert_eq!(v.salt, [5u8; 16]);
    assert_eq!(v.nonce, [0u8; 12]);
    assert!(v.cipher.is_empty());
}
