use vault::codec::{encode_entries, encode_envelope};
use vault::crypto::{AesGcmCrypto, CryptoPort};
use vault::engine::{open_vault, VaultEngine};
use vault::entry::Entry;
use vault::vault_state::VaultState;
use vault::errors::{StorageError, VaultError};
use vault::storage::{MemoryStorage, StoragePort};

fn engine() -> VaultEngine<MemoryStorage, AesGcmCrypto> {
    VaultEngine::new(MemoryStorage::new(), AesGcmCrypto::new())
}

#[test]
fn end_to_end_create_commit_unlock() {
    let mut e = engine();
    e.create_vault("personal", "pw1").unwrap();
    e.add("github", "alice", "s3cret").unwrap();
    e.commit().unwrap();
    e.lock().unwrap();
    assert!(e.is_locked());
    e.unlock("personal", "pw1").unwrap();
    assert!(!e.is_locked());
    let entry = e.get("github").unwrap();
    assert_eq!(entry.username, "alice");
    assert_eq!(entry.passwd, "s3cret");
    assert_eq!(entry.service, "github");
    assert_eq!(entry.created_at, entry.updated_at);
    assert_eq!(e.current_vault(), Some("personal".to_string()));
}

#[test]
fn end_to_end_wrong_password_stays_locked() {
    let mut e = engine();
    e.create_vault("personal", "pw1").unwrap();
    e.add("github", "alice", "s3cret").unwrap();
    e.commit().unwrap();
    e.lock().unwrap();
    assert_eq!(e.unlock("personal", "wrongpw"), Err(VaultError::InvalidPassword));
    assert!(e.is_locked());
    assert_eq!(e.entry_count(), 0);
    assert_eq!(e.get("github").unwrap_err(), VaultError::Locked);
}

#[test]
fn locked_engine_refuses_entry_operations() {
    let mut e = engine();
    assert_eq!(e.add("svc", "u", "p"), Err(VaultError::Locked));
    assert_eq!(e.get("svc").unwrap_err(), VaultError::Locked);
    assert_eq!(e.delete("svc").unwrap_err(), VaultError::Locked);
    assert_eq!(e.commit(), Err(VaultError::Locked));
    assert_eq!(e.get_entries(), Err(VaultError::Locked));
    assert_eq!(e.lock(), Err(VaultError::Locked));
    assert!(e.is_locked());
    assert!(!e.is_dirty());
    assert_eq!(e.entry_count(), 0);
    assert_eq!(e.current_vault(), None);
}

#[test]
fn unlocked_engine_refuses_create_and_unlock() {
    let mut e = engine();
    e.create_vault("one", "pw").unwrap();
    e.add("svc", "u", "p").unwrap();
    assert_eq!(e.create_vault("two", "pw"), Err(VaultError::Unlocked));
    assert_eq!(e.unlock("one", "pw"), Err(VaultError::Unlocked));
    assert_eq!(e.get_vaults(), Err(VaultError::Unlocked));
    assert_eq!(e.current_vault(), Some("one".to_string()));
    assert_eq!(e.entry_count(), 1);
    assert!(e.is_dirty());
}

#[test]
fn second_add_for_a_service_is_refused() {
    let mut e = engine();
    e.create_vault("v", "pw").unwrap();
    e.add("svc", "first", "p1").unwrap();
    assert_eq!(e.add("svc", "second", "p2"), Err(VaultError::EntryExists));
    assert_eq!(e.get_entries().unwrap(), vec!["svc".to_string()]);
    assert_eq!(e.get("svc").unwrap().username, "first");
}

#[test]
fn dirty_flag_follows_changes_and_commits() {
    let mut e = engine();
    e.create_vault("v", "pw").unwrap();
    assert!(!e.is_dirty());
    e.add("a", "u", "p").unwrap();
    assert!(e.is_dirty());
    e.commit().unwrap();
    assert!(!e.is_dirty());
    e.delete("a").unwrap();
    assert!(e.is_dirty());
    e.commit().unwrap();
    assert!(!e.is_dirty());
}

#[test]
fn add_at_stamps_the_given_time() {
    let mut e = engine();
    e.create_vault("v", "pw").unwrap();
    e.add_at("svc", "u", "p", 1_234).unwrap();
    let entry = e.get("svc").unwrap();
    assert_eq!(entry.created_at, 1_234);
    assert_eq!(entry.updated_at, 1_234);
    assert_eq!(e.add_at("svc", "u", "p", 9), Err(VaultError::EntryExists));
}

#[test]
fn entries_are_listed_in_service_order() {
    let mut e = engine();
    e.create_vault("v", "pw").unwrap();
    e.add("mail", "u1", "p1").unwrap();
    e.add("bank", "u2", "p2").unwrap();
    e.add("zoo", "u3", "p3").unwrap();
    e.add("Bank", "u4", "p4").unwrap();
    assert_eq!(
        e.get_entries().unwrap(),
        vec!["Bank".to_string(), "bank".to_string(), "mail".to_string(), "zoo".to_string()]
    );
    assert_eq!(e.entry_count(), 4);
}

#[test]
fn delete_returns_the_entry_and_missing_ones_fail() {
    let mut e = engine();
    e.create_vault("v", "pw").unwrap();
    e.add("a", "user", "pass").unwrap();
    let removed = e.delete("a").unwrap();
    assert_eq!(removed.service, "a");
    assert_eq!(removed.username, "user");
    assert_eq!(removed.passwd, "pass");
    assert_eq!(e.delete("a").unwrap_err(), VaultError::EntryNotFound);
    assert_eq!(e.get("a").unwrap_err(), VaultError::EntryNotFound);
    assert_eq!(e.entry_count(), 0);
}

#[test]
fn unlock_of_a_missing_vault_fails() {
    let mut e = engine();
    assert_eq!(e.unlock("nothing", "pw"), Err(VaultError::VaultNotFound));
    assert!(e.is_locked());
}

#[test]
fn unlock_of_malformed_envelope_fails_with_serialization() {
    let mut store = MemoryStorage::new();
    store.set_path("bad".to_string());
    store.save(&[1, 2, 3]).unwrap();
    let mut e = VaultEngine::new(store, AesGcmCrypto::new());
    assert_eq!(e.unlock("bad", "pw"), Err(VaultError::Serialization));
    assert!(e.is_locked());
}

fn sealed_envelope(password: &str, plain: &[u8]) -> Vec<u8> {
    let mut c = AesGcmCrypto::new();
    let salt = [7u8; 16];
    c.init(password, &salt).unwrap();
    let (cipher, nonce) = c.encrypt(plain).unwrap();
    encode_envelope(&VaultState { salt, nonce, cipher })
}

fn one_entry() -> Vec<Entry> {
    vec![Entry {
        service: "a".to_string(),
        username: "u".to_string(),
        passwd: "p".to_string(),
        created_at: 5,
        updated_at: 5,
    }]
}

#[test]
fn open_vault_gives_back_the_entries() {
    let bytes = sealed_envelope("pw", &encode_entries(&one_entry()));
    let mut c = AesGcmCrypto::new();
    match open_vault(&mut c, "pw", &bytes) {
        Ok((state, entries)) => {
            assert_eq!(entries, one_entry());
            assert_eq!(state.salt, [7u8; 16]);
        }
        Err(e) => panic!("unexpected error {:?}", e),
    }
}

#[test]
fn tampered_ciphertext_is_invalid_password() {
    let mut bytes = sealed_envelope("pw", &encode_entries(&one_entry()));
    let last = bytes.len() - 1;
    bytes[last] ^= 1;
    let mut c = AesGcmCrypto::new();
    assert!(matches!(open_vault(&mut c, "pw", &bytes), Err(VaultError::InvalidPassword)));
}

#[test]
fn wrong_password_is_invalid_password() {
    let bytes = sealed_envelope("pw", &encode_entries(&one_entry()));
    let mut c = AesGcmCrypto::new();
    assert!(matches!(open_vault(&mut c, "other", &bytes), Err(VaultError::InvalidPassword)));
}

#[test]
fn authentic_but_malformed_plaintext_is_invalid_password() {
    let bytes = sealed_envelope("pw", b"not an entry collection");
    let mut c = AesGcmCrypto::new();
    assert!(matches!(open_vault(&mut c, "pw", &bytes), Err(VaultError::InvalidPassword)));
}

#[test]
fn truncated_envelope_is_serialization_error() {
    let bytes = sealed_envelope("pw", &encode_entries(&one_entry()));
    let mut c = AesGcmCrypto::new();
    assert!(matches!(open_vault(&mut c, "pw", &bytes[..20]), Err(VaultError::Serialization)));
}

#[test]
fn lock_forgets_everything() {
    let mut e = engine();
    e.create_vault("v", "pw").unwrap();
    e.add("a", "u", "p").unwrap();
    e.lock().unwrap();
    assert!(e.is_locked());
    assert!(!e.is_dirty());
    assert_eq!(e.entry_count(), 0);
    assert_eq!(e.current_vault(), None);
    assert_eq!(e.commit(), Err(VaultError::Locked));
}

#[test]
fn uncommitted_changes_are_lost_on_lock() {
    let mut e = engine();
    e.create_vault("v", "pw").unwrap();
    e.add("kept", "u", "p").unwrap();
    e.commit().unwrap();
    e.add("lost", "u", "p").unwrap();
    e.lock().unwrap();
    e.unlock("v", "pw").unwrap();
    assert_eq!(e.get_entries().unwrap(), vec!["kept".to_string()]);
    assert!(!e.is_dirty());
}

#[test]
fn vaults_are_listed_while_locked() {
    let mut e = engine();
    assert_eq!(e.get_vaults(), Ok(vec![]));
    e.create_vault("alpha", "pw").unwrap();
    e.commit().unwrap();
    e.lock().unwrap();
    assert_eq!(e.get_vaults(), Ok(vec!["alpha".to_string()]));
    let _ = StorageError::IntegrityError;
}
