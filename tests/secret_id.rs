use approle_secret::backend::{
    AppRoleBackendInner, MAX_LEASE_DURATION_SECS, SECRET_ID_ACCESSOR_LOCAL_PREFIX, SECRET_ID_ACCESSOR_PREFIX,
    SECRET_ID_LOCAL_PREFIX, SECRET_ID_PREFIX,
};
use approle_secret::cidr::verify_cidr_role_secret_id_subset;
use approle_secret::entry::{SecretIdAccessorStorageEntry, SecretIdStorageEntry};
use approle_secret::error::RvError;
use approle_secret::hmac::{create_hmac, MAX_HMAC_INPUT_LENGTH};
use approle_secret::memory::MemoryStorage;
use approle_secret::storage::Storage;

fn has(storage: &MemoryStorage, key: &str) -> bool {
    storage.get(key).unwrap().is_some()
}

fn backend() -> AppRoleBackendInner {
    AppRoleBackendInner::new(Some("salt-key".to_string()))
}

fn strings(v: &[&str]) -> Vec<String> {
    v.iter().map(|s| s.to_string()).collect()
}

fn record_key(prefix: &str, role: &str, secret: &str, key: &str) -> String {
    format!("{}{}/{}", prefix, create_hmac(key, role).unwrap(), create_hmac(key, secret).unwrap())
}

#[test]
fn hmac_known_vector() {
    let d = create_hmac("key", "The quick brown fox jumps over the lazy dog").unwrap();
    assert_eq!(d, "f7bc83f430538424b13298e6aa6fb143ef4d59a14946175997479dbc2d1a3cd8");
}

#[test]
fn hmac_is_deterministic() {
    assert_eq!(create_hmac("k", "v").unwrap(), create_hmac("k", "v").unwrap());
    assert_ne!(create_hmac("k", "v").unwrap(), create_hmac("k", "w").unwrap());
    assert_ne!(create_hmac("k", "v").unwrap(), create_hmac("j", "v").unwrap());
    assert_eq!(create_hmac("k", "v").unwrap().len(), 64);
}

#[test]
fn hmac_rejects_empty_key() {
    assert_eq!(create_hmac("", "v"), Err(RvError::InvalidInput));
    assert_eq!(create_hmac("", &"x".repeat(MAX_HMAC_INPUT_LENGTH + 1)), Err(RvError::InvalidInput));
}

#[test]
fn hmac_input_bound() {
    assert!(create_hmac("k", &"x".repeat(MAX_HMAC_INPUT_LENGTH)).is_ok());
    assert_eq!(create_hmac("k", &"x".repeat(MAX_HMAC_INPUT_LENGTH + 1)), Err(RvError::InputTooLarge));
    assert!(create_hmac("k", "").is_ok());
}

#[test]
fn ttl_is_capped() {
    let b = backend();
    assert_eq!(b.derive_secret_id_ttl(0), 0);
    assert_eq!(b.derive_secret_id_ttl(3600), 3600);
    assert_eq!(b.derive_secret_id_ttl(MAX_LEASE_DURATION_SECS), MAX_LEASE_DURATION_SECS);
    assert_eq!(b.derive_secret_id_ttl(MAX_LEASE_DURATION_SECS + 1), MAX_LEASE_DURATION_SECS);
    assert_eq!(b.derive_secret_id_ttl(u64::MAX), MAX_LEASE_DURATION_SECS);
    assert_eq!(MAX_LEASE_DURATION_SECS, 30 * 24 * 60 * 60);
}

#[test]
fn cidr_empty_lists_pass() {
    assert_eq!(verify_cidr_role_secret_id_subset(&[], &strings(&["10.0.0.0/8"])), Ok(()));
    assert_eq!(verify_cidr_role_secret_id_subset(&strings(&["not a cidr"]), &[]), Ok(()));
    assert_eq!(verify_cidr_role_secret_id_subset(&[], &[]), Ok(()));
}

#[test]
fn cidr_list_is_subset_of_itself() {
    let v = strings(&["10.0.0.0/8", "192.168.1.0/24", "127.0.0.1/32"]);
    assert_eq!(verify_cidr_role_secret_id_subset(&v, &v), Ok(()));
}

#[test]
fn cidr_narrower_block_passes() {
    let role = strings(&["10.0.0.0/8", "172.16.0.0/12"]);
    let secret = strings(&["10.1.0.0/16", "172.20.5.0/24"]);
    assert_eq!(verify_cidr_role_secret_id_subset(&secret, &role), Ok(()));
}

#[test]
fn cidr_broader_block_fails() {
    let role = strings(&["10.1.0.0/16"]);
    assert_eq!(verify_cidr_role_secret_id_subset(&strings(&["10.0.0.0/8"]), &role), Err(RvError::CidrViolation));
    assert_eq!(verify_cidr_role_secret_id_subset(&strings(&["11.1.0.0/16"]), &role), Err(RvError::CidrViolation));
}

#[test]
fn cidr_bare_role_address_is_single_host() {
    let role = strings(&["10.0.0.1"]);
    assert_eq!(verify_cidr_role_secret_id_subset(&strings(&["10.0.0.1/32"]), &role), Ok(()));
    assert_eq!(verify_cidr_role_secret_id_subset(&strings(&["10.0.0.0/31"]), &role), Err(RvError::CidrViolation));
}

#[test]
fn cidr_malformed_block_fails() {
    let role = strings(&["10.0.0.0/8"]);
    assert_eq!(verify_cidr_role_secret_id_subset(&strings(&["10.0.0.256/32"]), &role), Err(RvError::InvalidCidr));
    assert_eq!(verify_cidr_role_secret_id_subset(&strings(&["10.0.0.0/33"]), &role), Err(RvError::InvalidCidr));
    assert_eq!(verify_cidr_role_secret_id_subset(&strings(&["10.0.0.0/8"]), &strings(&["x/8"])), Err(RvError::InvalidCidr));
}

#[test]
fn register_scenario() {
    let b = backend();
    let mut storage = MemoryStorage::new();
    let mut entry = SecretIdStorageEntry::default();
    entry.secret_id_ttl = MAX_LEASE_DURATION_SECS + 3600;
    assert_eq!(b.register_secret_id_entry(&mut storage, "r1", "s1", "k", SECRET_ID_PREFIX, &mut entry), Ok(()));
    assert_eq!(entry.secret_id_ttl, MAX_LEASE_DURATION_SECS);
    assert_eq!(entry.expiration_time, entry.creation_time + MAX_LEASE_DURATION_SECS);
    assert_eq!(entry.last_updated_time, entry.creation_time);
    assert!(entry.creation_time > 1_600_000_000);
    assert!(!entry.secret_id_accessor.is_empty());
    assert!(has(&storage, &record_key(SECRET_ID_PREFIX, "r1", "s1", "k")));

    let mut again = SecretIdStorageEntry::default();
    assert_eq!(
        b.register_secret_id_entry(&mut storage, "r1", "s1", "k", SECRET_ID_PREFIX, &mut again),
        Err(RvError::AlreadyRegistered)
    );

    let role_hmac = create_hmac("k", "r1").unwrap();
    let secret_hmac = create_hmac("k", "s1").unwrap();
    assert_eq!(b.delete_secret_id_storage_entry(&mut storage, SECRET_ID_PREFIX, &role_hmac, &secret_hmac), Ok(()));
    let mut third = SecretIdStorageEntry::default();
    third.secret_id_ttl = MAX_LEASE_DURATION_SECS + 3600;
    assert_eq!(b.register_secret_id_entry(&mut storage, "r1", "s1", "k", SECRET_ID_PREFIX, &mut third), Ok(()));
    assert_ne!(third.secret_id_accessor, entry.secret_id_accessor);
}

#[test]
fn register_at_fixed_time() {
    let b = backend();
    let mut storage = MemoryStorage::new();
    let mut entry = SecretIdStorageEntry::default();
    entry.secret_id_ttl = 600;
    entry.expiration_time = 7;
    let r = b.register_secret_id_entry_at(&mut storage, "role", "secret", "k", SECRET_ID_PREFIX, &mut entry, 1000);
    assert_eq!(r, Ok(()));
    assert_eq!(entry.creation_time, 1000);
    assert_eq!(entry.last_updated_time, 1000);
    assert_eq!(entry.expiration_time, 1600);
    assert_eq!(entry.secret_id_ttl, 600);
    let stored = storage.get(&record_key(SECRET_ID_PREFIX, "role", "secret", "k")).unwrap().unwrap();
    assert_eq!(stored.value, entry.encode());
    assert_eq!(storage.len(), 2);
}

#[test]
fn register_zero_ttl_keeps_expiry() {
    let b = backend();
    let mut storage = MemoryStorage::new();
    let mut entry = SecretIdStorageEntry::default();
    entry.expiration_time = 5;
    let r = b.register_secret_id_entry_at(&mut storage, "role", "secret", "k", SECRET_ID_PREFIX, &mut entry, 1000);
    assert_eq!(r, Ok(()));
    assert_eq!(entry.secret_id_ttl, 0);
    assert_eq!(entry.expiration_time, 5);
}

#[test]
fn register_expiry_saturates() {
    let b = backend();
    let mut storage = MemoryStorage::new();
    let mut entry = SecretIdStorageEntry::default();
    entry.secret_id_ttl = 10;
    let r = b.register_secret_id_entry_at(&mut storage, "role", "secret", "k", SECRET_ID_PREFIX, &mut entry, u64::MAX - 3);
    assert_eq!(r, Ok(()));
    assert_eq!(entry.expiration_time, u64::MAX);
}

#[test]
fn register_errors() {
    let b = backend();
    let mut storage = MemoryStorage::new();
    let mut entry = SecretIdStorageEntry::default();
    assert_eq!(b.register_secret_id_entry(&mut storage, "r", "s", "k", "", &mut entry), Err(RvError::MissingArgument));
    assert_eq!(b.register_secret_id_entry(&mut storage, "r", "s", "", SECRET_ID_PREFIX, &mut entry), Err(RvError::InvalidInput));
    let long = "x".repeat(MAX_HMAC_INPUT_LENGTH + 1);
    assert_eq!(b.register_secret_id_entry(&mut storage, &long, "s", "k", SECRET_ID_PREFIX, &mut entry), Err(RvError::InputTooLarge));
    assert_eq!(b.register_secret_id_entry(&mut storage, "r", &long, "k", SECRET_ID_PREFIX, &mut entry), Err(RvError::InputTooLarge));
    let uninitialized = AppRoleBackendInner::new(None);
    assert_eq!(uninitialized.register_secret_id_entry(&mut storage, "r", "s", "k", SECRET_ID_PREFIX, &mut entry), Err(RvError::NotInitialized));
    assert!(storage.len() == 0);
}

#[test]
fn accessor_resolves_to_secret_digest() {
    let b = backend();
    let mut storage = MemoryStorage::new();
    let mut entry = SecretIdStorageEntry::default();
    assert_eq!(b.register_secret_id_entry(&mut storage, "r1", "s1", "k", SECRET_ID_PREFIX, &mut entry), Ok(()));
    let raw = b.get_secret_id_accessor_record(&storage, &entry.secret_id_accessor, SECRET_ID_PREFIX).unwrap().unwrap();
    let digest = create_hmac("k", "s1").unwrap();
    let expected = SecretIdAccessorStorageEntry { secret_id_hmac: digest.clone() }.encode();
    assert_eq!(raw, expected);
    assert_eq!(String::from_utf8(raw).unwrap(), format!("{{\"secret_id_hmac\":\"{}\"}}", digest));
    let salted = b.salt_id(&entry.secret_id_accessor).unwrap();
    assert!(has(&storage, &format!("{}{}", SECRET_ID_ACCESSOR_PREFIX, salted)));
}

#[test]
fn local_prefix_uses_local_accessor_prefix() {
    let b = backend();
    let mut storage = MemoryStorage::new();
    let mut entry = SecretIdStorageEntry::default();
    assert_eq!(b.register_secret_id_entry(&mut storage, "r1", "s1", "k", SECRET_ID_LOCAL_PREFIX, &mut entry), Ok(()));
    let salted = b.salt_id(&entry.secret_id_accessor).unwrap();
    assert!(has(&storage, &format!("{}{}", SECRET_ID_ACCESSOR_LOCAL_PREFIX, salted)));
    assert!(b.get_secret_id_accessor_record(&storage, &entry.secret_id_accessor, SECRET_ID_LOCAL_PREFIX).unwrap().is_some());
    assert!(b.get_secret_id_accessor_record(&storage, &entry.secret_id_accessor, SECRET_ID_PREFIX).unwrap().is_none());
}

#[test]
fn accessor_delete_and_errors() {
    let b = backend();
    let mut storage = MemoryStorage::new();
    let mut entry = SecretIdStorageEntry::default();
    assert_eq!(b.create_secret_id_accessor_entry(&mut storage, &mut entry, "digest", SECRET_ID_PREFIX), Ok(()));
    assert_eq!(entry.secret_id_accessor.len(), 32);
    assert_eq!(storage.len(), 1);
    assert_eq!(b.delete_secret_id_accessor_entry(&mut storage, &entry.secret_id_accessor, SECRET_ID_PREFIX), Ok(()));
    assert!(storage.len() == 0);
    assert_eq!(b.delete_secret_id_accessor_entry(&mut storage, &entry.secret_id_accessor, SECRET_ID_PREFIX), Ok(()));
    assert_eq!(b.get_secret_id_accessor_record(&storage, "", SECRET_ID_PREFIX), Err(RvError::MissingArgument));
    let uninitialized = AppRoleBackendInner::new(None);
    assert_eq!(uninitialized.get_secret_id_accessor_record(&storage, "a", SECRET_ID_PREFIX), Err(RvError::NotInitialized));
    assert_eq!(uninitialized.delete_secret_id_accessor_entry(&mut storage, "a", SECRET_ID_PREFIX), Err(RvError::NotInitialized));
}

#[test]
fn accessor_with_given_value() {
    let b = backend();
    let mut storage = MemoryStorage::new();
    let mut entry = SecretIdStorageEntry::default();
    entry.secret_id_num_uses = 3;
    let r = b.create_secret_id_accessor_entry_with(&mut storage, &mut entry, "acc".to_string(), "dig", SECRET_ID_PREFIX);
    assert_eq!(r, Ok(()));
    assert_eq!(entry.secret_id_accessor, "acc");
    assert_eq!(entry.secret_id_num_uses, 3);
    let key = format!("{}{}", SECRET_ID_ACCESSOR_PREFIX, create_hmac("salt-key", "acc").unwrap());
    assert_eq!(storage.get(&key).unwrap().unwrap().value, b"{\"secret_id_hmac\":\"dig\"}".to_vec());
}

#[test]
fn store_argument_checks() {
    let b = backend();
    let mut storage = MemoryStorage::new();
    let entry = SecretIdStorageEntry::default();
    assert_eq!(b.set_secret_id_storage_entry(&mut storage, "", "r", "s", &entry), Err(RvError::MissingArgument));
    assert_eq!(b.set_secret_id_storage_entry(&mut storage, "p/", "", "s", &entry), Err(RvError::MissingArgument));
    assert_eq!(b.set_secret_id_storage_entry(&mut storage, "p/", "r", "", &entry), Err(RvError::MissingArgument));
    assert_eq!(b.delete_secret_id_storage_entry(&mut storage, "p/", "", "s"), Err(RvError::MissingArgument));
    assert_eq!(b.get_secret_id_storage_record(&storage, "p/", "r", ""), Err(RvError::MissingArgument));
    assert_eq!(b.set_secret_id_storage_entry(&mut storage, "p/", "r", "s", &entry), Ok(()));
    assert_eq!(b.get_secret_id_storage_record(&storage, "p/", "r", "s"), Ok(Some(entry.encode())));
    assert_eq!(b.delete_secret_id_storage_entry(&mut storage, "p/", "r", "s"), Ok(()));
    assert_eq!(b.get_secret_id_storage_record(&storage, "p/", "r", "s"), Ok(None));
    assert_eq!(b.delete_secret_id_storage_entry(&mut storage, "p/", "r", "s"), Ok(()));
}

#[test]
fn record_encoding() {
    let mut entry = SecretIdStorageEntry::default();
    entry.secret_id_accessor = "a\"b".to_string();
    entry.secret_id_num_uses = -2;
    entry.secret_id_ttl = 60;
    entry.creation_time = 1;
    entry.expiration_time = 61;
    entry.last_updated_time = 1;
    entry.metadata = vec![("k".to_string(), "v".to_string()), ("x".to_string(), "y".to_string())];
    entry.cidr_list = strings(&["10.0.0.0/8"]);
    let text = String::from_utf8(entry.encode()).unwrap();
    assert_eq!(
        text,
        "{\"secret_id_accessor\":\"a\\\"b\",\"secret_id_num_uses\":-2,\"secret_id_ttl\":60,\"creation_time\":1,\
         \"expiration_time\":61,\"last_updated_time\":1,\"metadata\":{\"k\":\"v\",\"x\":\"y\"},\
         \"cidr_list\":[\"10.0.0.0/8\"],\"token_cidr_list\":[]}"
    );
}

#[test]
fn flush_removes_role_records() {
    let b = backend();
    let mut storage = MemoryStorage::new();
    for (role, secret) in [("r1", "a"), ("r1", "b"), ("r2", "c")] {
        let mut e = SecretIdStorageEntry::default();
        assert_eq!(b.register_secret_id_entry(&mut storage, role, secret, "k", SECRET_ID_PREFIX, &mut e), Ok(()));
    }
    let role_hmac = create_hmac("k", "r1").unwrap();
    let listed = storage.list(&format!("{}{}/", SECRET_ID_PREFIX, role_hmac)).unwrap();
    assert_eq!(listed.len(), 2);
    assert_eq!(b.flush_role_secrets(&mut storage, "r1", "k", SECRET_ID_PREFIX), Ok(()));
    for name in listed {
        assert_eq!(b.get_secret_id_storage_record(&storage, SECRET_ID_PREFIX, &role_hmac, &name), Ok(None));
    }
    assert!(has(&storage, &record_key(SECRET_ID_PREFIX, "r2", "c", "k")));
    // accessor records are left in place
    assert_eq!(storage.len(), 4);
    assert_eq!(b.flush_role_secrets(&mut storage, "r1", "k", SECRET_ID_PREFIX), Ok(()));
    assert_eq!(b.flush_role_secrets(&mut storage, "r1", "", SECRET_ID_PREFIX), Err(RvError::InvalidInput));
}

#[test]
fn error_messages() {
    assert_eq!(RvError::AlreadyRegistered.message(), "secret_id is already registered");
    assert_eq!(RvError::NotInitialized.message(), "approle module not initialized");
}

#[test]
fn memory_storage_lists_children() {
    let mut storage = MemoryStorage::new();
    for key in ["p/a", "p/b/c", "p/b/d", "q/e"] {
        assert_eq!(storage.put(&approle_secret::storage::StorageEntry::new(key, vec![1u8])), Ok(()));
    }
    assert_eq!(storage.put(&approle_secret::storage::StorageEntry::new("p/a", vec![2u8])), Ok(()));
    let mut names = storage.list("p/").unwrap();
    names.sort();
    assert_eq!(names, vec!["a".to_string(), "b/".to_string()]);
    assert_eq!(storage.get("p/a").unwrap().unwrap().value, vec![2u8]);
    assert_eq!(storage.len(), 4);
    assert_eq!(storage.delete("p/a"), Ok(()));
    assert!(storage.get("p/a").unwrap().is_none());
    assert!(storage.list("z/").unwrap().is_empty());
}

#[test]
fn cidr_bare_addresses_on_both_sides() {
    let v = strings(&["0.0.0.0", "10.0.0.1"]);
    assert_eq!(verify_cidr_role_secret_id_subset(&v, &v), Ok(()));
    assert_eq!(verify_cidr_role_secret_id_subset(&strings(&["10.0.0.1"]), &strings(&["10.0.0.0/8"])), Ok(()));
    assert_eq!(
        verify_cidr_role_secret_id_subset(&strings(&["10.0.0.2"]), &strings(&["10.0.0.1"])),
        Err(RvError::CidrViolation)
    );
}

#[test]
fn register_hmac_errors_come_before_prefix() {
    let b = backend();
    let mut storage = MemoryStorage::new();
    let mut entry = SecretIdStorageEntry::default();
    entry.secret_id_ttl = 5;
    assert_eq!(b.register_secret_id_entry(&mut storage, "r", "s", "", "", &mut entry), Err(RvError::InvalidInput));
    assert_eq!(entry.secret_id_ttl, 5);
    assert_eq!(entry.secret_id_accessor, "");
    assert_eq!(storage.len(), 0);
}

#[test]
fn register_duplicate_leaves_record_unchanged() {
    let b = backend();
    let mut storage = MemoryStorage::new();
    let mut first = SecretIdStorageEntry::default();
    assert_eq!(b.register_secret_id_entry(&mut storage, "r", "s", "k", SECRET_ID_PREFIX, &mut first), Ok(()));
    let mut second = SecretIdStorageEntry::default();
    second.secret_id_ttl = 9;
    assert_eq!(
        b.register_secret_id_entry(&mut storage, "r", "s", "k", SECRET_ID_PREFIX, &mut second),
        Err(RvError::AlreadyRegistered)
    );
    assert_eq!(second.secret_id_ttl, 9);
    assert_eq!(second.secret_id_accessor, "");
    assert_eq!(storage.len(), 2);
}

#[test]
fn register_without_salt_writes_nothing() {
    let b = AppRoleBackendInner::new(None);
    let mut storage = MemoryStorage::new();
    let mut entry = SecretIdStorageEntry::default();
    assert_eq!(b.register_secret_id_entry(&mut storage, "r", "s", "k", SECRET_ID_PREFIX, &mut entry), Err(RvError::NotInitialized));
    assert_eq!(entry.creation_time, 0);
    assert_eq!(storage.len(), 0);
    let empty_salt = AppRoleBackendInner::new(Some(String::new()));
    assert_eq!(empty_salt.register_secret_id_entry(&mut storage, "r", "s", "k", SECRET_ID_PREFIX, &mut entry), Err(RvError::InvalidInput));
    assert_eq!(storage.len(), 0);
}

#[test]
fn accessor_is_hex_of_random_bytes() {
    let b = backend();
    let mut storage = MemoryStorage::new();
    let mut entry = SecretIdStorageEntry::default();
    entry.secret_id_accessor = "caller-chosen".to_string();
    assert_eq!(b.create_secret_id_accessor_entry(&mut storage, &mut entry, "digest", SECRET_ID_PREFIX), Ok(()));
    let a = entry.secret_id_accessor.clone();
    assert_eq!(a.len(), 32);
    assert!(a.chars().all(|c| c.is_ascii_hexdigit() && !c.is_ascii_uppercase()));
    assert_eq!(b.create_secret_id_accessor_entry(&mut storage, &mut entry, "digest", SECRET_ID_PREFIX), Ok(()));
    assert_ne!(entry.secret_id_accessor, a);
}

#[test]
fn accessor_creation_without_salt() {
    let b = AppRoleBackendInner::new(None);
    let mut storage = MemoryStorage::new();
    let mut entry = SecretIdStorageEntry::default();
    entry.secret_id_accessor = "kept".to_string();
    assert_eq!(b.create_secret_id_accessor_entry(&mut storage, &mut entry, "digest", SECRET_ID_PREFIX), Err(RvError::NotInitialized));
    assert_eq!(entry.secret_id_accessor, "kept");
    let empty_salt = AppRoleBackendInner::new(Some(String::new()));
    assert_eq!(empty_salt.create_secret_id_accessor_entry(&mut storage, &mut entry, "digest", SECRET_ID_PREFIX), Err(RvError::InvalidInput));
    assert_eq!(storage.len(), 0);
}

#[test]
fn accessor_argument_errors() {
    let b = backend();
    let mut storage = MemoryStorage::new();
    assert_eq!(b.delete_secret_id_accessor_entry(&mut storage, "", SECRET_ID_PREFIX), Err(RvError::MissingArgument));
    let long = "a".repeat(MAX_HMAC_INPUT_LENGTH + 1);
    assert_eq!(b.delete_secret_id_accessor_entry(&mut storage, &long, SECRET_ID_PREFIX), Err(RvError::InputTooLarge));
    assert_eq!(b.get_secret_id_accessor_record(&storage, &long, SECRET_ID_PREFIX), Err(RvError::InputTooLarge));
    let empty_salt = AppRoleBackendInner::new(Some(String::new()));
    assert_eq!(empty_salt.get_secret_id_accessor_record(&storage, "a", SECRET_ID_PREFIX), Err(RvError::InvalidInput));
    assert_eq!(empty_salt.delete_secret_id_accessor_entry(&mut storage, "a", SECRET_ID_PREFIX), Err(RvError::InvalidInput));
}

#[test]
fn flush_keeps_nested_records_and_is_idempotent() {
    let b = backend();
    let mut storage = MemoryStorage::new();
    let role_hmac = create_hmac("k", "r1").unwrap();
    let nested = format!("{}{}/dir/x", SECRET_ID_PREFIX, role_hmac);
    let leaf = format!("{}{}/leaf", SECRET_ID_PREFIX, role_hmac);
    assert_eq!(storage.put(&approle_secret::storage::StorageEntry::new(&nested, vec![1u8])), Ok(()));
    assert_eq!(storage.put(&approle_secret::storage::StorageEntry::new(&leaf, vec![1u8])), Ok(()));
    assert_eq!(b.flush_role_secrets(&mut storage, "r1", "k", SECRET_ID_PREFIX), Ok(()));
    assert!(has(&storage, &nested));
    assert!(!has(&storage, &leaf));
    assert_eq!(b.flush_role_secrets(&mut storage, "r1", "k", SECRET_ID_PREFIX), Ok(()));
    assert_eq!(storage.len(), 1);
    assert_eq!(b.flush_role_secrets(&mut storage, &"x".repeat(MAX_HMAC_INPUT_LENGTH + 1), "k", SECRET_ID_PREFIX), Err(RvError::InputTooLarge));
}

#[test]
fn record_encoding_escapes_control_characters() {
    let mut entry = SecretIdStorageEntry::default();
    entry.secret_id_accessor = "a\nb\u{1}\\".to_string();
    let text = String::from_utf8(entry.encode()).unwrap();
    assert!(text.starts_with("{\"secret_id_accessor\":\"a\\nb\\u0001\\\\\","));
}
