use vstd::prelude::*;
use vstd::utf8::encode_utf8;

use crate::entry::{
    accessor_entry_json, secret_entry_json, SecretIdAccessorStorageEntry, SecretIdStorageEntry,
};
use crate::error::RvError;
use crate::hmac::{
    create_hmac, create_hmac_post, digest_of, hex_encode, hex_of, lemma_hex_len, MAX_HMAC_INPUT_LENGTH,
};
use crate::memory::split_once_slash;
use crate::storage::{Storage, StorageEntry};

verus! {

/// Key prefix of replicated secret-id records.
pub const SECRET_ID_PREFIX: &'static str = "secret_id/";

/// Key prefix of local secret-id records.
pub const SECRET_ID_LOCAL_PREFIX: &'static str = "secret_id_local/";

/// Key prefix of replicated accessor records.
pub const SECRET_ID_ACCESSOR_PREFIX: &'static str = "accessor/";

/// Key prefix of local accessor records.
pub const SECRET_ID_ACCESSOR_LOCAL_PREFIX: &'static str = "accessor_local/";

/// The system-wide maximum lease duration, in seconds (thirty days).
pub const MAX_LEASE_DURATION_SECS: u64 = 2592000;

/// Number of random bytes behind an accessor.
pub const ACCESSOR_RANDOM_BYTES: usize = 16;

/// Key of the secret-id record for the given digests.
pub open spec fn secret_id_key(prefix: Seq<char>, role_hmac: Seq<char>, secret_id_hmac: Seq<char>) -> Seq<
    char,
> {
    prefix + role_hmac + seq!['/'] + secret_id_hmac
}

/// Accessor-record prefix that goes with a secret-id prefix.
pub open spec fn accessor_prefix_of(prefix: Seq<char>) -> Seq<char> {
    if prefix == SECRET_ID_LOCAL_PREFIX@ {
        SECRET_ID_ACCESSOR_LOCAL_PREFIX@
    } else {
        SECRET_ID_ACCESSOR_PREFIX@
    }
}

/// Key of the accessor record: the accessor, salted, under the accessor prefix.
pub open spec fn accessor_key(prefix: Seq<char>, salt: Seq<char>, accessor: Seq<char>) -> Seq<char> {
    accessor_prefix_of(prefix) + digest_of(encode_utf8(salt), encode_utf8(accessor))
}

/// The effective lifetime for a requested one.
pub open spec fn capped_ttl(ttl: u64) -> u64 {
    if ttl > MAX_LEASE_DURATION_SECS {
        MAX_LEASE_DURATION_SECS
    } else {
        ttl
    }
}

/// The two records agree on every field but the accessor.
pub open spec fn same_but_accessor(a: SecretIdStorageEntry, b: SecretIdStorageEntry) -> bool {
    &&& a.secret_id_num_uses == b.secret_id_num_uses
    &&& a.secret_id_ttl == b.secret_id_ttl
    &&& a.creation_time == b.creation_time
    &&& a.expiration_time == b.expiration_time
    &&& a.last_updated_time == b.last_updated_time
    &&& a.metadata == b.metadata
    &&& a.cidr_list == b.cidr_list
    &&& a.token_cidr_list == b.token_cidr_list
}

/// What a store's contents become once the accessor record is written.
pub open spec fn with_accessor_record(
    s: Map<Seq<char>, Seq<u8>>,
    prefix: Seq<char>,
    salt: Seq<char>,
    accessor: Seq<char>,
    secret_id_hmac: Seq<char>,
) -> Map<Seq<char>, Seq<u8>> {
    s.insert(accessor_key(prefix, salt, accessor), encode_utf8(accessor_entry_json(secret_id_hmac)))
}

/// The keyed hash under `hmac_key` of a role name or secret-id.
pub open spec fn hmac_digest(hmac_key: Seq<char>, value: Seq<char>) -> Seq<char> {
    digest_of(encode_utf8(hmac_key), encode_utf8(value))
}

/// The key and inputs of a registration are acceptable: a non-empty prefix
/// and key, and inputs within the keyed hash's bound.
pub open spec fn register_inputs_ok(
    prefix: Seq<char>,
    hmac_key: Seq<char>,
    role_name: Seq<char>,
    secret_id: Seq<char>,
) -> bool {
    &&& prefix.len() != 0
    &&& encode_utf8(hmac_key).len() != 0
    &&& encode_utf8(role_name).len() <= MAX_HMAC_INPUT_LENGTH
    &&& encode_utf8(secret_id).len() <= MAX_HMAC_INPUT_LENGTH
}

/// Key of the secret-id record that registering `secret_id` for `role_name` writes.
pub open spec fn registered_key(
    prefix: Seq<char>,
    hmac_key: Seq<char>,
    role_name: Seq<char>,
    secret_id: Seq<char>,
) -> Seq<char> {
    secret_id_key(prefix, hmac_digest(hmac_key, role_name), hmac_digest(hmac_key, secret_id))
}

/// How a registration relates the store before it to the store after it: it
/// succeeds only where the secret-id record was absent, and then writes it; it
/// never succeeds where the record was present.
pub open spec fn register_outcome(
    before: Map<Seq<char>, Seq<u8>>,
    after: Map<Seq<char>, Seq<u8>>,
    prefix: Seq<char>,
    hmac_key: Seq<char>,
    role_name: Seq<char>,
    secret_id: Seq<char>,
    r: Result<(), RvError>,
) -> bool {
    let key = registered_key(prefix, hmac_key, role_name, secret_id);
    &&& (r is Ok ==> register_inputs_ok(prefix, hmac_key, role_name, secret_id)
        && !before.contains_key(key) && after.contains_key(key))
    &&& (register_inputs_ok(prefix, hmac_key, role_name, secret_id) && before.contains_key(key) ==> r is Err
        && (r->Err_0 == RvError::AlreadyRegistered || r->Err_0 == RvError::CryptoFailure || r->Err_0
        == RvError::StorageError))
}

/// A read of `key` that succeeds returns the value stored there, or `None`
/// where nothing is.
pub open spec fn record_read(
    contents: Map<Seq<char>, Seq<u8>>,
    key: Seq<char>,
    r: Result<Option<Vec<u8>>, RvError>,
) -> bool {
    r is Ok ==> (r->Ok_0 is Some <==> contents.contains_key(key)) && (r->Ok_0 is Some ==> r->Ok_0->Some_0@
        == contents[key])
}

/// `k` is a record directly under `role_prefix`: the rest of it holds no `/`.
pub open spec fn leaf_under(role_prefix: Seq<char>, k: Seq<char>) -> bool {
    role_prefix.is_prefix_of(k) && !k.skip(role_prefix.len() as int).contains('/')
}

/// How flushing a role relates the store before it to the store after it:
/// only records directly under the role's prefix are ever removed, and on
/// success all of them are.
pub open spec fn flush_outcome(
    before: Map<Seq<char>, Seq<u8>>,
    after: Map<Seq<char>, Seq<u8>>,
    prefix: Seq<char>,
    role_hmac: Seq<char>,
    r: Result<(), RvError>,
) -> bool {
    let role_prefix = prefix + role_hmac + seq!['/'];
    &&& forall|k: Seq<char>| #[trigger] after.contains_key(k) ==> before.contains_key(k) && after[k] == before[k]
    &&& forall|k: Seq<char>| before.contains_key(k) && !leaf_under(role_prefix, k) ==> #[trigger] after.contains_key(k)
    &&& r is Ok ==> forall|k: Seq<char>| leaf_under(role_prefix, k) ==> !#[trigger] after.contains_key(k)
}

/// The error that salting `value` gives whatever the hash computes: none where
/// the salt key is set and not empty and `value` is within the hash's bound.
pub open spec fn salt_failure(salt: Option<String>, value: Seq<char>) -> Option<RvError> {
    match salt {
        None => Some(RvError::NotInitialized),
        Some(k) => if encode_utf8(k@).len() == 0 {
            Some(RvError::InvalidInput)
        } else if encode_utf8(value).len() > MAX_HMAC_INPUT_LENGTH {
            Some(RvError::InputTooLarge)
        } else {
            None
        },
    }
}

/// A character takes at most four bytes of UTF-8.
proof fn lemma_utf8_len(chars: Seq<char>)
    ensures
        encode_utf8(chars).len() <= 4 * chars.len(),
    decreases chars.len(),
{
    if chars.len() > 0 {
        lemma_utf8_len(chars.drop_first());
        assert(vstd::utf8::encode_scalar(chars[0] as u32).len() <= 4);
    }
}

/// An accessor: 32 lower-case hexadecimal digits of 16 bytes.
pub open spec fn is_accessor(a: Seq<char>) -> bool {
    &&& a.len() == 2 * ACCESSOR_RANDOM_BYTES
    &&& exists|b: Seq<u8>| b.len() == ACCESSOR_RANDOM_BYTES && a == #[trigger] hex_of(b)
}

/// What a registration owes, whatever time it stamps: the errors its
/// arguments decide, the store and record untouched on every failure but a
/// failed final write, and on success both records written.
pub open spec fn register_post(
    salt: Option<String>,
    before: Map<Seq<char>, Seq<u8>>,
    after: Map<Seq<char>, Seq<u8>>,
    prefix: Seq<char>,
    hmac_key: Seq<char>,
    role_name: Seq<char>,
    secret_id: Seq<char>,
    old_e: SecretIdStorageEntry,
    new_e: SecretIdStorageEntry,
    r: Result<(), RvError>,
) -> bool {
    let key = registered_key(prefix, hmac_key, role_name, secret_id);
    let hmac_ok = encode_utf8(hmac_key).len() != 0 && encode_utf8(role_name).len() <= MAX_HMAC_INPUT_LENGTH
        && encode_utf8(secret_id).len() <= MAX_HMAC_INPUT_LENGTH;
    let secret_id_hmac = hmac_digest(hmac_key, secret_id);
    let ttl = capped_ttl(old_e.secret_id_ttl);
    &&& register_outcome(before, after, prefix, hmac_key, role_name, secret_id, r)
    &&& encode_utf8(hmac_key).len() == 0 ==> r == Err::<(), RvError>(RvError::InvalidInput)
    &&& encode_utf8(hmac_key).len() != 0 && encode_utf8(role_name).len() > MAX_HMAC_INPUT_LENGTH ==> r == Err::<
        (),
        RvError,
    >(RvError::InputTooLarge)
    &&& encode_utf8(hmac_key).len() != 0 && encode_utf8(secret_id).len() > MAX_HMAC_INPUT_LENGTH ==> r is Err
        && (r->Err_0 == RvError::InputTooLarge || r->Err_0 == RvError::CryptoFailure)
    &&& hmac_ok && prefix.len() == 0 ==> r is Err && (r->Err_0 == RvError::MissingArgument || r->Err_0
        == RvError::CryptoFailure)
    &&& r == Err::<(), RvError>(RvError::MissingArgument) ==> hmac_ok && prefix.len() == 0
    &&& r == Err::<(), RvError>(RvError::AlreadyRegistered) ==> register_inputs_ok(
        prefix,
        hmac_key,
        role_name,
        secret_id,
    ) && before.contains_key(key)
    &&& r == Err::<(), RvError>(RvError::NotInitialized) ==> salt is None
    &&& register_inputs_ok(prefix, hmac_key, role_name, secret_id) && salt is None ==> r is Err && (r->Err_0
        == RvError::NotInitialized || r->Err_0 == RvError::AlreadyRegistered || r->Err_0 == RvError::CryptoFailure
        || r->Err_0 == RvError::StorageError)
    &&& r is Err ==> (new_e == old_e && after == before) || (r->Err_0 == RvError::StorageError && salt is Some
        && after == with_accessor_record(before, prefix, salt->Some_0@, new_e.secret_id_accessor@, secret_id_hmac))
    &&& r is Ok ==> {
        &&& salt is Some
        &&& is_accessor(new_e.secret_id_accessor@)
        &&& hmac_digest(hmac_key, role_name).len() == 64
        &&& secret_id_hmac.len() == 64
        &&& digest_of(encode_utf8(salt->Some_0@), encode_utf8(new_e.secret_id_accessor@)).len() == 64
        &&& new_e.last_updated_time == new_e.creation_time
        &&& new_e.secret_id_ttl == ttl
        &&& new_e.expiration_time == expiry_after(new_e.creation_time, ttl, old_e.expiration_time)
        &&& new_e.secret_id_num_uses == old_e.secret_id_num_uses
        &&& new_e.metadata == old_e.metadata
        &&& old_e.wf() ==> new_e.wf()
        &&& new_e.cidr_list == old_e.cidr_list
        &&& new_e.token_cidr_list == old_e.token_cidr_list
        &&& after == with_accessor_record(before, prefix, salt->Some_0@, new_e.secret_id_accessor@, secret_id_hmac).insert(
            key,
            encode_utf8(secret_entry_json(new_e)),
        )
    }
}

/// The expiry time of a record registered at `now` with effective lifetime
/// `ttl`: unchanged when `ttl` is zero, else `now + ttl` (saturating).
pub open spec fn expiry_after(now: u64, ttl: u64, previous: u64) -> u64 {
    if ttl == 0 {
        previous
    } else if now + ttl > u64::MAX {
        u64::MAX
    } else {
        (now + ttl) as u64
    }
}

fn secret_id_index(prefix: &str, role_name_hmac: &str, secret_id_hmac: &str) -> (r: String)
    ensures
        r@ == secret_id_key(prefix@, role_name_hmac@, secret_id_hmac@),
{
    let mut out = String::from_str(prefix);
    out.append(role_name_hmac);
    out.append("/");
    out.append(secret_id_hmac);
    proof {
        reveal_strlit("/");
        assert(out@ =~= secret_id_key(prefix@, role_name_hmac@, secret_id_hmac@));
    }
    out
}

fn accessor_prefix(prefix: &str) -> (r: &'static str)
    ensures
        r@ == accessor_prefix_of(prefix@),
{
    let given = String::from_str(prefix);
    let local = String::from_str(SECRET_ID_LOCAL_PREFIX);
    if given == local {
        SECRET_ID_ACCESSOR_LOCAL_PREFIX
    } else {
        SECRET_ID_ACCESSOR_PREFIX
    }
}

/// Relies on openssl's `rand_bytes`: on success the buffer of `n` bytes is
/// filled with random bytes.
#[verifier::external_body]
fn random_bytes(n: usize) -> (r: Option<Vec<u8>>)
    requires
        n <= i32::MAX,
    ensures
        r is Some ==> r->Some_0@.len() == n,
{
    let mut buf = vec![0u8; n];
    openssl::rand::rand_bytes(&mut buf).ok()?;
    Some(buf)
}

/// Relies on `SystemTime::now`: the current time in whole seconds since the
/// Unix epoch (zero for a clock set before it).
#[verifier::external_body]
fn now_secs() -> (r: u64) {
    std::time::SystemTime::now().duration_since(std::time::UNIX_EPOCH).map(|d| d.as_secs()).unwrap_or(0)
}

/// The state shared by the secret-id operations: the salt key that the
/// salting subsystem hashes accessors with, once it is initialized.
pub struct AppRoleBackendInner {
    pub salt: Option<String>,
}

impl AppRoleBackendInner {
    pub fn new(salt: Option<String>) -> (r: AppRoleBackendInner)
        ensures
            r.salt == salt,
    {
        AppRoleBackendInner { salt }
    }

    /// The salted form of `value`: its keyed hash under the salt key.
    pub fn salt_id(&self, value: &str) -> (r: Result<String, RvError>)
        ensures
            self.salt is None ==> r == Err::<String, RvError>(RvError::NotInitialized),
            self.salt is Some ==> create_hmac_post(self.salt->Some_0@, value@, r),
    {
        match &self.salt {
            None => Err(RvError::NotInitialized),
            Some(s) => create_hmac(s.as_str(), value),
        }
    }

    /// Writes the secret-id record under `prefix/role_name_hmac/secret_id_hmac`.
    /// The caller serializes access to that key.
    pub fn set_secret_id_storage_entry<S: Storage>(
        &self,
        storage: &mut S,
        role_secret_id_prefix: &str,
        role_name_hmac: &str,
        secret_id_hmac: &str,
        secret_entry: &SecretIdStorageEntry,
    ) -> (r: Result<(), RvError>)
        ensures
            (r == Err::<(), RvError>(RvError::MissingArgument)) <==> (role_secret_id_prefix@.len() == 0
                || role_name_hmac@.len() == 0 || secret_id_hmac@.len() == 0),
            r is Ok ==> final(storage).contents() == old(storage).contents().insert(
                secret_id_key(role_secret_id_prefix@, role_name_hmac@, secret_id_hmac@),
                encode_utf8(secret_entry_json(*secret_entry)),
            ),
            r is Err ==> r->Err_0 == RvError::MissingArgument || r->Err_0 == RvError::StorageError,
            r is Err ==> final(storage).contents() == old(storage).contents(),
    {
        if role_secret_id_prefix.is_empty() || secret_id_hmac.is_empty() || role_name_hmac.is_empty() {
            return Err(RvError::MissingArgument);
        }
        let index = secret_id_index(role_secret_id_prefix, role_name_hmac, secret_id_hmac);
        let value = secret_entry.encode();
        let entry = StorageEntry::new(index.as_str(), value);
        storage.put(&entry)
    }

    /// The raw secret-id record under `prefix/role_name_hmac/secret_id_hmac`,
    /// if any. The caller serializes access to that key.
    pub fn get_secret_id_storage_record<S: Storage>(
        &self,
        storage: &S,
        role_secret_id_prefix: &str,
        role_name_hmac: &str,
        secret_id_hmac: &str,
    ) -> (r: Result<Option<Vec<u8>>, RvError>)
        ensures
            (r == Err::<Option<Vec<u8>>, RvError>(RvError::MissingArgument)) <==> (role_name_hmac@.len() == 0
                || secret_id_hmac@.len() == 0),
            r is Err ==> r->Err_0 == RvError::MissingArgument || r->Err_0 == RvError::StorageError,
            record_read(
                storage.contents(),
                secret_id_key(role_secret_id_prefix@, role_name_hmac@, secret_id_hmac@),
                r,
            ),
    {
        if secret_id_hmac.is_empty() || role_name_hmac.is_empty() {
            return Err(RvError::MissingArgument);
        }
        let index = secret_id_index(role_secret_id_prefix, role_name_hmac, secret_id_hmac);
        match storage.get(index.as_str())? {
            None => Ok(None),
            Some(e) => Ok(Some(e.value)),
        }
    }

    /// Removes the secret-id record under `prefix/role_name_hmac/secret_id_hmac`;
    /// removing an absent record succeeds. The caller serializes access to that key.
    pub fn delete_secret_id_storage_entry<S: Storage>(
        &self,
        storage: &mut S,
        role_secret_id_prefix: &str,
        role_name_hmac: &str,
        secret_id_hmac: &str,
    ) -> (r: Result<(), RvError>)
        ensures
            (r == Err::<(), RvError>(RvError::MissingArgument)) <==> (role_name_hmac@.len() == 0
                || secret_id_hmac@.len() == 0),
            r is Err ==> r->Err_0 == RvError::MissingArgument || r->Err_0 == RvError::StorageError,
            r is Ok ==> final(storage).contents() == old(storage).contents().remove(
                secret_id_key(role_secret_id_prefix@, role_name_hmac@, secret_id_hmac@),
            ),
            r is Err ==> final(storage).contents() == old(storage).contents(),
    {
        if secret_id_hmac.is_empty() || role_name_hmac.is_empty() {
            return Err(RvError::MissingArgument);
        }
        let index = secret_id_index(role_secret_id_prefix, role_name_hmac, secret_id_hmac);
        storage.delete(index.as_str())
    }

    /// The effective lifetime of a secret-id: the requested one, capped at the
    /// maximum lease duration. Zero, meaning no expiry, is kept.
    pub fn derive_secret_id_ttl(&self, secret_id_ttl: u64) -> (r: u64)
        ensures
            r == capped_ttl(secret_id_ttl),
            secret_id_ttl <= MAX_LEASE_DURATION_SECS ==> r == secret_id_ttl,
            secret_id_ttl > MAX_LEASE_DURATION_SECS ==> r == MAX_LEASE_DURATION_SECS,
    {
        if secret_id_ttl > MAX_LEASE_DURATION_SECS {
            return MAX_LEASE_DURATION_SECS;
        }
        secret_id_ttl
    }

    /// The raw accessor record for `secret_id_accessor`, if any.
    pub fn get_secret_id_accessor_record<S: Storage>(
        &self,
        storage: &S,
        secret_id_accessor: &str,
        role_secret_id_prefix: &str,
    ) -> (r: Result<Option<Vec<u8>>, RvError>)
        ensures
            secret_id_accessor@.len() == 0 ==> r == Err::<Option<Vec<u8>>, RvError>(RvError::MissingArgument),
            secret_id_accessor@.len() != 0 && salt_failure(self.salt, secret_id_accessor@) is Some ==> r == Err::<
                Option<Vec<u8>>,
                RvError,
            >(salt_failure(self.salt, secret_id_accessor@)->Some_0),
            r is Err ==> r->Err_0 == RvError::MissingArgument || r->Err_0 == RvError::CryptoFailure || r->Err_0
                == RvError::StorageError || salt_failure(self.salt, secret_id_accessor@) == Some(r->Err_0),
            r is Ok ==> self.salt is Some && record_read(
                storage.contents(),
                accessor_key(role_secret_id_prefix@, self.salt->Some_0@, secret_id_accessor@),
                r,
            ),
    {
        if secret_id_accessor.is_empty() {
            return Err(RvError::MissingArgument);
        }
        let index = self.accessor_index(secret_id_accessor, role_secret_id_prefix)?;
        match storage.get(index.as_str())? {
            None => Ok(None),
            Some(e) => Ok(Some(e.value)),
        }
    }

    fn accessor_index(&self, secret_id_accessor: &str, role_secret_id_prefix: &str) -> (r: Result<String, RvError>)
        ensures
            salt_failure(self.salt, secret_id_accessor@) is Some ==> r == Err::<String, RvError>(
                salt_failure(self.salt, secret_id_accessor@)->Some_0,
            ),
            r is Err ==> r->Err_0 == RvError::CryptoFailure || salt_failure(self.salt, secret_id_accessor@) == Some(
                r->Err_0,
            ),
            r is Ok ==> self.salt is Some && r->Ok_0@ == accessor_key(
                role_secret_id_prefix@,
                self.salt->Some_0@,
                secret_id_accessor@,
            ),
            r is Ok ==> digest_of(encode_utf8(self.salt->Some_0@), encode_utf8(secret_id_accessor@)).len() == 64,
    {
        let salted = self.salt_id(secret_id_accessor)?;
        let mut index = String::from_str(accessor_prefix(role_secret_id_prefix));
        index.append(salted.as_str());
        Ok(index)
    }

    /// Writes the accessor record that maps `accessor` to `secret_id_hmac`.
    fn write_accessor_record<S: Storage>(
        &self,
        storage: &mut S,
        accessor: &str,
        secret_id_hmac: &str,
        role_secret_id_prefix: &str,
    ) -> (r: Result<(), RvError>)
        ensures
            salt_failure(self.salt, accessor@) is Some ==> r == Err::<(), RvError>(
                salt_failure(self.salt, accessor@)->Some_0,
            ),
            r is Err ==> r->Err_0 == RvError::CryptoFailure || r->Err_0 == RvError::StorageError || salt_failure(
                self.salt,
                accessor@,
            ) == Some(r->Err_0),
            r is Ok ==> self.salt is Some && final(storage).contents() == with_accessor_record(
                old(storage).contents(),
                role_secret_id_prefix@,
                self.salt->Some_0@,
                accessor@,
                secret_id_hmac@,
            ),
            r is Ok ==> digest_of(encode_utf8(self.salt->Some_0@), encode_utf8(accessor@)).len() == 64,
            r is Err ==> final(storage).contents() == old(storage).contents(),
    {
        let index = self.accessor_index(accessor, role_secret_id_prefix)?;
        let record = SecretIdAccessorStorageEntry { secret_id_hmac: String::from_str(secret_id_hmac) };
        let stored = StorageEntry::new(index.as_str(), record.encode());
        storage.put(&stored)
    }

    /// Assigns `accessor` to the record and writes the accessor record that
    /// maps it to `secret_id_hmac`.
    pub fn create_secret_id_accessor_entry_with<S: Storage>(
        &self,
        storage: &mut S,
        entry: &mut SecretIdStorageEntry,
        accessor: String,
        secret_id_hmac: &str,
        role_secret_id_prefix: &str,
    ) -> (r: Result<(), RvError>)
        ensures
            final(entry).secret_id_accessor@ == accessor@,
            same_but_accessor(*final(entry), *old(entry)),
            salt_failure(self.salt, accessor@) is Some ==> r == Err::<(), RvError>(
                salt_failure(self.salt, accessor@)->Some_0,
            ),
            r is Err ==> r->Err_0 == RvError::CryptoFailure || r->Err_0 == RvError::StorageError || salt_failure(
                self.salt,
                accessor@,
            ) == Some(r->Err_0),
            r is Ok ==> self.salt is Some && final(storage).contents() == with_accessor_record(
                old(storage).contents(),
                role_secret_id_prefix@,
                self.salt->Some_0@,
                accessor@,
                secret_id_hmac@,
            ),
            r is Err ==> final(storage).contents() == old(storage).contents(),
    {
        entry.secret_id_accessor = accessor;
        self.write_accessor_record(storage, entry.secret_id_accessor.as_str(), secret_id_hmac, role_secret_id_prefix)
    }

    /// A fresh accessor: hexadecimal text of random bytes.
    fn new_accessor(&self) -> (r: Result<String, RvError>)
        ensures
            r is Err ==> r->Err_0 == RvError::CryptoFailure,
            r is Ok ==> is_accessor(r->Ok_0@),
    {
        let bytes = match random_bytes(ACCESSOR_RANDOM_BYTES) {
            Some(b) => b,
            None => return Err(RvError::CryptoFailure),
        };
        let accessor = hex_encode(bytes.as_slice());
        proof {
            lemma_hex_len(bytes@);
        }
        Ok(accessor)
    }

    /// Fails with the error a missing or empty salt key gives.
    fn check_salt(&self) -> (r: Result<(), RvError>)
        ensures
            self.salt is None ==> r == Err::<(), RvError>(RvError::NotInitialized),
            self.salt is Some && encode_utf8(self.salt->Some_0@).len() == 0 ==> r == Err::<(), RvError>(
                RvError::InvalidInput,
            ),
            self.salt is Some && encode_utf8(self.salt->Some_0@).len() != 0 ==> r is Ok,
    {
        match &self.salt {
            None => Err(RvError::NotInitialized),
            Some(s) => {
                if s.as_str().as_bytes().len() == 0 {
                    Err(RvError::InvalidInput)
                } else {
                    Ok(())
                }
            },
        }
    }

    /// Gives the record a fresh random accessor and writes the accessor record
    /// that maps it to `secret_id_hmac`.
    pub fn create_secret_id_accessor_entry<S: Storage>(
        &self,
        storage: &mut S,
        entry: &mut SecretIdStorageEntry,
        secret_id_hmac: &str,
        role_secret_id_prefix: &str,
    ) -> (r: Result<(), RvError>)
        ensures
            same_but_accessor(*final(entry), *old(entry)),
            self.salt is None ==> r == Err::<(), RvError>(RvError::NotInitialized) && *final(entry) == *old(entry),
            self.salt is Some && encode_utf8(self.salt->Some_0@).len() == 0 ==> r == Err::<(), RvError>(
                RvError::InvalidInput,
            ) && *final(entry) == *old(entry),
            r is Err ==> r->Err_0 == RvError::NotInitialized || r->Err_0 == RvError::InvalidInput || r->Err_0
                == RvError::CryptoFailure || r->Err_0 == RvError::StorageError,
            r is Ok ==> is_accessor(final(entry).secret_id_accessor@),
            r is Ok ==> self.salt is Some && final(storage).contents() == with_accessor_record(
                old(storage).contents(),
                role_secret_id_prefix@,
                self.salt->Some_0@,
                final(entry).secret_id_accessor@,
                secret_id_hmac@,
            ),
            r is Err ==> final(storage).contents() == old(storage).contents(),
    {
        self.check_salt()?;
        let accessor = self.new_accessor()?;
        proof {
            lemma_utf8_len(accessor@);
        }
        self.create_secret_id_accessor_entry_with(storage, entry, accessor, secret_id_hmac, role_secret_id_prefix)
    }

    /// Registers `secret_id` for `role_name` at time `now` (seconds since the
    /// Unix epoch).
    ///
    /// Computes the two digests, then fails with `AlreadyRegistered` where the
    /// secret-id record exists. Else draws a fresh accessor, writes the
    /// accessor record, stamps the creation and update times, caps the
    /// lifetime, sets the expiry where the lifetime is not zero, and writes the
    /// secret-id record.
    pub fn register_secret_id_entry_at<S: Storage>(
        &self,
        storage: &mut S,
        role_name: &str,
        secret_id: &str,
        hmac_key: &str,
        role_secret_id_prefix: &str,
        secret_entry: &mut SecretIdStorageEntry,
        now: u64,
    ) -> (r: Result<(), RvError>)
        ensures
            register_post(
                self.salt,
                old(storage).contents(),
                final(storage).contents(),
                role_secret_id_prefix@,
                hmac_key@,
                role_name@,
                secret_id@,
                *old(secret_entry),
                *final(secret_entry),
                r,
            ),
            r is Ok ==> final(secret_entry).creation_time == now,
    {
        let role_name_hmac = create_hmac(hmac_key, role_name)?;
        let secret_id_hmac = create_hmac(hmac_key, secret_id)?;
        if role_secret_id_prefix.is_empty() {
            return Err(RvError::MissingArgument);
        }
        // The store is borrowed exclusively, so the check and the writes below
        // cannot interleave with another registration.
        let existing = self.get_secret_id_storage_record(
            storage,
            role_secret_id_prefix,
            role_name_hmac.as_str(),
            secret_id_hmac.as_str(),
        )?;
        if existing.is_some() {
            return Err(RvError::AlreadyRegistered);
        }
        self.check_salt()?;
        let accessor = self.new_accessor()?;
        self.write_accessor_record(storage, accessor.as_str(), secret_id_hmac.as_str(), role_secret_id_prefix)?;
        secret_entry.secret_id_accessor = accessor;
        secret_entry.creation_time = now;
        secret_entry.last_updated_time = now;
        let ttl = self.derive_secret_id_ttl(secret_entry.secret_id_ttl);
        secret_entry.secret_id_ttl = ttl;
        if ttl != 0 {
            secret_entry.expiration_time = now.saturating_add(ttl);
        }
        self.set_secret_id_storage_entry(
            storage,
            role_secret_id_prefix,
            role_name_hmac.as_str(),
            secret_id_hmac.as_str(),
            secret_entry,
        )
    }

    /// Registers `secret_id` for `role_name` at the current time; see
    /// `register_secret_id_entry_at`.
    pub fn register_secret_id_entry<S: Storage>(
        &self,
        storage: &mut S,
        role_name: &str,
        secret_id: &str,
        hmac_key: &str,
        role_secret_id_prefix: &str,
        secret_entry: &mut SecretIdStorageEntry,
    ) -> (r: Result<(), RvError>)
        ensures
            register_post(
                self.salt,
                old(storage).contents(),
                final(storage).contents(),
                role_secret_id_prefix@,
                hmac_key@,
                role_name@,
                secret_id@,
                *old(secret_entry),
                *final(secret_entry),
                r,
            ),
    {
        let now = now_secs();
        self.register_secret_id_entry_at(
            storage,
            role_name,
            secret_id,
            hmac_key,
            role_secret_id_prefix,
            secret_entry,
            now,
        )
    }

    /// Removes every secret-id record listed under `role_name`. Listed names
    /// that hold a `/` are not secret-id digests and are skipped. Accessor
    /// records are left to the caller.
    pub fn flush_role_secrets<S: Storage>(
        &self,
        storage: &mut S,
        role_name: &str,
        hmac_key: &str,
        role_secret_id_prefix: &str,
    ) -> (r: Result<(), RvError>)
        ensures
            encode_utf8(hmac_key@).len() == 0 ==> r == Err::<(), RvError>(RvError::InvalidInput),
            encode_utf8(hmac_key@).len() != 0 && encode_utf8(role_name@).len() > MAX_HMAC_INPUT_LENGTH
                ==> r == Err::<(), RvError>(RvError::InputTooLarge),
            r is Err ==> r->Err_0 == RvError::InvalidInput || r->Err_0 == RvError::InputTooLarge || r->Err_0
                == RvError::CryptoFailure || r->Err_0 == RvError::StorageError,
            r is Err && r->Err_0 != RvError::StorageError ==> final(storage).contents() == old(storage).contents(),
            flush_outcome(
                old(storage).contents(),
                final(storage).contents(),
                role_secret_id_prefix@,
                hmac_digest(hmac_key@, role_name@),
                r,
            ),
    {
        let role_name_hmac = create_hmac(hmac_key, role_name)?;
        let ghost role_hmac = role_name_hmac@;
        let ghost before = storage.contents();
        let mut role_prefix = String::from_str(role_secret_id_prefix);
        role_prefix.append(role_name_hmac.as_str());
        role_prefix.append("/");
        proof {
            reveal_strlit("/");
        }
        let names = storage.list(role_prefix.as_str())?;
        let mut i: usize = 0;
        while i < names.len()
            invariant
                i <= names@.len(),
                role_prefix@ == role_secret_id_prefix@ + role_hmac + seq!['/'],
                role_name_hmac@ == role_hmac,
                before == old(storage).contents(),
                role_hmac == hmac_digest(hmac_key@, role_name@),
                encode_utf8(hmac_key@).len() != 0,
                encode_utf8(role_name@).len() <= MAX_HMAC_INPUT_LENGTH,
                forall|j: int|
                    0 <= j < i && !names@[j]@.contains('/') ==> !(#[trigger] storage.contents().contains_key(
                        role_prefix@ + names@[j]@,
                    )),
                forall|k: Seq<char>| #[trigger] storage.contents().contains_key(k) ==> before.contains_key(k)
                    && storage.contents()[k] == before[k],
                forall|k: Seq<char>| before.contains_key(k) && !leaf_under(role_prefix@, k)
                    ==> #[trigger] storage.contents().contains_key(k),
            decreases names@.len() - i,
        {
            if split_once_slash(names[i].as_str()).is_none() {
                let index = secret_id_index(role_secret_id_prefix, role_name_hmac.as_str(), names[i].as_str());
                proof {
                    assert(index@ =~= role_prefix@ + names@[i as int]@);
                    assert(role_prefix@.is_prefix_of(index@)) by {
                        assert(index@.subrange(0, role_prefix@.len() as int) =~= role_prefix@);
                    }
                    assert(index@.skip(role_prefix@.len() as int) =~= names@[i as int]@);
                }
                match storage.delete(index.as_str()) {
                    Ok(()) => {},
                    Err(e) => {
                        return Err(e);
                    },
                }
            }
            i = i + 1;
        }
        proof {
            assert forall|k: Seq<char>| leaf_under(role_prefix@, k) implies !#[trigger] storage.contents().contains_key(
                k,
            ) by {
                let s = k.skip(role_prefix@.len() as int);
                assert(k =~= role_prefix@ + s);
                if before.contains_key(role_prefix@ + s) {
                    let j = choose|j: int| 0 <= j < names@.len() && #[trigger] names@[j]@ == s;
                    assert(!storage.contents().contains_key(role_prefix@ + names@[j]@));
                }
            }
        }
        Ok(())
    }

    /// Removes the accessor record for `secret_id_accessor`; removing an absent
    /// record succeeds.
    pub fn delete_secret_id_accessor_entry<S: Storage>(
        &self,
        storage: &mut S,
        secret_id_accessor: &str,
        role_secret_id_prefix: &str,
    ) -> (r: Result<(), RvError>)
        ensures
            secret_id_accessor@.len() == 0 ==> r == Err::<(), RvError>(RvError::MissingArgument),
            secret_id_accessor@.len() != 0 && salt_failure(self.salt, secret_id_accessor@) is Some ==> r == Err::<
                (),
                RvError,
            >(salt_failure(self.salt, secret_id_accessor@)->Some_0),
            r is Err ==> r->Err_0 == RvError::MissingArgument || r->Err_0 == RvError::CryptoFailure || r->Err_0
                == RvError::StorageError || salt_failure(self.salt, secret_id_accessor@) == Some(r->Err_0),
            r is Ok ==> self.salt is Some && final(storage).contents() == old(storage).contents().remove(
                accessor_key(role_secret_id_prefix@, self.salt->Some_0@, secret_id_accessor@),
            ),
            r is Err ==> final(storage).contents() == old(storage).contents(),
    {
        if secret_id_accessor.is_empty() {
            return Err(RvError::MissingArgument);
        }
        let index = self.accessor_index(secret_id_accessor, role_secret_id_prefix)?;
        storage.delete(index.as_str())
    }
}


/// Registering the same secret-id for the same role twice never succeeds
/// twice: once a registration has succeeded, a later one on the resulting
/// store fails.
pub proof fn lemma_register_unique(
    s0: Map<Seq<char>, Seq<u8>>,
    s1: Map<Seq<char>, Seq<u8>>,
    s2: Map<Seq<char>, Seq<u8>>,
    prefix: Seq<char>,
    hmac_key: Seq<char>,
    role_name: Seq<char>,
    secret_id: Seq<char>,
    first: Result<(), RvError>,
    second: Result<(), RvError>,
)
    requires
        register_outcome(s0, s1, prefix, hmac_key, role_name, secret_id, first),
        register_outcome(s1, s2, prefix, hmac_key, role_name, secret_id, second),
        first is Ok,
    ensures
        second is Err,
        second->Err_0 == RvError::AlreadyRegistered || second->Err_0 == RvError::CryptoFailure
            || second->Err_0 == RvError::StorageError,
{
}

/// After a successful flush of a role, reading the record of any secret-id
/// digest under that role finds nothing.
pub proof fn lemma_flush_then_read(
    before: Map<Seq<char>, Seq<u8>>,
    after: Map<Seq<char>, Seq<u8>>,
    prefix: Seq<char>,
    role_hmac: Seq<char>,
    secret_id_hmac: Seq<char>,
    read: Result<Option<Vec<u8>>, RvError>,
)
    requires
        flush_outcome(before, after, prefix, role_hmac, Ok(())),
        record_read(after, secret_id_key(prefix, role_hmac, secret_id_hmac), read),
        !secret_id_hmac.contains('/'),
        read is Ok,
    ensures
        read->Ok_0 is None,
{
    let role_prefix = prefix + role_hmac + seq!['/'];
    let k = secret_id_key(prefix, role_hmac, secret_id_hmac);
    assert(k =~= role_prefix + secret_id_hmac);
    assert(k.subrange(0, role_prefix.len() as int) =~= role_prefix);
    assert(k.skip(role_prefix.len() as int) =~= secret_id_hmac);
    assert(leaf_under(role_prefix, k));
    assert(!after.contains_key(k));
}

/// Flushing a role a second time, after a flush that succeeded, changes
/// nothing.
pub proof fn lemma_flush_idempotent(
    s0: Map<Seq<char>, Seq<u8>>,
    s1: Map<Seq<char>, Seq<u8>>,
    s2: Map<Seq<char>, Seq<u8>>,
    prefix: Seq<char>,
    role_hmac: Seq<char>,
    second: Result<(), RvError>,
)
    requires
        flush_outcome(s0, s1, prefix, role_hmac, Ok(())),
        flush_outcome(s1, s2, prefix, role_hmac, second),
    ensures
        s2 == s1,
{
    let role_prefix = prefix + role_hmac + seq!['/'];
    assert forall|k: Seq<char>| #[trigger] s1.contains_key(k) implies s2.contains_key(k) by {
        assert(!leaf_under(role_prefix, k));
    }
    assert(s2 =~= s1);
}

/// After a successful registration, the accessor of the registered record
/// resolves to an accessor record that holds the keyed hash of the secret-id.
pub proof fn lemma_accessor_resolves(
    salt: Option<String>,
    before: Map<Seq<char>, Seq<u8>>,
    after: Map<Seq<char>, Seq<u8>>,
    prefix: Seq<char>,
    hmac_key: Seq<char>,
    role_name: Seq<char>,
    secret_id: Seq<char>,
    old_e: SecretIdStorageEntry,
    new_e: SecretIdStorageEntry,
)
    requires
        register_post(salt, before, after, prefix, hmac_key, role_name, secret_id, old_e, new_e, Ok(())),
    ensures
        ({
            let key = accessor_key(prefix, salt->Some_0@, new_e.secret_id_accessor@);
            after.contains_key(key) && after[key] == encode_utf8(accessor_entry_json(hmac_digest(hmac_key, secret_id)))
        }),
{
    reveal_strlit("secret_id_local/");
    reveal_strlit("accessor/");
    reveal_strlit("accessor_local/");
    let key = accessor_key(prefix, salt->Some_0@, new_e.secret_id_accessor@);
    let rk = registered_key(prefix, hmac_key, role_name, secret_id);
    assert(accessor_prefix_of(prefix).len() <= 15);
    assert(key.len() <= 79);
    assert(rk.len() >= 129);
    assert(key != rk);
}

} // verus!
