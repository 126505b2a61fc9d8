use vstd::prelude::*;
use rand::Rng;
use sha2::Digest;
use vstd::string::StringExecFns;
use vstd::utf8::encode_utf8;
use crate::model::{ApiKeyInfo, ApiKeyRecord};
use crate::store::{FleetStore, new_uuid};

verus! {

/// The SHA-256 digest of a byte string.
pub uninterp spec fn sha256_of(b: Seq<u8>) -> Seq<u8>;

/// Lower-case hexadecimal digit of a value below 16.
pub open spec fn hex_digit(n: u8) -> char {
    if n < 10 {
        ((48 + n) as u8) as char
    } else {
        ((87 + n) as u8) as char
    }
}

/// Two lower-case hexadecimal digits per byte, high nibble first.
pub open spec fn hex_lower(b: Seq<u8>) -> Seq<char>
    decreases b.len(),
{
    if b.len() == 0 {
        Seq::<char>::empty()
    } else {
        hex_lower(b.drop_last()) + seq![hex_digit(b.last() / 16), hex_digit(b.last() % 16)]
    }
}

/// What is stored in place of a credential: the hex digest of its UTF-8 bytes.
pub open spec fn key_digest(key: Seq<char>) -> Seq<char> {
    hex_lower(sha256_of(encode_utf8(key)))
}

/// Relies on `sha2::Sha256`: the digest of the bytes, 32 bytes long.
#[verifier::external_body]
fn sha256_digest(b: &[u8]) -> (r: Vec<u8>)
    ensures
        r@ == sha256_of(b@),
        r@.len() == 32,
{
    let mut hasher = sha2::Sha256::new();
    hasher.update(b);
    hasher.finalize().to_vec()
}

/// Relies on `hex::encode`: two lower-case digits per byte, high nibble first.
#[verifier::external_body]
fn hex_encode(b: &[u8]) -> (r: String)
    ensures
        r@ == hex_lower(b@),
{
    hex::encode(b)
}

/// Relies on `rand::thread_rng` and `Rng::gen`: `n` bytes from a
/// cryptographically secure generator.
#[verifier::external_body]
fn random_bytes(n: usize) -> (r: Vec<u8>)
    ensures
        r@.len() == n,
{
    let mut rng = rand::thread_rng();
    (0..n).map(|_| rng.gen::<u8>()).collect()
}

/// Length in bytes of the random part of a credential.
pub const KEY_BYTES: usize = 32;

/// A new credential: the prefix `ask_` and the hex form of 32 random bytes.
pub fn generate_api_key() -> (r: String)
    ensures
        exists|b: Seq<u8>| b.len() == KEY_BYTES && r@ == "ask_"@ + hex_lower(b),
{
    let bytes = random_bytes(KEY_BYTES);
    let digits = hex_encode(bytes.as_slice());
    let mut key = String::from_str("ask_");
    key.append(digits.as_str());
    key
}

/// The stored form of a credential.
pub fn hash_api_key(key: &str) -> (r: String)
    ensures
        r@ == key_digest(key@),
{
    let digest = sha256_digest(key.as_bytes());
    hex_encode(digest.as_slice())
}

/// Some enabled credential has digest `digest`.
pub open spec fn key_accepted(ks: Seq<ApiKeyRecord>, digest: Seq<char>) -> bool {
    exists|i: int| 0 <= i < ks.len() && ks[i].enabled && (#[trigger] ks[i].key_hash@) == digest
}

pub open spec fn touched(k: ApiKeyRecord, now: u64) -> ApiKeyRecord {
    ApiKeyRecord { last_used: Some(now), ..k }
}

/// The outcome of validating a token with digest `digest` at time `now`: `ok`
/// tells whether an enabled credential matches; if so, every credential with that
/// digest is marked used at `now`, else nothing changes.
pub open spec fn validated(
    old: Seq<ApiKeyRecord>,
    digest: Seq<char>,
    now: u64,
    ok: bool,
    new: Seq<ApiKeyRecord>,
) -> bool {
    &&& ok == key_accepted(old, digest)
    &&& new.len() == old.len()
    &&& forall|i: int|
        0 <= i < old.len() ==> #[trigger] new[i] == if ok && old[i].key_hash@ == digest {
            touched(old[i], now)
        } else {
            old[i]
        }
}

fn copy_key(k: &ApiKeyRecord) -> (r: ApiKeyRecord)
    ensures
        r == *k,
{
    ApiKeyRecord {
        id: k.id.clone(),
        name: k.name.clone(),
        key_hash: k.key_hash.clone(),
        created_at: k.created_at,
        last_used: k.last_used,
        enabled: k.enabled,
    }
}

impl FleetStore {
    /// Issues a credential named `name`: only its digest is stored, and the raw
    /// token is returned, this once.
    pub fn create_api_key(&mut self, name: &str, now: u64) -> (r: String)
        requires
            old(self).wf(),
        ensures
            final(self).wf(),
            final(self).api_keys@.len() == old(self).api_keys@.len() + 1,
            final(self).api_keys@.subrange(0, old(self).api_keys@.len() as int) == old(self).api_keys@,
            final(self).api_keys@.last().key_hash@ == key_digest(r@),
            final(self).api_keys@.last().name@ == name@,
            final(self).api_keys@.last().created_at == now,
            final(self).api_keys@.last().last_used.is_none(),
            final(self).api_keys@.last().enabled,
            exists|b: Seq<u8>| b.len() == KEY_BYTES && r@ == "ask_"@ + hex_lower(b),
            final(self).machines == old(self).machines,
            final(self).metrics == old(self).metrics,
            final(self).policies == old(self).policies,
            final(self).audit == old(self).audit,
    {
        let key = generate_api_key();
        let key_hash = hash_api_key(key.as_str());
        let ghost before = self.api_keys@;
        self.api_keys.push(
            ApiKeyRecord {
                id: new_uuid(),
                name: name.to_owned(),
                key_hash,
                created_at: now,
                last_used: None,
                enabled: true,
            },
        );
        assert(self.api_keys@.subrange(0, before.len() as int) =~= before);
        key
    }

    /// Whether `key` belongs to an enabled credential. On success every credential
    /// with the key's digest is marked used at `now`.
    pub fn validate_api_key(&mut self, key: &str, now: u64) -> (ok: bool)
        requires
            old(self).wf(),
        ensures
            final(self).wf(),
            validated(old(self).api_keys@, key_digest(key@), now, ok, final(self).api_keys@),
            !ok ==> final(self).api_keys == old(self).api_keys,
            final(self).machines == old(self).machines,
            final(self).metrics == old(self).metrics,
            final(self).policies == old(self).policies,
            final(self).audit == old(self).audit,
    {
        let digest = hash_api_key(key);
        let ghost orig = self.api_keys@;
        let mut found = false;
        let mut i: usize = 0;
        while i < self.api_keys.len()
            invariant
                orig == self.api_keys@,
                i <= orig.len(),
                found == exists|j: int| 0 <= j < i && orig[j].enabled && (#[trigger] orig[j].key_hash@) == digest@,
            decreases orig.len() - i,
        {
            if self.api_keys[i].enabled && self.api_keys[i].key_hash == digest {
                found = true;
            }
            i = i + 1;
        }
        if !found {
            return false;
        }
        let mut i: usize = 0;
        while i < self.api_keys.len()
            invariant
                self.machines == old(self).machines,
                self.metrics == old(self).metrics,
                self.policies == old(self).policies,
                self.audit == old(self).audit,
                self.api_keys@.len() == orig.len(),
                i <= orig.len(),
                forall|k: int|
                    0 <= k < i ==> #[trigger] self.api_keys@[k] == if orig[k].key_hash@ == digest@ {
                        touched(orig[k], now)
                    } else {
                        orig[k]
                    },
                forall|k: int| i <= k < orig.len() ==> #[trigger] self.api_keys@[k] == orig[k],
            decreases orig.len() - i,
        {
            if self.api_keys[i].key_hash == digest {
                let mut k = copy_key(&self.api_keys[i]);
                k.last_used = Some(now);
                self.api_keys.set(i, k);
            }
            i = i + 1;
        }
        true
    }

    /// Enables or disables the credential `id`.
    pub fn set_api_key_enabled(&mut self, id: &str, enabled: bool)
        requires
            old(self).wf(),
        ensures
            final(self).wf(),
            final(self).api_keys@.len() == old(self).api_keys@.len(),
            forall|i: int|
                0 <= i < old(self).api_keys@.len() ==> #[trigger] final(self).api_keys@[i] == if old(
                    self,
                ).api_keys@[i].id@ == id@ {
                    ApiKeyRecord { enabled, ..old(self).api_keys@[i] }
                } else {
                    old(self).api_keys@[i]
                },
            final(self).machines == old(self).machines,
            final(self).metrics == old(self).metrics,
            final(self).policies == old(self).policies,
            final(self).audit == old(self).audit,
    {
        let target = id.to_owned();
        let ghost orig = self.api_keys@;
        let mut i: usize = 0;
        while i < self.api_keys.len()
            invariant
                target@ == id@,
                self.machines == old(self).machines,
                self.metrics == old(self).metrics,
                self.policies == old(self).policies,
                self.audit == old(self).audit,
                self.api_keys@.len() == orig.len(),
                orig == old(self).api_keys@,
                i <= orig.len(),
                forall|k: int|
                    0 <= k < i ==> #[trigger] self.api_keys@[k] == if orig[k].id@ == id@ {
                        ApiKeyRecord { enabled, ..orig[k] }
                    } else {
                        orig[k]
                    },
                forall|k: int| i <= k < orig.len() ==> #[trigger] self.api_keys@[k] == orig[k],
            decreases orig.len() - i,
        {
            if self.api_keys[i].id == target {
                let mut k = copy_key(&self.api_keys[i]);
                k.enabled = enabled;
                self.api_keys.set(i, k);
            }
            i = i + 1;
        }
    }

    /// The stored credentials, without their digests.
    pub fn list_api_keys(&self) -> (r: Vec<ApiKeyInfo>)
        ensures
            r@.len() == self.api_keys@.len(),
            forall|i: int|
                0 <= i < r@.len() ==> {
                    let k = self.api_keys@[i];
                    &&& (#[trigger] r@[i]).id == k.id
                    &&& r@[i].name == k.name
                    &&& r@[i].created_at == k.created_at
                    &&& r@[i].last_used == k.last_used
                    &&& r@[i].enabled == k.enabled
                },
    {
        let mut out: Vec<ApiKeyInfo> = Vec::new();
        let mut i: usize = 0;
        while i < self.api_keys.len()
            invariant
                i <= self.api_keys@.len(),
                out@.len() == i,
                forall|j: int|
                    0 <= j < i ==> {
                        let k = self.api_keys@[j];
                        &&& (#[trigger] out@[j]).id == k.id
                        &&& out@[j].name == k.name
                        &&& out@[j].created_at == k.created_at
                        &&& out@[j].last_used == k.last_used
                        &&& out@[j].enabled == k.enabled
                    },
            decreases self.api_keys@.len() - i,
        {
            let k = &self.api_keys[i];
            out.push(
                ApiKeyInfo {
                    id: k.id.clone(),
                    name: k.name.clone(),
                    created_at: k.created_at,
                    last_used: k.last_used,
                    enabled: k.enabled,
                },
            );
            i = i + 1;
        }
        out
    }
}

/// A credential just issued validates on each call and is marked used by it.
pub proof fn lemma_fresh_key_validates(
    s0: Seq<ApiKeyRecord>,
    s1: Seq<ApiKeyRecord>,
    key: Seq<char>,
    now: u64,
    ok: bool,
    s2: Seq<ApiKeyRecord>,
)
    requires
        s1.len() == s0.len() + 1,
        s1.last().key_hash@ == key_digest(key),
        s1.last().enabled,
        validated(s1, key_digest(key), now, ok, s2),
    ensures
        ok,
        s2.last().last_used == Some(now),
{
    let n = s1.len() - 1;
    assert(s1[n].enabled && s1[n].key_hash@ == key_digest(key));
    assert(s2[n] == touched(s1[n], now));
}

/// A token whose credentials are all disabled never validates, and the
/// attempt changes nothing.
pub proof fn lemma_disabled_key_rejected(
    s1: Seq<ApiKeyRecord>,
    key: Seq<char>,
    now: u64,
    ok: bool,
    s2: Seq<ApiKeyRecord>,
)
    requires
        forall|i: int| 0 <= i < s1.len() && s1[i].key_hash@ == key_digest(key) ==> !s1[i].enabled,
        validated(s1, key_digest(key), now, ok, s2),
    ensures
        !ok,
        s2 == s1,
{
    assert(s2 =~= s1);
}

} // verus!
