use aes_gcm::aead::rand_core::RngCore;
use aes_gcm::aead::{Aead, KeyInit, OsRng};
use aes_gcm::{Aes256Gcm, Key, Nonce};
use vstd::prelude::*;
use vstd::utf8::encode_utf8;
use zeroize::Zeroize;

use crate::errors::CryptoError;

verus! {

/// A key-derivation function together with an authenticated cipher that
/// holds the key it derived last.
pub trait CryptoPort: Sized {
    /// The key derived by the last successful `init`, if any.
    spec fn key(&self) -> Option<Seq<u8>>;

    /// The key derived from a password and a salt.
    spec fn derived(password: Seq<char>, salt: Seq<u8>) -> Seq<u8>;

    /// The ciphertext, tag included, of `plaintext` under `key` and `nonce`.
    spec fn sealed(key: Seq<u8>, nonce: Seq<u8>, plaintext: Seq<u8>) -> Seq<u8>;

    /// Whether the cipher accepts `plaintext` at all.
    spec fn sealable(plaintext: Seq<u8>) -> bool;

    /// Whether the key-derivation function accepts `password`.
    spec fn kdf_accepts(password: Seq<char>) -> bool;

    /// How many bytes a ciphertext is longer than its plaintext.
    spec fn tag_len() -> nat;

    /// Sixteen random bytes; fails only when no randomness can be had.
    fn salt_gen(&self) -> (r: Result<[u8; 16], CryptoError>)
        ensures
            r is Err ==> r == Err::<[u8; 16], CryptoError>(CryptoError::RandomUnavailable),
    ;

    /// Derives the 32-byte key from `password` and `salt` and holds it in
    /// place of any earlier key.
    fn init(&mut self, password: &str, salt: &[u8]) -> (r: Result<(), CryptoError>)
        requires
            salt@.len() == 16,
        ensures
            Self::kdf_accepts(password@) <==> r is Ok,
            r is Ok ==> final(self).key() == Some(Self::derived(password@, salt@)),
            r is Ok ==> Self::derived(password@, salt@).len() == 32,
            r is Err ==> r == Err::<(), CryptoError>(CryptoError::KeyDerivationError),
            r is Err ==> final(self).key() == old(self).key(),
    ;

    /// Wipes and drops the held key.
    fn forget_key(&mut self)
        ensures
            final(self).key() is None,
    ;

    /// Encrypts under the held key with a fresh random nonce; gives the
    /// ciphertext and the nonce.
    fn encrypt(&self, plaintext: &[u8]) -> (r: Result<(Vec<u8>, [u8; 12]), CryptoError>)
        ensures
            self.key() is None ==> r == Err::<(Vec<u8>, [u8; 12]), CryptoError>(CryptoError::NotInitialized),
            self.key() is Some && Self::sealable(plaintext@) ==> (r is Ok || r == Err::<(Vec<u8>, [u8; 12]), CryptoError>(CryptoError::RandomUnavailable)),
            r matches Ok((c, n)) ==> {
                &&& self.key() is Some
                &&& Self::sealable(plaintext@)
                &&& c@ == Self::sealed(self.key().unwrap(), n@, plaintext@)
                &&& c@.len() == plaintext@.len() + Self::tag_len()
            },
    ;

    /// Decrypts under the held key. It succeeds exactly when `ciphertext` is
    /// the sealing of some accepted plaintext, and then gives that plaintext.
    fn decrypt(&self, ciphertext: &[u8], nonce: &[u8]) -> (r: Result<Vec<u8>, CryptoError>)
        ensures
            self.key() is None ==> r == Err::<Vec<u8>, CryptoError>(CryptoError::NotInitialized),
            self.key() is Some && nonce@.len() != 12 ==> r == Err::<Vec<u8>, CryptoError>(CryptoError::InvalidNonce),
            r matches Ok(p) ==> {
                &&& self.key() is Some
                &&& nonce@.len() == 12
                &&& ciphertext@ == Self::sealed(self.key().unwrap(), nonce@, p@)
            },
            forall|p: Seq<u8>| #![trigger Self::sealable(p)]
                self.key() is Some && nonce@.len() == 12 && Self::sealable(p) && ciphertext@
                    == Self::sealed(self.key().unwrap(), nonce@, p) ==> (r matches Ok(q) && q@ == p),
    ;
}

/// Decrypting, under one key, what `encrypt` produced under that key gives
/// back the plaintext: for a key derived from a password and a salt, the
/// envelope opens with the key derived again from the same password and salt.
pub proof fn law_envelope_round_trip<C: CryptoPort>(
    sealer: &C,
    opener: &C,
    plaintext: &[u8],
    ciphertext: Vec<u8>,
    nonce: [u8; 12],
    ciphertext_in: &[u8],
    nonce_in: &[u8],
    opened: Result<Vec<u8>, CryptoError>,
    password: Seq<char>,
    salt: Seq<u8>,
)
    requires
        sealer.key() == Some(C::derived(password, salt)),
        opener.key() == Some(C::derived(password, salt)),
        call_ensures(C::encrypt, (sealer, plaintext), Ok((ciphertext, nonce))),
        ciphertext_in@ == ciphertext@,
        nonce_in@ == nonce@,
        call_ensures(C::decrypt, (opener, ciphertext_in, nonce_in), opened),
    ensures
        opened matches Ok(p) && p@ == plaintext@,
{
}

/// What Argon2id with the default parameters derives, into 32 bytes, from a
/// password and a salt.
pub uninterp spec fn argon2_key(password: Seq<u8>, salt: Seq<u8>) -> Seq<u8>;

/// What AES-256-GCM, without associated data, produces from a key, a nonce
/// and a plaintext: the ciphertext followed by the tag.
pub uninterp spec fn aes_gcm_seal(key: Seq<u8>, nonce: Seq<u8>, plaintext: Seq<u8>) -> Seq<u8>;

/// The largest plaintext AES-GCM accepts, in bytes.
pub const AES_GCM_MAX_PLAINTEXT: u64 = 0x10_0000_0000;

/// Relies on argon2::Argon2::default and Argon2::hash_password_into: with a
/// 16-byte salt and a 32-byte output it fails only on a password longer than
/// 0xFFFF_FFFF bytes, and otherwise writes the Argon2id hash of password and salt.
#[verifier::external_body]
fn argon2_derive(password: &[u8], salt: &[u8]) -> (r: Option<[u8; 32]>)
    requires
        salt@.len() == 16,
    ensures
        r is Some <==> password@.len() <= 0xFFFF_FFFF,
        r matches Some(k) ==> k@ == argon2_key(password@, salt@),
{
    let mut out = [0u8; 32];
    match argon2::Argon2::default().hash_password_into(password, salt, &mut out) {
        Ok(()) => Some(out),
        Err(_) => None,
    }
}

/// Relies on Aead::encrypt of aes_gcm::Aes256Gcm: it fails only on a plaintext
/// longer than 2^36 bytes (aes_gcm::P_MAX), and otherwise returns the
/// ciphertext with the tag appended.
#[verifier::external_body]
fn aes_gcm_encrypt(key: &[u8; 32], nonce: &[u8; 12], plaintext: &[u8]) -> (r: Result<Vec<u8>, String>)
    ensures
        r is Ok <==> plaintext@.len() <= AES_GCM_MAX_PLAINTEXT,
        r matches Ok(c) ==> c@ == aes_gcm_seal(key@, nonce@, plaintext@),
        r matches Ok(c) ==> c@.len() == plaintext@.len() + 16,
{
    let cipher = Aes256Gcm::new(&Key::<Aes256Gcm>::from(*key));
    match cipher.encrypt(&Nonce::from(*nonce), plaintext) {
        Ok(c) => Ok(c),
        Err(e) => Err(e.to_string()),
    }
}

/// Relies on Aead::decrypt of aes_gcm::Aes256Gcm: the tag is checked before
/// anything is returned, so it succeeds exactly on what `encrypt` produced
/// under the same key and nonce, and then returns that plaintext.
#[verifier::external_body]
fn aes_gcm_decrypt(key: &[u8; 32], nonce: &[u8; 12], ciphertext: &[u8]) -> (r: Result<Vec<u8>, String>)
    ensures
        r matches Ok(q) ==> ciphertext@ == aes_gcm_seal(key@, nonce@, q@),
        r matches Ok(q) ==> forall|p: Seq<u8>| #[trigger] aes_gcm_seal(key@, nonce@, p) == ciphertext@ && p.len() <= AES_GCM_MAX_PLAINTEXT ==> p == q@,
        r is Err ==> forall|p: Seq<u8>| #[trigger] aes_gcm_seal(key@, nonce@, p) == ciphertext@ ==> p.len() > AES_GCM_MAX_PLAINTEXT,
{
    let cipher = Aes256Gcm::new(&Key::<Aes256Gcm>::from(*key));
    match cipher.decrypt(&Nonce::from(*nonce), ciphertext) {
        Ok(p) => Ok(p),
        Err(e) => Err(e.to_string()),
    }
}

/// Relies on RngCore::try_fill_bytes of aead::OsRng: twelve bytes from the
/// operating system's random source, or `None` when it fails. Nothing is
/// promised of the bytes.
#[verifier::external_body]
fn random_nonce() -> (r: Option<[u8; 12]>) {
    let mut nonce = [0u8; 12];
    match OsRng.try_fill_bytes(&mut nonce) {
        Ok(()) => Some(nonce),
        Err(_) => None,
    }
}

/// Relies on RngCore::try_fill_bytes of aead::OsRng: sixteen bytes from the
/// operating system's random source, or `None` when it fails. Nothing is
/// promised of the bytes.
#[verifier::external_body]
fn random_salt() -> (r: Option<[u8; 16]>) {
    let mut salt = [0u8; 16];
    match OsRng.try_fill_bytes(&mut salt) {
        Ok(()) => Some(salt),
        Err(_) => None,
    }
}

/// Relies on zeroize's Zeroize for arrays: every byte is overwritten with zero.
#[verifier::external_body]
fn wipe_key(key: &mut [u8; 32])
    ensures
        final(key)@ == Seq::new(32, |i: int| 0u8),
    opens_invariants none
    no_unwind
{
    key.zeroize();
}

/// Argon2id key derivation with AES-256-GCM encryption. The key is wiped when
/// it is replaced and when the adapter is dropped.
pub struct AesGcmCrypto {
    key: Option<[u8; 32]>,
}

impl AesGcmCrypto {
    /// An adapter that holds no key yet.
    pub fn new() -> (r: AesGcmCrypto)
        ensures
            r.key() is None,
    {
        AesGcmCrypto { key: None }
    }

    /// Wipes and drops the held key, if any.
    pub fn clear_key(&mut self)
        ensures
            final(self).key() is None,
        opens_invariants none
        no_unwind
    {
        match &mut self.key {
            Some(k) => wipe_key(k),
            None => {},
        }
        self.key = None;
    }

    /// Encrypts under the held key with the given nonce.
    pub fn seal_with_nonce(&self, plaintext: &[u8], nonce: &[u8; 12]) -> (r: Result<Vec<u8>, CryptoError>)
        ensures
            self.key() is None ==> r == Err::<Vec<u8>, CryptoError>(CryptoError::NotInitialized),
            self.key() is Some ==> (r is Ok <==> plaintext@.len() <= AES_GCM_MAX_PLAINTEXT),
            self.key() is Some && !(plaintext@.len() <= AES_GCM_MAX_PLAINTEXT) ==> r matches Err(CryptoError::Aead(_)),
            r matches Ok(c) ==> self.key() is Some && c@ == aes_gcm_seal(self.key().unwrap(), nonce@, plaintext@) && c@.len() == plaintext@.len() + 16,
    {
        match &self.key {
            None => Err(CryptoError::NotInitialized),
            Some(k) => match aes_gcm_encrypt(k, nonce, plaintext) {
                Ok(c) => Ok(c),
                Err(m) => Err(CryptoError::Aead(m)),
            },
        }
    }
}

impl CryptoPort for AesGcmCrypto {
    closed spec fn key(&self) -> Option<Seq<u8>> {
        match self.key {
            Some(k) => Some(k@),
            None => None,
        }
    }

    open spec fn derived(password: Seq<char>, salt: Seq<u8>) -> Seq<u8> {
        argon2_key(encode_utf8(password), salt)
    }

    open spec fn sealed(key: Seq<u8>, nonce: Seq<u8>, plaintext: Seq<u8>) -> Seq<u8> {
        aes_gcm_seal(key, nonce, plaintext)
    }

    open spec fn sealable(plaintext: Seq<u8>) -> bool {
        plaintext.len() <= AES_GCM_MAX_PLAINTEXT
    }

    open spec fn kdf_accepts(password: Seq<char>) -> bool {
        encode_utf8(password).len() <= 0xFFFF_FFFF
    }

    open spec fn tag_len() -> nat {
        16
    }

    fn salt_gen(&self) -> (r: Result<[u8; 16], CryptoError>) {
        match random_salt() {
            Some(s) => Ok(s),
            None => Err(CryptoError::RandomUnavailable),
        }
    }

    fn init(&mut self, password: &str, salt: &[u8]) -> (r: Result<(), CryptoError>) {
        match argon2_derive(password.as_bytes(), salt) {
            Some(k) => {
                self.clear_key();
                self.key = Some(k);
                Ok(())
            },
            None => Err(CryptoError::KeyDerivationError),
        }
    }

    fn forget_key(&mut self) {
        self.clear_key();
    }

    fn encrypt(&self, plaintext: &[u8]) -> (r: Result<(Vec<u8>, [u8; 12]), CryptoError>) {
        match &self.key {
            None => Err(CryptoError::NotInitialized),
            Some(_) => {
                let nonce = match random_nonce() {
                    Some(n) => n,
                    None => {
                        return Err(CryptoError::RandomUnavailable);
                    },
                };
                match self.seal_with_nonce(plaintext, &nonce) {
                    Ok(c) => Ok((c, nonce)),
                    Err(e) => Err(e),
                }
            },
        }
    }

    fn decrypt(&self, ciphertext: &[u8], nonce: &[u8]) -> (r: Result<Vec<u8>, CryptoError>) {
        match &self.key {
            None => Err(CryptoError::NotInitialized),
            Some(k) => {
                if nonce.len() != 12 {
                    return Err(CryptoError::InvalidNonce);
                }
                let mut n = [0u8; 12];
                let mut i: usize = 0;
                while i < 12
                    invariant
                        i <= 12,
                        nonce@.len() == 12,
                        forall|j: int| 0 <= j < i ==> n@[j] == nonce@[j],
                    decreases 12 - i,
                {
                    n.set(i, nonce[i]);
                    i += 1;
                }
                assert(n@ =~= nonce@);
                match aes_gcm_decrypt(k, &n, ciphertext) {
                    Ok(p) => Ok(p),
                    Err(m) => Err(CryptoError::Aead(m)),
                }
            },
        }
    }
}

impl Drop for AesGcmCrypto {
    fn drop(&mut self)
        opens_invariants none
        no_unwind
    {
        self.clear_key();
    }
}

} // verus!
