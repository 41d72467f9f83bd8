//! Hybrid cipher backed by ChaCha20-Poly1305 AEAD. The engine models the
//! key as 32 plain bytes and the nonce as 12 plain bytes; the outside
//! crate performs the sealing and opening. Lockdown here only exposes the
//! flag — process termination belongs to the excluded collaborator.

use vstd::prelude::*;
use chacha20poly1305::aead::Aead;
use chacha20poly1305::{ChaCha20Poly1305, Key, KeyInit, Nonce};
use crate::bytes::{copy_range, zero_vec};
use crate::cipher_core::IXCipherCore;
use crate::errors::CryptoError;
use crate::zeroization::zeroize_optional;

verus! {

/// What ChaCha20-Poly1305 seals a message to, under a 32-byte key and a
/// 12-byte nonce: a function of those three alone; `None` where the
/// primitive refuses the message.
pub uninterp spec fn chacha_sealed(key: Seq<u8>, nonce: Seq<u8>, msg: Seq<u8>) -> Option<Seq<u8>>;

/// Relies on chacha20poly1305::ChaCha20Poly1305 (Aead::encrypt): for a
/// fixed key and nonce the outcome depends on the message alone; sealing
/// appends the 16-byte Poly1305 tag; and opening a sealed message under
/// the same key and nonce returns the message.
#[verifier::external_body]
fn chacha_seal(key: &[u8], nonce: &[u8], msg: &[u8]) -> (r: Result<Vec<u8>, CryptoError>)
    requires
        key@.len() == 32,
        nonce@.len() == 12,
    ensures
        r matches Ok(c) ==> chacha_sealed(key@, nonce@, msg@) == Some(c@)
            && c@.len() == msg@.len() + 16,
        r is Err ==> chacha_sealed(key@, nonce@, msg@) is None,
        r matches Err(e) ==> e == CryptoError::CipherFailure,
{
    let cipher = ChaCha20Poly1305::new(Key::from_slice(key));
    match cipher.encrypt(Nonce::from_slice(nonce), msg) {
        Ok(c) => Ok(c),
        Err(_) => Err(CryptoError::CipherFailure),
    }
}

/// The opening outcome `r` returns the original message for every message
/// genuinely sealed to `ct` under this key and nonce.
pub open spec fn opens_genuine(r: Result<Vec<u8>, CryptoError>, key: Seq<u8>, nonce: Seq<u8>, ct: Seq<u8>) -> bool {
    forall|m: Seq<u8>| #[trigger] chacha_sealed(key, nonce, m) == Some(ct)
        ==> (r matches Ok(p) && p@ == m)
}

/// Relies on chacha20poly1305::ChaCha20Poly1305 (Aead::decrypt): opening
/// returns the original message for every genuinely sealed input, and
/// reports a failed tag verification as an error.
#[verifier::external_body]
fn chacha_open(key: &[u8], nonce: &[u8], ct: &[u8]) -> (r: Result<Vec<u8>, CryptoError>)
    requires
        key@.len() == 32,
        nonce@.len() == 12,
    ensures
        opens_genuine(r, key@, nonce@, ct@),
        r matches Err(e) ==> e == CryptoError::AuthenticationFailure,
{
    let cipher = ChaCha20Poly1305::new(Key::from_slice(key));
    match cipher.decrypt(Nonce::from_slice(nonce), ct) {
        Ok(p) => Ok(p),
        Err(_) => Err(CryptoError::AuthenticationFailure),
    }
}

/// A complete cipher over ChaCha20-Poly1305 with a per-instance random
/// nonce, designed for later lattice augmentation.
pub struct ChaChaQuantum {
    pub key: Option<Vec<u8>>,
    pub nonce: Vec<u8>,
    pub lockdown_enabled: bool,
}

impl ChaChaQuantum {
    /// The established key bytes, empty while uninitialized.
    pub open spec fn key_bytes(&self) -> Seq<u8> {
        match self.key {
            Some(k) => k@,
            None => Seq::empty(),
        }
    }

    /// A fresh, uninitialized instance with a random 12-byte nonce; fails
    /// only if the entropy source does.
    pub fn new() -> (r: Result<ChaChaQuantum, CryptoError>)
        ensures
            r matches Ok(c) ==> !c.initialized() && c.nonce@.len() == 12 && !c.lockdown_armed(),
            r matches Err(e) ==> e == CryptoError::EntropyFailure,
    {
        match getrandom_bytes(12) {
            Ok(nonce) => Ok(ChaChaQuantum { key: None, nonce, lockdown_enabled: false }),
            Err(e) => Err(e),
        }
    }
}

/// Relies on getrandom::getrandom: fills a buffer of the requested length
/// from the operating system's entropy source; nothing is promised of the
/// values, and a source failure is reported, not raised.
#[verifier::external_body]
fn getrandom_bytes(len: usize) -> (r: Result<Vec<u8>, CryptoError>)
    ensures
        r matches Ok(v) ==> v@.len() == len,
        r matches Err(e) ==> e == CryptoError::EntropyFailure,
{
    let mut buf = vec![0u8; len];
    match getrandom::getrandom(&mut buf) {
        Ok(()) => Ok(buf),
        Err(_) => Err(CryptoError::EntropyFailure),
    }
}

impl IXCipherCore for ChaChaQuantum {
    open spec fn initialized(&self) -> bool {
        &&& self.key is Some
        &&& self.key_bytes().len() == 32
        &&& self.nonce@.len() == 12
    }

    open spec fn key_accepted(&self, key: Seq<u8>) -> bool {
        key.len() >= 32 && self.nonce@.len() == 12
    }

    open spec fn lockdown_armed(&self) -> bool {
        self.lockdown_enabled
    }

    open spec fn spec_encrypt_ok(&self, plaintext: Seq<u8>) -> bool {
        chacha_sealed(self.key_bytes(), self.nonce@, plaintext) is Some
    }

    open spec fn spec_encrypt(&self, plaintext: Seq<u8>) -> Seq<u8> {
        match chacha_sealed(self.key_bytes(), self.nonce@, plaintext) {
            Some(c) => c,
            None => Seq::empty(),
        }
    }

    /// Establishes the cipher from the first 32 key bytes; a shorter key
    /// is `InsufficientKeyMaterial`. The salt is not used here.
    fn initialize(&mut self, key: &[u8], salt: Option<&[u8]>) -> (r: Result<(), CryptoError>)
        ensures
            r is Ok <==> key@.len() >= 32 && old(self).nonce@.len() == 12,
            r is Ok ==> final(self).key_bytes() == key@.take(32)
                && final(self).nonce@ == old(self).nonce@
                && final(self).lockdown_enabled == old(self).lockdown_enabled,
            key@.len() < 32 ==> r == Err::<(), CryptoError>(CryptoError::InsufficientKeyMaterial),
            r is Err ==> *final(self) == *old(self),
    {
        if key.len() < 32 {
            return Err(CryptoError::InsufficientKeyMaterial);
        }
        if self.nonce.len() != 12 {
            return Err(CryptoError::CipherFailure);
        }
        let k = copy_range(key, 0, 32);
        self.key = Some(k);
        Ok(())
    }

    fn encrypt(&self, plaintext: &[u8]) -> (r: Result<Vec<u8>, CryptoError>) {
        let k = match &self.key {
            Some(k) => k,
            None => {
                return Err(CryptoError::CipherFailure);
            }
        };
        chacha_seal(k.as_slice(), self.nonce.as_slice(), plaintext)
    }

    fn decrypt(&self, ciphertext: &[u8]) -> (r: Result<Vec<u8>, CryptoError>) {
        let k = match &self.key {
            Some(k) => k,
            None => {
                return Err(CryptoError::CipherFailure);
            }
        };
        let r = chacha_open(k.as_slice(), self.nonce.as_slice(), ciphertext);
        proof {
            assert forall|m: Seq<u8>| self.spec_encrypt_ok(m) && ciphertext@ == #[trigger] self.spec_encrypt(m)
                implies r matches Ok(p) && p@ == m by {
                assert(chacha_sealed(self.key_bytes(), self.nonce@, m) == Some(ciphertext@));
            }
        }
        r
    }

    /// Zeroes the key material and the nonce and discards the key; the
    /// instance is uninitialized afterwards.
    fn wipe(&mut self)
        ensures
            final(self).key is None,
            final(self).nonce@ == crate::bytes::zero_seq(12),
    {
        zeroize_optional(&mut self.key);
        self.nonce = zero_vec(12);
    }

    fn algorithm_id(&self) -> &'static str {
        "IX-ChaChaQuantum-v1"
    }

    fn trigger_lockdown(&self) -> (r: bool) {
        self.lockdown_enabled
    }
}

} // verus!
