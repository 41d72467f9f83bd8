//! The uniform capability every complete, self-initializing cipher
//! implements — mode wrappers, hybrid constructions and the multiplexer
//! alike. Encryption is a function of the initialized state; decryption is
//! obliged, by contract, to return the original plaintext for every
//! ciphertext that encryption produced in the same state.

use vstd::prelude::*;
use crate::errors::CryptoError;

verus! {

/// A complete cipher: initialize, encrypt/decrypt on initialized state,
/// wipe, a stable identifier, and a lockdown hook.
pub trait IXCipherCore: Sized {
    /// Whether the instance currently holds established key state.
    spec fn initialized(&self) -> bool;

    /// Whether this instance, in its current state, accepts `key` as
    /// initialization material.
    spec fn key_accepted(&self, key: Seq<u8>) -> bool;

    /// Whether this instance's lockdown flag is set.
    spec fn lockdown_armed(&self) -> bool;

    /// Whether encryption succeeds on `plaintext` in the current state.
    spec fn spec_encrypt_ok(&self, plaintext: Seq<u8>) -> bool;

    /// The ciphertext produced for `plaintext` in the current state.
    spec fn spec_encrypt(&self, plaintext: Seq<u8>) -> Seq<u8>;

    /// Establishes cipher state from `key` (and `salt`, where the
    /// implementation uses one); idempotent — prior state is replaced.
    /// Succeeds exactly on the key material the instance accepts.
    fn initialize(&mut self, key: &[u8], salt: Option<&[u8]>) -> (r: Result<(), CryptoError>)
        ensures
            r is Ok <==> old(self).key_accepted(key@),
            r is Ok ==> final(self).initialized(),
    ;

    /// Encrypts on initialized state; calling before `initialize` is a
    /// precondition violation.
    fn encrypt(&self, plaintext: &[u8]) -> (r: Result<Vec<u8>, CryptoError>)
        requires
            self.initialized(),
        ensures
            r matches Ok(c) ==> self.spec_encrypt_ok(plaintext@) && c@ == self.spec_encrypt(plaintext@),
            r is Err ==> !self.spec_encrypt_ok(plaintext@),
    ;

    /// Decrypts on initialized state. For every plaintext whose encryption
    /// in this state is the given ciphertext, the call succeeds and returns
    /// that plaintext: round-trip correctness, per implementation.
    fn decrypt(&self, ciphertext: &[u8]) -> (r: Result<Vec<u8>, CryptoError>)
        requires
            self.initialized(),
        ensures
            forall|m: Seq<u8>| self.spec_encrypt_ok(m) && ciphertext@ == #[trigger] self.spec_encrypt(m)
                ==> (r matches Ok(p) && p@ == m),
    ;

    /// Zeroes and discards key material and nonce/counter state; safe to
    /// call repeatedly, and encrypt/decrypt afterwards are precondition
    /// violations until the next `initialize`.
    fn wipe(&mut self)
        ensures
            !final(self).initialized(),
    ;

    /// A stable identifier, unique per concrete implementation, used for
    /// multiplexing and logging.
    fn algorithm_id(&self) -> &'static str;

    /// Queries the lockdown-enabled flag: a capability hook into the
    /// lockdown collaborator, not lockdown logic itself.
    fn trigger_lockdown(&self) -> (r: bool)
        ensures
            r == self.lockdown_armed(),
    ;
}

} // verus!
