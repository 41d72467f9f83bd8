//! Post-quantum key-encapsulation interface. No lattice mathematics is in
//! scope: each mechanism is simulated by drawing key material of its
//! characteristic size from the entropy source, and the hybrid mechanism
//! concatenates an ECC-sized and a PQ-sized share.

use vstd::prelude::*;
use crate::entropy::os_random_bytes;
use crate::errors::CryptoError;

verus! {

/// The key-encapsulation mechanisms the engine can consume.
pub enum PQKEM {
    Kyber,
    BIKE,
    NTRU,
    /// Combines an ECC-sized share with a PQ-sized share.
    Hybrid,
}

/// The length, in bytes, of the key material each mechanism produces.
pub open spec fn kem_material_len(kem: PQKEM) -> nat {
    match kem {
        PQKEM::Kyber => 32,
        PQKEM::BIKE => 48,
        PQKEM::NTRU => 64,
        PQKEM::Hybrid => 96,
    }
}

/// An encapsulation result: the ciphertext a peer needs to recover the
/// secret, and the shared secret that seeds a symmetric cipher.
pub struct PostQuantumKey {
    pub encapsulated_key: Vec<u8>,
    pub shared_secret: Vec<u8>,
}

/// The key-encapsulation capability.
pub struct PQResistance;

impl PQResistance {
    /// Simulated hybrid post-quantum key encapsulation: both outputs have
    /// the mechanism's characteristic length; only the entropy source can
    /// make this fail.
    pub fn encapsulate(kem: PQKEM) -> (r: Result<PostQuantumKey, CryptoError>)
        ensures
            r matches Ok(k) ==> k.encapsulated_key@.len() == kem_material_len(kem)
                && k.shared_secret@.len() == kem_material_len(kem),
            r matches Err(e) ==> e == CryptoError::EntropyFailure,
    {
        match kem {
            PQKEM::Kyber => Self::generate_fake_kem_key(32),
            PQKEM::BIKE => Self::generate_fake_kem_key(48),
            PQKEM::NTRU => Self::generate_fake_kem_key(64),
            PQKEM::Hybrid => {
                let ecc_key = match Self::generate_fake_kem_key(32) {
                    Ok(k) => k,
                    Err(e) => {
                        return Err(e);
                    }
                };
                let pq_key = match Self::generate_fake_kem_key(64) {
                    Ok(k) => k,
                    Err(e) => {
                        return Err(e);
                    }
                };
                let mut encapsulated_key = ecc_key.encapsulated_key;
                let mut pq_encapsulated = pq_key.encapsulated_key;
                encapsulated_key.append(&mut pq_encapsulated);
                let mut shared_secret = ecc_key.shared_secret;
                let mut pq_secret = pq_key.shared_secret;
                shared_secret.append(&mut pq_secret);
                Ok(PostQuantumKey { encapsulated_key, shared_secret })
            }
        }
    }

    /// Draws simulated key material of the given size from the entropy
    /// source.
    fn generate_fake_kem_key(size: usize) -> (r: Result<PostQuantumKey, CryptoError>)
        ensures
            r matches Ok(k) ==> k.encapsulated_key@.len() == size && k.shared_secret@.len() == size,
            r matches Err(e) ==> e == CryptoError::EntropyFailure,
    {
        let encapsulated_key = match os_random_bytes(size) {
            Ok(v) => v,
            Err(e) => {
                return Err(e);
            }
        };
        let shared_secret = match os_random_bytes(size) {
            Ok(v) => v,
            Err(e) => {
                return Err(e);
            }
        };
        Ok(PostQuantumKey { encapsulated_key, shared_secret })
    }
}

} // verus!
