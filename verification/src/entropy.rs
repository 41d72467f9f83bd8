//! Entropy sourcing capability: a pool seeded from the operating system's
//! RNG, from which fixed-length seeds are derived by hashing. Only the
//! capability is in scope: randomness itself carries no promises beyond
//! the length of what was produced.

use vstd::prelude::*;
use rand::RngCore;
use sha2::Digest;
use crate::bytes::copy_range;
use crate::errors::CryptoError;

verus! {

/// The SHA-512 digest of a byte sequence: a function of the input alone.
pub uninterp spec fn sha512_of(data: Seq<u8>) -> Seq<u8>;

/// Relies on sha2::Sha512: the digest is 64 bytes and depends on the
/// input bytes alone.
#[verifier::external_body]
fn sha512(data: &[u8]) -> (r: Vec<u8>)
    ensures
        r@ == sha512_of(data@),
        r@.len() == 64,
{
    sha2::Sha512::digest(data).to_vec()
}

/// Relies on rand::rngs::OsRng (RngCore::try_fill_bytes): fills a buffer
/// of the requested length from the operating system's RNG; nothing is
/// promised of the values, and a source failure is reported, not raised.
#[verifier::external_body]
pub(crate) fn os_random_bytes(len: usize) -> (r: Result<Vec<u8>, CryptoError>)
    ensures
        r matches Ok(v) ==> v@.len() == len,
        r matches Err(e) ==> e == CryptoError::EntropyFailure,
{
    let mut buf = vec![0u8; len];
    match rand::rngs::OsRng.try_fill_bytes(&mut buf) {
        Ok(()) => Ok(buf),
        Err(_) => Err(CryptoError::EntropyFailure),
    }
}

/// A pool of high-entropy bytes gathered from the OS RNG.
pub struct EntropyPool {
    pub buffer: Vec<u8>,
}

impl EntropyPool {
    /// Gathers `size` bytes of entropy; fails only if the source does.
    pub fn new(size: usize) -> (r: Result<EntropyPool, CryptoError>)
        ensures
            r matches Ok(p) ==> p.buffer@.len() == size,
            r matches Err(e) ==> e == CryptoError::EntropyFailure,
    {
        match os_random_bytes(size) {
            Ok(buffer) => Ok(EntropyPool { buffer }),
            Err(e) => Err(e),
        }
    }

    /// Derives a seed of up to 64 bytes: the requested prefix of the
    /// SHA-512 digest of the pool.
    pub fn derive_seed(&self, output_size: usize) -> (seed: Vec<u8>)
        ensures
            seed@ == sha512_of(self.buffer@).take(if output_size <= 64 { output_size as int } else { 64 }),
            seed@.len() == if output_size <= 64 { output_size as int } else { 64 },
    {
        let hash = sha512(self.buffer.as_slice());
        let n: usize = if output_size <= 64 { output_size } else { 64 };
        let seed = copy_range(hash.as_slice(), 0, n);
        assert(hash@.subrange(0, n as int) =~= sha512_of(self.buffer@).take(n as int));
        seed
    }
}

} // verus!
