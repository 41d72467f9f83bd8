//! Authenticated Galois/Counter mode. The ciphertext is the CTR keystream
//! applied from counter block one onward; counter block zero is reserved
//! for tag derivation. The tag is a universal-hash digest — computed in
//! GF(2^8) under a hash subkey obtained by encrypting an all-zero block —
//! over the padded AAD, the padded ciphertext, and a trailer encoding both
//! bit lengths, finally XORed with the encryption of counter block zero.
//! Verification recomputes the tag and compares without an early exit;
//! on mismatch nothing is decrypted and `AuthenticationFailure` is returned.

use vstd::prelude::*;
use crate::bytes::{xor_bytes_spec, xor_bytes, zero_seq, zero_vec, be64_spec, be64_bytes, copy_range, ct_eq};
use crate::block_cipher::BlockCipher;
use crate::errors::CryptoError;
use crate::mode_ctr::{ctr_process, ctr_process_spec, increment_counter, incr_spec, lemma_incr_len, lemma_ctr_self_inverse};

verus! {

/// Doubling in GF(2^8) modulo the polynomial x^8 + x^4 + x^3 + x + 1.
pub open spec fn xtime_spec(a: u8) -> u8 {
    if a < 0x80 {
        a << 1u8
    } else {
        (a << 1u8) ^ 0x1B
    }
}

/// `k` rounds of peasant multiplication in GF(2^8).
pub open spec fn gf_mul_rec(a: u8, b: u8, k: nat) -> u8
    decreases k,
{
    if k == 0 {
        0
    } else {
        (if b & 1 == 1 { a } else { 0 }) ^ gf_mul_rec(xtime_spec(a), b >> 1u8, (k - 1) as nat)
    }
}

/// The product of `a` and `b` in GF(2^8).
pub open spec fn gf_mul_spec(a: u8, b: u8) -> u8 {
    gf_mul_rec(a, b, 8)
}

fn gf_mul_step(a: u8, b: u8, k: u8) -> (r: u8)
    ensures
        r == gf_mul_rec(a, b, k as nat),
    decreases k,
{
    if k == 0 {
        0
    } else {
        let lo: u8 = if b & 1 == 1 { a } else { 0 };
        let doubled: u8 = if a < 0x80 { a << 1u8 } else { (a << 1u8) ^ 0x1B };
        lo ^ gf_mul_step(doubled, b >> 1u8, k - 1)
    }
}

/// Multiplies two field elements in GF(2^8).
pub fn gf_mul(a: u8, b: u8) -> (r: u8)
    ensures
        r == gf_mul_spec(a, b),
{
    gf_mul_step(a, b, 8)
}

/// Byte-wise GF(2^8) product of two blocks, truncated to the shorter one.
pub open spec fn block_mul_spec(a: Seq<u8>, h: Seq<u8>) -> Seq<u8> {
    Seq::new(if a.len() <= h.len() { a.len() } else { h.len() }, |i: int| gf_mul_spec(a[i], h[i]))
}

/// Byte-wise GF(2^8) product of two blocks.
pub fn block_mul(a: &[u8], h: &[u8]) -> (r: Vec<u8>)
    ensures
        r@ == block_mul_spec(a@, h@),
{
    let n: usize = if a.len() <= h.len() { a.len() } else { h.len() };
    let mut r: Vec<u8> = Vec::new();
    let mut i: usize = 0;
    while i < n
        invariant
            i <= n,
            n == block_mul_spec(a@, h@).len(),
            n <= a@.len() && n <= h@.len(),
            r@ == block_mul_spec(a@, h@).take(i as int),
        decreases n - i,
    {
        r.push(gf_mul(a[i], h[i]));
        i = i + 1;
        assert(r@ =~= block_mul_spec(a@, h@).take(i as int));
    }
    assert(r@ =~= block_mul_spec(a@, h@));
    r
}

/// The universal-hash fold under subkey `h`: for each block-sized chunk of
/// `data` (the last one zero-padded), the accumulator is XORed with the
/// chunk and multiplied byte-wise by `h`.
pub open spec fn ghash_fold(h: Seq<u8>, acc: Seq<u8>, data: Seq<u8>) -> Seq<u8>
    decreases data.len(),
{
    let bs = h.len() as int;
    if bs <= 0 || data.len() == 0 {
        acc
    } else {
        let n = if data.len() < bs { data.len() as int } else { bs };
        let blk = data.take(n) + zero_seq((bs - n) as nat);
        ghash_fold(h, block_mul_spec(xor_bytes_spec(acc, blk), h), data.skip(n))
    }
}

/// The fold keeps the accumulator one block wide.
pub proof fn lemma_ghash_len(h: Seq<u8>, acc: Seq<u8>, data: Seq<u8>)
    requires
        acc.len() == h.len(),
    ensures
        ghash_fold(h, acc, data).len() == h.len(),
    decreases data.len(),
{
    let bs = h.len() as int;
    if bs <= 0 || data.len() == 0 {
    } else {
        let n = if data.len() < bs { data.len() as int } else { bs };
        let blk = data.take(n) + zero_seq((bs - n) as nat);
        lemma_ghash_len(h, block_mul_spec(xor_bytes_spec(acc, blk), h), data.skip(n));
    }
}

/// Applies the universal-hash fold of `data` to the accumulator `acc`.
fn ghash_update(h: &[u8], acc: Vec<u8>, data: &[u8]) -> (r: Vec<u8>)
    requires
        0 < h@.len(),
        acc@.len() == h@.len(),
    ensures
        r@ == ghash_fold(h@, acc@, data@),
        r@.len() == h@.len(),
{
    let bs = h.len();
    let ghost acc0 = acc@;
    let mut cur = acc;
    let mut i: usize = 0;
    proof {
        assert(data@.skip(0) =~= data@);
        lemma_ghash_len(h@, acc0, data@);
    }
    while i < data.len()
        invariant
            0 < bs == h@.len(),
            i <= data@.len(),
            cur@.len() == bs,
            ghash_fold(h@, cur@, data@.skip(i as int)) == ghash_fold(h@, acc0, data@),
        decreases data@.len() - i,
    {
        let n: usize = if data.len() - i < bs { data.len() - i } else { bs };
        let mut blk = copy_range(data, i, i + n);
        let mut pad = zero_vec(bs - n);
        blk.append(&mut pad);
        let x = xor_bytes(cur.as_slice(), blk.as_slice());
        let next = block_mul(x.as_slice(), h);
        proof {
            let rem = data@.skip(i as int);
            assert(rem.take(n as int) =~= data@.subrange(i as int, (i + n) as int));
            assert(rem.skip(n as int) =~= data@.skip((i + n) as int));
            assert(blk@ =~= rem.take(n as int) + zero_seq((bs - n) as nat));
            assert(ghash_fold(h@, cur@, rem) == ghash_fold(h@, block_mul_spec(xor_bytes_spec(cur@, blk@), h@), rem.skip(n as int)));
        }
        cur = next;
        i = i + n;
    }
    proof {
        assert(data@.skip(data@.len() as int) =~= Seq::<u8>::empty());
    }
    cur
}

/// The GCM ciphertext: the CTR keystream applied from counter block one,
/// block zero being reserved for the tag.
pub open spec fn gcm_cipher_spec<C: BlockCipher>(c: C, j0: Seq<u8>, data: Seq<u8>) -> Seq<u8> {
    ctr_process_spec(c, incr_spec(j0), data)
}

/// The authentication tag over `aad` and `ct`: the universal-hash digest of
/// the padded AAD, the padded ciphertext and the bit-length trailer, under
/// the subkey E(0), XORed with E(j0).
pub open spec fn gcm_tag_spec<C: BlockCipher>(c: C, j0: Seq<u8>, aad: Seq<u8>, ct: Seq<u8>) -> Seq<u8> {
    let bs = c.spec_block_size() as nat;
    let h = c.spec_encrypt_block(zero_seq(bs));
    let y1 = ghash_fold(h, zero_seq(bs), aad);
    let y2 = ghash_fold(h, y1, ct);
    let trailer = be64_spec((8 * aad.len()) as u64) + be64_spec((8 * ct.len()) as u64);
    let y3 = ghash_fold(h, y2, trailer);
    xor_bytes_spec(y3, c.spec_encrypt_block(j0))
}

/// GCM over one block cipher, one counter block, and the associated
/// authenticated data of the session.
pub struct GCMMode<C: BlockCipher> {
    pub cipher: C,
    pub nonce: Vec<u8>,
    pub aad: Vec<u8>,
}

impl<C: BlockCipher> GCMMode<C> {
    /// Well-formed: the cipher is, the counter block is one block wide, and
    /// the AAD bit length fits the 64-bit trailer field.
    pub open spec fn wf(&self) -> bool {
        &&& self.cipher.wf()
        &&& self.nonce@.len() == self.cipher.spec_block_size()
        &&& self.aad@.len() < 0x2000000000000000
    }

    /// A GCM session; the nonce length must match the cipher's block size.
    pub fn new(cipher: C, nonce: Vec<u8>, aad: Vec<u8>) -> (r: GCMMode<C>)
        requires
            cipher.wf(),
            nonce@.len() == cipher.spec_block_size(),
            aad@.len() < 0x2000000000000000,
        ensures
            r.wf(),
            r.cipher == cipher,
            r.nonce@ == nonce@,
            r.aad@ == aad@,
    {
        GCMMode { cipher, nonce, aad }
    }

    /// Recomputes the authentication tag over the session AAD and `ct`.
    fn compute_tag(&self, ct: &[u8]) -> (tag: Vec<u8>)
        requires
            self.wf(),
            ct@.len() < 0x2000000000000000,
        ensures
            tag@ == gcm_tag_spec(self.cipher, self.nonce@, self.aad@, ct@),
            tag@.len() == self.cipher.spec_block_size(),
    {
        let bs = self.cipher.block_size();
        let zeros = zero_vec(bs);
        let h = self.cipher.encrypt_block(zeros.as_slice());
        proof {
            self.cipher.lemma_cipher_laws(zero_seq(bs as nat));
            lemma_ghash_len(h@, zero_seq(bs as nat), self.aad@);
        }
        let y1 = ghash_update(h.as_slice(), zero_vec(bs), self.aad.as_slice());
        let y2 = ghash_update(h.as_slice(), y1, ct);
        let mut trailer = be64_bytes(8 * (self.aad.len() as u64));
        let mut ct_bits = be64_bytes(8 * (ct.len() as u64));
        trailer.append(&mut ct_bits);
        proof {
            assert(trailer@ =~= be64_spec((8 * self.aad@.len()) as u64) + be64_spec((8 * ct@.len()) as u64));
        }
        let y3 = ghash_update(h.as_slice(), y2, trailer.as_slice());
        let ek = self.cipher.encrypt_block(self.nonce.as_slice());
        proof {
            self.cipher.lemma_cipher_laws(self.nonce@);
        }
        let tag = xor_bytes(y3.as_slice(), ek.as_slice());
        tag
    }

    /// Encrypts the plaintext with the keystream from counter block one and
    /// returns the ciphertext together with its authentication tag.
    pub fn encrypt_and_tag(&self, plaintext: &[u8]) -> (r: (Vec<u8>, Vec<u8>))
        requires
            self.wf(),
            plaintext@.len() < 0x2000000000000000,
        ensures
            r.0@ == gcm_cipher_spec(self.cipher, self.nonce@, plaintext@),
            r.0@.len() == plaintext@.len(),
            r.1@ == gcm_tag_spec(self.cipher, self.nonce@, self.aad@, r.0@),
            r.1@.len() == self.cipher.spec_block_size(),
    {
        let j1 = increment_counter(self.nonce.as_slice());
        let ciphertext = ctr_process(&self.cipher, j1.as_slice(), plaintext);
        let tag = self.compute_tag(ciphertext.as_slice());
        (ciphertext, tag)
    }

    /// Recomputes the expected tag over the supplied ciphertext, compares in
    /// constant time, and only then decrypts; returns `AuthenticationFailure`
    /// — releasing no plaintext — whenever the tag does not match.
    pub fn decrypt_and_verify(&self, ciphertext: &[u8], tag: &[u8]) -> (r: Result<Vec<u8>, CryptoError>)
        requires
            self.wf(),
            ciphertext@.len() < 0x2000000000000000,
        ensures
            r is Ok <==> tag@ == gcm_tag_spec(self.cipher, self.nonce@, self.aad@, ciphertext@),
            r matches Ok(p) ==> p@ == gcm_cipher_spec(self.cipher, self.nonce@, ciphertext@)
                && p@.len() == ciphertext@.len(),
            r matches Err(e) ==> e == CryptoError::AuthenticationFailure,
    {
        let expected = self.compute_tag(ciphertext);
        if ct_eq(tag, expected.as_slice()) {
            let j1 = increment_counter(self.nonce.as_slice());
            Ok(ctr_process(&self.cipher, j1.as_slice(), ciphertext))
        } else {
            Err(CryptoError::AuthenticationFailure)
        }
    }
}

/// GCM round trip: applying the data keystream to the ciphertext recovers
/// the plaintext, so `decrypt_and_verify` of a genuine ciphertext-tag pair
/// returns the original plaintext — while its contract rejects, with
/// `AuthenticationFailure`, every tag other than the recomputed one.
pub proof fn lemma_gcm_round_trip<C: BlockCipher>(c: C, j0: Seq<u8>, plaintext: Seq<u8>)
    requires
        c.wf(),
        j0.len() == c.spec_block_size(),
    ensures
        gcm_cipher_spec(c, j0, gcm_cipher_spec(c, j0, plaintext)) == plaintext,
{
    lemma_incr_len(j0);
    lemma_ctr_self_inverse(c, incr_spec(j0), plaintext);
}

} // verus!
