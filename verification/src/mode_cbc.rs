//! Cipher Block Chaining (CBC) mode. Encryption pads the plaintext, XORs
//! each plaintext block with the previous ciphertext block (the IV for the
//! first) and encrypts the result; decryption reverses that chain and then
//! removes the padding. The IV is immutable per session: one IV per message.

use vstd::prelude::*;
use crate::bytes::{xor_bytes_spec, xor_bytes, copy_bytes, copy_range, lemma_xor_involution};
use crate::block_cipher::BlockCipher;
use crate::errors::CryptoError;
use crate::padding::{
    pkcs7_pad, pkcs7_unpad, pkcs7_pad_spec, pkcs7_unpad_spec, pkcs7_padding_valid,
    lemma_pkcs7_round_trip,
};

verus! {

/// The CBC chain over whole blocks: each block of `data` is XORed with the
/// previous ciphertext block (`prev` for the first) and encrypted.
pub open spec fn cbc_encrypt_blocks<C: BlockCipher>(c: C, prev: Seq<u8>, data: Seq<u8>) -> Seq<u8>
    decreases data.len(),
{
    let bs = c.spec_block_size() as int;
    if bs <= 0 || data.len() < bs {
        Seq::empty()
    } else {
        let e = c.spec_encrypt_block(xor_bytes_spec(data.take(bs), prev));
        e + cbc_encrypt_blocks(c, e, data.skip(bs))
    }
}

/// The reverse chain: each ciphertext block is decrypted and XORed with the
/// previous raw ciphertext block (`prev` for the first).
pub open spec fn cbc_decrypt_blocks<C: BlockCipher>(c: C, prev: Seq<u8>, data: Seq<u8>) -> Seq<u8>
    decreases data.len(),
{
    let bs = c.spec_block_size() as int;
    if bs <= 0 || data.len() < bs {
        Seq::empty()
    } else {
        xor_bytes_spec(c.spec_decrypt_block(data.take(bs)), prev)
            + cbc_decrypt_blocks(c, data.take(bs), data.skip(bs))
    }
}

/// The CBC chain preserves the (block-aligned) data length.
pub proof fn lemma_cbc_encrypt_len<C: BlockCipher>(c: C, prev: Seq<u8>, data: Seq<u8>)
    requires
        c.wf(),
        prev.len() == c.spec_block_size(),
        data.len() % (c.spec_block_size() as nat) == 0,
    ensures
        cbc_encrypt_blocks(c, prev, data).len() == data.len(),
    decreases data.len(),
{
    c.lemma_cipher_laws(prev);
    let bs = c.spec_block_size() as int;
    if data.len() == 0 {
    } else {
        assert(data.len() >= bs) by (nonlinear_arith)
            requires
                0 < bs,
                data.len() > 0,
                data.len() % (bs as nat) == 0,
        ;
        let x = xor_bytes_spec(data.take(bs), prev);
        assert(x.len() == bs);
        c.lemma_cipher_laws(x);
        let e = c.spec_encrypt_block(x);
        assert(data.skip(bs).len() % (bs as nat) == 0) by (nonlinear_arith)
            requires
                0 < bs,
                data.len() >= bs,
                data.skip(bs).len() == data.len() - bs,
                data.len() % (bs as nat) == 0,
        ;
        lemma_cbc_encrypt_len(c, e, data.skip(bs));
    }
}

/// CBC round trip over blocks: the reverse chain of the forward chain, from
/// the same IV, recovers the block-aligned data exactly.
pub proof fn lemma_cbc_blocks_round_trip<C: BlockCipher>(c: C, prev: Seq<u8>, data: Seq<u8>)
    requires
        c.wf(),
        prev.len() == c.spec_block_size(),
        data.len() % (c.spec_block_size() as nat) == 0,
    ensures
        cbc_decrypt_blocks(c, prev, cbc_encrypt_blocks(c, prev, data)) == data,
    decreases data.len(),
{
    c.lemma_cipher_laws(prev);
    let bs = c.spec_block_size() as int;
    let y = cbc_encrypt_blocks(c, prev, data);
    if data.len() == 0 {
        assert(cbc_decrypt_blocks(c, prev, y) =~= data);
    } else {
        assert(data.len() >= bs) by (nonlinear_arith)
            requires
                0 < bs,
                data.len() > 0,
                data.len() % (bs as nat) == 0,
        ;
        let b0 = data.take(bs);
        let x = xor_bytes_spec(b0, prev);
        assert(x.len() == bs);
        c.lemma_cipher_laws(x);
        let e = c.spec_encrypt_block(x);
        assert(e.len() == bs);
        let rest = data.skip(bs);
        assert(rest.len() % (bs as nat) == 0) by (nonlinear_arith)
            requires
                0 < bs,
                data.len() >= bs,
                rest.len() == data.len() - bs,
                data.len() % (bs as nat) == 0,
        ;
        lemma_cbc_encrypt_len(c, e, rest);
        assert(y == e + cbc_encrypt_blocks(c, e, rest));
        assert(y.take(bs) =~= e);
        assert(y.skip(bs) =~= cbc_encrypt_blocks(c, e, rest));
        assert(y.len() >= bs);
        c.lemma_cipher_laws(e);
        assert(c.spec_decrypt_block(e) == x);
        lemma_xor_involution(b0, prev);
        lemma_cbc_blocks_round_trip(c, e, rest);
        assert(cbc_decrypt_blocks(c, prev, y) == xor_bytes_spec(c.spec_decrypt_block(y.take(bs)), prev) + cbc_decrypt_blocks(c, y.take(bs), y.skip(bs)));
        assert(cbc_decrypt_blocks(c, prev, y) =~= data);
    }
}

/// CBC mode over one block cipher and one IV of block length.
pub struct CBCMode<C: BlockCipher> {
    pub cipher: C,
    pub iv: Vec<u8>,
}

impl<C: BlockCipher> CBCMode<C> {
    /// Well-formed: the cipher is, and the IV is one block wide.
    pub open spec fn wf(&self) -> bool {
        &&& self.cipher.wf()
        &&& self.cipher.spec_block_size() <= 255
        &&& self.iv@.len() == self.cipher.spec_block_size()
    }

    /// A CBC session; the IV length must match the cipher's block size,
    /// which PKCS#7 padding caps at 255 bytes.
    pub fn new(cipher: C, iv: Vec<u8>) -> (r: CBCMode<C>)
        requires
            cipher.wf(),
            cipher.spec_block_size() <= 255,
            iv@.len() == cipher.spec_block_size(),
        ensures
            r.wf(),
            r.cipher == cipher,
            r.iv@ == iv@,
    {
        CBCMode { cipher, iv }
    }

    /// Pads the plaintext and encrypts it block by block along the chain.
    pub fn encrypt(&self, plaintext: &[u8]) -> (ciphertext: Vec<u8>)
        requires
            self.wf(),
            plaintext@.len() + self.cipher.spec_block_size() <= usize::MAX,
        ensures
            ciphertext@ == cbc_encrypt_blocks(
                self.cipher,
                self.iv@,
                pkcs7_pad_spec(plaintext@, self.cipher.spec_block_size() as nat),
            ),
            ciphertext@.len() == pkcs7_pad_spec(plaintext@, self.cipher.spec_block_size() as nat).len(),
    {
        let bs = self.cipher.block_size();
        let padded = pkcs7_pad(plaintext, bs);
        proof {
            lemma_cbc_encrypt_len(self.cipher, self.iv@, padded@);
        }
        let mut ciphertext: Vec<u8> = Vec::new();
        let mut prev: Vec<u8> = copy_bytes(self.iv.as_slice());
        let mut i: usize = 0;
        proof {
            assert(padded@.skip(0) =~= padded@);
        }
        while i < padded.len()
            invariant
                self.wf(),
                bs == self.cipher.spec_block_size(),
                0 < bs,
                prev@.len() == bs,
                i <= padded@.len(),
                i % bs == 0,
                padded@.len() % (bs as nat) == 0,
                ciphertext@ + cbc_encrypt_blocks(self.cipher, prev@, padded@.skip(i as int)) == cbc_encrypt_blocks(self.cipher, self.iv@, padded@),
            decreases padded@.len() - i,
        {
            proof {
                assert(padded@.len() - i >= bs) by (nonlinear_arith)
                    requires
                        0 < bs,
                        i < padded@.len(),
                        (i as int) % (bs as int) == 0,
                        padded@.len() % (bs as nat) == 0,
                ;
            }
            let chunk = copy_range(padded.as_slice(), i, i + bs);
            let x = xor_bytes(chunk.as_slice(), prev.as_slice());
            proof {
                assert(x@.len() == bs);
            }
            let mut e = self.cipher.encrypt_block(x.as_slice());
            proof {
                let rem = padded@.skip(i as int);
                assert(rem.take(bs as int) =~= padded@.subrange(i as int, (i + bs) as int));
                assert(rem.skip(bs as int) =~= padded@.skip((i + bs) as int));
                assert(cbc_encrypt_blocks(self.cipher, prev@, rem) == e@ + cbc_encrypt_blocks(self.cipher, e@, rem.skip(bs as int)));
                assert((ciphertext@ + e@) + cbc_encrypt_blocks(self.cipher, e@, padded@.skip((i + bs) as int)) =~= ciphertext@ + cbc_encrypt_blocks(self.cipher, prev@, rem));
                assert(((i + bs) as int) % (bs as int) == 0) by (nonlinear_arith)
                    requires
                        0 < bs,
                        (i as int) % (bs as int) == 0,
                ;
            }
            let prev_next = copy_bytes(e.as_slice());
            ciphertext.append(&mut e);
            prev = prev_next;
            i = i + bs;
        }
        proof {
            assert(padded@.skip(padded@.len() as int) =~= Seq::<u8>::empty());
            assert(ciphertext@ + Seq::<u8>::empty() =~= ciphertext@);
        }
        ciphertext
    }

    /// Rejects a ciphertext that is not block-aligned, reverses the chain,
    /// and removes the padding, propagating `InvalidPadding`.
    pub fn decrypt(&self, ciphertext: &[u8]) -> (r: Result<Vec<u8>, CryptoError>)
        requires
            self.wf(),
        ensures
            ciphertext@.len() % (self.cipher.spec_block_size() as nat) != 0 ==> r == Err::<Vec<u8>, CryptoError>(CryptoError::MisalignedCiphertext),
            ciphertext@.len() % (self.cipher.spec_block_size() as nat) == 0 ==> {
                let raw = cbc_decrypt_blocks(self.cipher, self.iv@, ciphertext@);
                &&& (r is Ok <==> pkcs7_padding_valid(raw))
                &&& (r matches Ok(p) ==> p@ == pkcs7_unpad_spec(raw))
                &&& (!pkcs7_padding_valid(raw) ==> r == Err::<Vec<u8>, CryptoError>(CryptoError::InvalidPadding))
            },
    {
        let bs = self.cipher.block_size();
        if ciphertext.len() % bs != 0 {
            return Err(CryptoError::MisalignedCiphertext);
        }
        let mut plain: Vec<u8> = Vec::new();
        let mut prev: Vec<u8> = copy_bytes(self.iv.as_slice());
        let mut i: usize = 0;
        proof {
            assert(ciphertext@.skip(0) =~= ciphertext@);
        }
        while i < ciphertext.len()
            invariant
                self.wf(),
                bs == self.cipher.spec_block_size(),
                0 < bs,
                prev@.len() == bs,
                i <= ciphertext@.len(),
                i % bs == 0,
                ciphertext@.len() % (bs as nat) == 0,
                plain@ + cbc_decrypt_blocks(self.cipher, prev@, ciphertext@.skip(i as int)) == cbc_decrypt_blocks(self.cipher, self.iv@, ciphertext@),
            decreases ciphertext@.len() - i,
        {
            proof {
                assert(ciphertext@.len() - i >= bs) by (nonlinear_arith)
                    requires
                        0 < bs,
                        i < ciphertext@.len(),
                        (i as int) % (bs as int) == 0,
                        ciphertext@.len() % (bs as nat) == 0,
                ;
            }
            let chunk = copy_range(ciphertext, i, i + bs);
            let d = self.cipher.decrypt_block(chunk.as_slice());
            let mut blk = xor_bytes(d.as_slice(), prev.as_slice());
            proof {
                let rem = ciphertext@.skip(i as int);
                assert(rem.take(bs as int) =~= ciphertext@.subrange(i as int, (i + bs) as int));
                assert(rem.skip(bs as int) =~= ciphertext@.skip((i + bs) as int));
                assert(cbc_decrypt_blocks(self.cipher, prev@, rem) == blk@ + cbc_decrypt_blocks(self.cipher, chunk@, rem.skip(bs as int)));
                assert((plain@ + blk@) + cbc_decrypt_blocks(self.cipher, chunk@, ciphertext@.skip((i + bs) as int)) =~= plain@ + cbc_decrypt_blocks(self.cipher, prev@, rem));
                assert(((i + bs) as int) % (bs as int) == 0) by (nonlinear_arith)
                    requires
                        0 < bs,
                        (i as int) % (bs as int) == 0,
                ;
            }
            plain.append(&mut blk);
            prev = chunk;
            i = i + bs;
        }
        proof {
            assert(ciphertext@.skip(ciphertext@.len() as int) =~= Seq::<u8>::empty());
            assert(plain@ + Seq::<u8>::empty() =~= plain@);
        }
        pkcs7_unpad(plain.as_slice())
    }
}

/// CBC round trip, padding included: for every plaintext, decrypting the
/// encryption of it under the same cipher and IV recovers it exactly, and
/// the intermediate ciphertext is block-aligned.
pub proof fn lemma_cbc_mode_round_trip<C: BlockCipher>(c: C, iv: Seq<u8>, plaintext: Seq<u8>)
    requires
        c.wf(),
        iv.len() == c.spec_block_size(),
        c.spec_block_size() <= 255,
    ensures
        ({
            let padded = pkcs7_pad_spec(plaintext, c.spec_block_size() as nat);
            let ct = cbc_encrypt_blocks(c, iv, padded);
            &&& ct.len() % (c.spec_block_size() as nat) == 0
            &&& pkcs7_padding_valid(cbc_decrypt_blocks(c, iv, ct))
            &&& pkcs7_unpad_spec(cbc_decrypt_blocks(c, iv, ct)) == plaintext
        }),
{
    let bs = c.spec_block_size() as nat;
    c.lemma_cipher_laws(iv);
    crate::padding::lemma_pad_aligns(plaintext, bs);
    let padded = pkcs7_pad_spec(plaintext, bs);
    lemma_cbc_encrypt_len(c, iv, padded);
    lemma_cbc_blocks_round_trip(c, iv, padded);
    lemma_pkcs7_round_trip(plaintext, bs);
}

} // verus!
