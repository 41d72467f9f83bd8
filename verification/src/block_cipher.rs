//! The block-cipher capability every operating mode consumes: a fixed,
//! positive block size and a pair of block permutations that invert each
//! other. Primitive cipher mathematics is out of scope; the capability is
//! what the modes rely on, and two simple conforming ciphers are provided
//! for composition and testing.

use vstd::prelude::*;
use crate::bytes::{xor_bytes_spec, xor_bytes, lemma_xor_involution, copy_bytes};

verus! {

/// A fixed-size block cipher. `encrypt_block` and `decrypt_block` require
/// input of exactly `block_size()` bytes, produce output of the same length,
/// and invert each other; `lemma_cipher_laws` obliges every implementation
/// to prove those facts.
pub trait BlockCipher: Sized {
    /// Whether this instance is well formed (constructors establish it).
    spec fn wf(&self) -> bool;

    /// The block size, in bytes.
    spec fn spec_block_size(&self) -> usize;

    /// The block permutation applied by `encrypt_block`.
    spec fn spec_encrypt_block(&self, block: Seq<u8>) -> Seq<u8>;

    /// The inverse permutation applied by `decrypt_block`.
    spec fn spec_decrypt_block(&self, block: Seq<u8>) -> Seq<u8>;

    /// The capability laws: the block size is positive, both directions
    /// preserve block length, and decryption inverts encryption.
    proof fn lemma_cipher_laws(&self, block: Seq<u8>)
        requires
            self.wf(),
        ensures
            0 < self.spec_block_size(),
            block.len() == self.spec_block_size() ==> self.spec_encrypt_block(block).len() == block.len(),
            block.len() == self.spec_block_size() ==> self.spec_decrypt_block(block).len() == block.len(),
            block.len() == self.spec_block_size() ==> self.spec_decrypt_block(self.spec_encrypt_block(block)) == block,
    ;

    /// The block size this cipher operates on; constant and positive.
    fn block_size(&self) -> (n: usize)
        requires
            self.wf(),
        ensures
            n == self.spec_block_size(),
            0 < n,
    ;

    /// Encrypts one block; the input must be exactly one block long.
    fn encrypt_block(&self, block: &[u8]) -> (out: Vec<u8>)
        requires
            self.wf(),
            block@.len() == self.spec_block_size(),
        ensures
            out@ == self.spec_encrypt_block(block@),
            out@.len() == block@.len(),
    ;

    /// Decrypts one block; the input must be exactly one block long.
    fn decrypt_block(&self, block: &[u8]) -> (out: Vec<u8>)
        requires
            self.wf(),
            block@.len() == self.spec_block_size(),
        ensures
            out@ == self.spec_decrypt_block(block@),
            out@.len() == block@.len(),
    ;
}

/// The identity permutation on blocks of a chosen size. Cryptographically
/// void, but a conforming capability, useful for composition tests.
pub struct IdentityCipher {
    pub size: usize,
}

impl IdentityCipher {
    /// A new identity cipher over blocks of `size` bytes.
    pub fn new(size: usize) -> (r: IdentityCipher)
        requires
            0 < size,
        ensures
            r.wf(),
            r.spec_block_size() == size,
    {
        IdentityCipher { size }
    }
}

impl BlockCipher for IdentityCipher {
    open spec fn wf(&self) -> bool {
        0 < self.size
    }

    open spec fn spec_block_size(&self) -> usize {
        self.size
    }

    open spec fn spec_encrypt_block(&self, block: Seq<u8>) -> Seq<u8> {
        block
    }

    open spec fn spec_decrypt_block(&self, block: Seq<u8>) -> Seq<u8> {
        block
    }

    proof fn lemma_cipher_laws(&self, block: Seq<u8>) {
    }

    fn block_size(&self) -> (n: usize) {
        self.size
    }

    fn encrypt_block(&self, block: &[u8]) -> (out: Vec<u8>) {
        copy_bytes(block)
    }

    fn decrypt_block(&self, block: &[u8]) -> (out: Vec<u8>) {
        copy_bytes(block)
    }
}

/// A cipher that XORs each block with a fixed key; its block size is the
/// key length, and it is its own inverse.
pub struct XorKeyCipher {
    pub key: Vec<u8>,
}

impl XorKeyCipher {
    /// A new XOR cipher whose block size is the length of `key`.
    pub fn new(key: Vec<u8>) -> (r: XorKeyCipher)
        requires
            0 < key@.len(),
        ensures
            r.wf(),
            r.spec_block_size() == key@.len(),
            r.key@ == key@,
    {
        XorKeyCipher { key }
    }
}

impl BlockCipher for XorKeyCipher {
    open spec fn wf(&self) -> bool {
        0 < self.key@.len()
    }

    open spec fn spec_block_size(&self) -> usize {
        self.key.len()
    }

    open spec fn spec_encrypt_block(&self, block: Seq<u8>) -> Seq<u8> {
        xor_bytes_spec(block, self.key@)
    }

    open spec fn spec_decrypt_block(&self, block: Seq<u8>) -> Seq<u8> {
        xor_bytes_spec(block, self.key@)
    }

    proof fn lemma_cipher_laws(&self, block: Seq<u8>) {
        if block.len() == self.spec_block_size() {
            lemma_xor_involution(block, self.key@);
        }
    }

    fn block_size(&self) -> (n: usize) {
        self.key.len()
    }

    fn encrypt_block(&self, block: &[u8]) -> (out: Vec<u8>) {
        xor_bytes(block, self.key.as_slice())
    }

    fn decrypt_block(&self, block: &[u8]) -> (out: Vec<u8>) {
        xor_bytes(block, self.key.as_slice())
    }
}

} // verus!
