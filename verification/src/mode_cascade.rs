//! Cascade mode: several block ciphers of one shared block size chained in
//! sequence for layered security. Encryption applies each cipher in list
//! order; decryption applies them in reverse order — the exact inverse, a
//! design invariant round-trip correctness depends on.

use vstd::prelude::*;
use crate::block_cipher::BlockCipher;

verus! {

/// Every cipher in the set is well formed and operates on `bs`-byte blocks.
pub open spec fn cascade_set_wf<C: BlockCipher>(cs: Seq<C>, bs: usize) -> bool {
    forall|i: int| 0 <= i < cs.len() ==> (#[trigger] cs[i]).wf() && cs[i].spec_block_size() == bs
}

/// Each cipher's encryption applied in list order, output feeding input.
pub open spec fn cascade_encrypt_spec<C: BlockCipher>(cs: Seq<C>, block: Seq<u8>) -> Seq<u8>
    decreases cs.len(),
{
    if cs.len() == 0 {
        block
    } else {
        cascade_encrypt_spec(cs.skip(1), cs[0].spec_encrypt_block(block))
    }
}

/// Each cipher's decryption applied in reverse list order.
pub open spec fn cascade_decrypt_spec<C: BlockCipher>(cs: Seq<C>, block: Seq<u8>) -> Seq<u8>
    decreases cs.len(),
{
    if cs.len() == 0 {
        block
    } else {
        cs[0].spec_decrypt_block(cascade_decrypt_spec(cs.skip(1), block))
    }
}

/// Cascade round trip: decrypting in reverse order inverts encrypting in
/// list order, for every non-empty (or empty) set of one block size.
pub proof fn lemma_cascade_round_trip<C: BlockCipher>(cs: Seq<C>, bs: usize, block: Seq<u8>)
    requires
        cascade_set_wf(cs, bs),
        0 < bs,
        block.len() == bs,
    ensures
        cascade_decrypt_spec(cs, cascade_encrypt_spec(cs, block)) == block,
    decreases cs.len(),
{
    if cs.len() == 0 {
    } else {
        cs[0].lemma_cipher_laws(block);
        let e0 = cs[0].spec_encrypt_block(block);
        assert(cascade_set_wf(cs.skip(1), bs)) by {
            assert(forall|i: int| 0 <= i < cs.skip(1).len() ==> cs.skip(1)[i] == cs[i + 1]);
        }
        lemma_cascade_round_trip(cs.skip(1), bs, e0);
        assert(cascade_encrypt_spec(cs, block) == cascade_encrypt_spec(cs.skip(1), e0));
        assert(cascade_decrypt_spec(cs, cascade_encrypt_spec(cs, block)) == cs[0].spec_decrypt_block(e0));
    }
}

/// A chain of block ciphers sharing one block size.
pub struct CascadeMode<C: BlockCipher> {
    pub ciphers: Vec<C>,
}

impl<C: BlockCipher> CascadeMode<C> {
    /// Well-formed: at least one cipher, all of one block size.
    pub open spec fn wf(&self) -> bool {
        &&& self.ciphers@.len() > 0
        &&& cascade_set_wf(self.ciphers@, self.spec_block_size())
    }

    /// The shared block size of the whole cascade.
    pub open spec fn spec_block_size(&self) -> usize {
        self.ciphers@[0].spec_block_size()
    }

    /// A cascade over `ciphers`. At least one cipher is required and all
    /// must share one block size: a mismatch is a construction-time fault.
    pub fn new(ciphers: Vec<C>) -> (r: CascadeMode<C>)
        requires
            ciphers@.len() > 0,
            forall|i: int| 0 <= i < ciphers@.len() ==> (#[trigger] ciphers@[i]).wf(),
            forall|i: int| 0 <= i < ciphers@.len()
                ==> (#[trigger] ciphers@[i]).spec_block_size() == ciphers@[0].spec_block_size(),
        ensures
            r.wf(),
            r.ciphers@ == ciphers@,
    {
        CascadeMode { ciphers }
    }

    /// The block size every member cipher operates on.
    pub fn block_size(&self) -> (n: usize)
        requires
            self.wf(),
        ensures
            n == self.spec_block_size(),
            0 < n,
    {
        let c0 = &self.ciphers[0];
        c0.block_size()
    }

    /// Encrypts one block through the entire cascade, in list order.
    pub fn encrypt(&self, block: &[u8]) -> (out: Vec<u8>)
        requires
            self.wf(),
            block@.len() == self.spec_block_size(),
        ensures
            out@ == cascade_encrypt_spec(self.ciphers@, block@),
            out@.len() == block@.len(),
    {
        let ghost cs = self.ciphers@;
        let ghost bs = self.spec_block_size();
        let mut acc = crate::bytes::copy_bytes(block);
        let mut i: usize = 0;
        proof {
            assert(cs.skip(0) =~= cs);
        }
        while i < self.ciphers.len()
            invariant
                self.wf(),
                cs == self.ciphers@,
                bs == self.spec_block_size(),
                i <= cs.len(),
                acc@.len() == bs,
                cascade_encrypt_spec(cs.skip(i as int), acc@) == cascade_encrypt_spec(cs, block@),
            decreases cs.len() - i,
        {
            let c = &self.ciphers[i];
            proof {
                assert(cs[i as int].wf() && cs[i as int].spec_block_size() == bs);
            }
            let next = c.encrypt_block(acc.as_slice());
            proof {
                let rem = cs.skip(i as int);
                assert(rem[0] == cs[i as int]);
                assert(rem.skip(1) =~= cs.skip(i + 1));
                assert(cascade_encrypt_spec(rem, acc@) == cascade_encrypt_spec(cs.skip(i + 1), next@));
                cs[i as int].lemma_cipher_laws(acc@);
            }
            acc = next;
            i = i + 1;
        }
        proof {
            assert(cs.skip(cs.len() as int) =~= Seq::<C>::empty());
        }
        acc
    }

    /// Decrypts one block through the entire cascade, in reverse order.
    pub fn decrypt(&self, block: &[u8]) -> (out: Vec<u8>)
        requires
            self.wf(),
            block@.len() == self.spec_block_size(),
        ensures
            out@ == cascade_decrypt_spec(self.ciphers@, block@),
            out@.len() == block@.len(),
    {
        let ghost cs = self.ciphers@;
        let ghost bs = self.spec_block_size();
        let mut acc = crate::bytes::copy_bytes(block);
        let mut i: usize = self.ciphers.len();
        proof {
            assert(cs.skip(cs.len() as int) =~= Seq::<C>::empty());
        }
        while i > 0
            invariant
                self.wf(),
                cs == self.ciphers@,
                bs == self.spec_block_size(),
                i <= cs.len(),
                acc@.len() == bs,
                acc@ == cascade_decrypt_spec(cs.skip(i as int), block@),
            decreases i,
        {
            let c = &self.ciphers[i - 1];
            proof {
                assert(cs[i - 1].wf() && cs[i - 1].spec_block_size() == bs);
            }
            let next = c.decrypt_block(acc.as_slice());
            proof {
                let rem = cs.skip(i - 1);
                assert(rem[0] == cs[i - 1]);
                assert(rem.skip(1) =~= cs.skip(i as int));
                assert(cascade_decrypt_spec(rem, block@) == cs[i - 1].spec_decrypt_block(cascade_decrypt_spec(cs.skip(i as int), block@)));
                cs[i - 1].lemma_cipher_laws(acc@);
            }
            acc = next;
            i = i - 1;
        }
        proof {
            assert(cs.skip(0) =~= cs);
        }
        acc
    }
}

} // verus!
