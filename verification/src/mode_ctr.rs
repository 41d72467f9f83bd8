//! Counter (CTR) mode: a keystream cipher built from a block cipher. One
//! symmetric `process` operation serves both directions; output length
//! equals input length, with no padding. The counter block is incremented
//! big-endian over its full width after every keystream block, wrapping on
//! overflow. Never reusing a nonce and counter position under one key is a
//! caller-level invariant: this module trusts the caller to supply a fresh
//! nonce per session.

use vstd::prelude::*;
use crate::bytes::{xor_bytes_spec, xor_bytes, zero_seq, zero_vec, copy_bytes, copy_range, lemma_xor_involution};
use crate::block_cipher::BlockCipher;

verus! {

/// The counter block after one big-endian increment, wrapping on overflow.
pub open spec fn incr_spec(ctr: Seq<u8>) -> Seq<u8>
    decreases ctr.len(),
{
    if ctr.len() == 0 {
        ctr
    } else if ctr.last() == 0xFF {
        incr_spec(ctr.drop_last()).push(0)
    } else {
        ctr.update(ctr.len() - 1, (ctr.last() + 1) as u8)
    }
}

/// Incrementing preserves the counter width.
pub proof fn lemma_incr_len(ctr: Seq<u8>)
    ensures
        incr_spec(ctr).len() == ctr.len(),
    decreases ctr.len(),
{
    if ctr.len() == 0 {
    } else if ctr.last() == 0xFF {
        lemma_incr_len(ctr.drop_last());
    }
}

/// The incremented counter, explicitly: the bytes before the last non-0xFF
/// byte are kept, that byte goes up by one, and the 0xFF tail wraps to zero;
/// a counter of all 0xFF bytes wraps to all zeros.
proof fn lemma_incr_structure(ctr: Seq<u8>, i: int)
    requires
        0 <= i <= ctr.len(),
        forall|k: int| i <= k < ctr.len() ==> ctr[k] == 0xFF,
        i > 0 ==> ctr[i - 1] != 0xFF,
    ensures
        i == 0 ==> incr_spec(ctr) == zero_seq(ctr.len()),
        i > 0 ==> incr_spec(ctr) == ctr.take(i - 1) + seq![(ctr[i - 1] + 1) as u8] + zero_seq((ctr.len() - i) as nat),
    decreases ctr.len(),
{
    if i == ctr.len() {
        if i == 0 {
            assert(incr_spec(ctr) =~= zero_seq(ctr.len()));
        } else {
            assert(ctr.last() != 0xFF);
            assert(incr_spec(ctr) =~= ctr.take(i - 1) + seq![(ctr[i - 1] + 1) as u8] + zero_seq(0));
        }
    } else {
        assert(ctr.last() == 0xFF);
        let front = ctr.drop_last();
        assert(forall|k: int| i <= k < front.len() ==> front[k] == 0xFF);
        lemma_incr_structure(front, i);
        lemma_incr_len(front);
        if i == 0 {
            assert(incr_spec(ctr) =~= zero_seq(ctr.len()));
        } else {
            assert(front.take(i - 1) =~= ctr.take(i - 1));
            assert(incr_spec(ctr) =~= ctr.take(i - 1) + seq![(ctr[i - 1] + 1) as u8] + zero_seq((ctr.len() - i) as nat));
        }
    }
}

/// CTR keystream application: each block-sized chunk (or shorter final
/// chunk) of the input is XORed with the encryption of the current counter
/// block, and the counter is incremented once per chunk.
pub open spec fn ctr_process_spec<C: BlockCipher>(c: C, ctr: Seq<u8>, input: Seq<u8>) -> Seq<u8>
    decreases input.len(),
{
    let bs = c.spec_block_size() as int;
    if bs <= 0 || input.len() == 0 {
        Seq::empty()
    } else {
        let n = if input.len() < bs { input.len() as int } else { bs };
        let ks = c.spec_encrypt_block(ctr);
        xor_bytes_spec(input.take(n), ks) + ctr_process_spec(c, incr_spec(ctr), input.skip(n))
    }
}

/// CTR never pads: the output is exactly as long as the input.
pub proof fn lemma_ctr_process_len<C: BlockCipher>(c: C, ctr: Seq<u8>, input: Seq<u8>)
    requires
        c.wf(),
        ctr.len() == c.spec_block_size(),
    ensures
        ctr_process_spec(c, ctr, input).len() == input.len(),
    decreases input.len(),
{
    c.lemma_cipher_laws(ctr);
    let bs = c.spec_block_size() as int;
    if input.len() == 0 {
    } else {
        let n = if input.len() < bs { input.len() as int } else { bs };
        lemma_incr_len(ctr);
        lemma_ctr_process_len(c, incr_spec(ctr), input.skip(n));
    }
}

/// CTR is self-inverse: processing twice from the same counter start
/// returns the original input.
pub proof fn lemma_ctr_self_inverse<C: BlockCipher>(c: C, ctr: Seq<u8>, input: Seq<u8>)
    requires
        c.wf(),
        ctr.len() == c.spec_block_size(),
    ensures
        ctr_process_spec(c, ctr, ctr_process_spec(c, ctr, input)) == input,
    decreases input.len(),
{
    c.lemma_cipher_laws(ctr);
    let bs = c.spec_block_size() as int;
    let y = ctr_process_spec(c, ctr, input);
    if input.len() == 0 {
        assert(ctr_process_spec(c, ctr, y) =~= input);
    } else {
        let n = if input.len() < bs { input.len() as int } else { bs };
        let ks = c.spec_encrypt_block(ctr);
        let head = xor_bytes_spec(input.take(n), ks);
        let tail = ctr_process_spec(c, incr_spec(ctr), input.skip(n));
        lemma_incr_len(ctr);
        lemma_ctr_process_len(c, incr_spec(ctr), input.skip(n));
        assert(y == head + tail);
        assert(head.len() == n);
        assert(y.len() == input.len());
        assert(y.take(n) =~= head);
        assert(y.skip(n) =~= tail);
        lemma_xor_involution(input.take(n), ks);
        lemma_ctr_self_inverse(c, incr_spec(ctr), input.skip(n));
        assert(ctr_process_spec(c, ctr, y) == xor_bytes_spec(y.take(n), ks) + ctr_process_spec(c, incr_spec(ctr), y.skip(n)));
        assert(ctr_process_spec(c, ctr, y) =~= input);
    }
}

/// One big-endian increment of a counter block, wrapping on overflow.
pub fn increment_counter(counter: &[u8]) -> (next: Vec<u8>)
    ensures
        next@ == incr_spec(counter@),
        next@.len() == counter@.len(),
{
    let mut i: usize = counter.len();
    while i > 0 && counter[i - 1] == 0xFF
        invariant
            i <= counter@.len(),
            forall|k: int| i <= k < counter@.len() ==> counter@[k] == 0xFF,
        decreases i,
    {
        i = i - 1;
    }
    proof {
        lemma_incr_structure(counter@, i as int);
        lemma_incr_len(counter@);
    }
    if i == 0 {
        zero_vec(counter.len())
    } else {
        let mut next = copy_range(counter, 0, i - 1);
        next.push(counter[i - 1] + 1);
        let mut tail = zero_vec(counter.len() - i);
        next.append(&mut tail);
        assert(next@ =~= counter@.take(i - 1) + seq![(counter@[i - 1] + 1) as u8] + zero_seq((counter@.len() - i) as nat));
        next
    }
}

/// Applies the CTR keystream of `cipher`, starting from `counter0`, to
/// `input`; the single operation used for both encryption and decryption.
pub fn ctr_process<C: BlockCipher>(cipher: &C, counter0: &[u8], input: &[u8]) -> (output: Vec<u8>)
    requires
        cipher.wf(),
        counter0@.len() == cipher.spec_block_size(),
    ensures
        output@ == ctr_process_spec(*cipher, counter0@, input@),
        output@.len() == input@.len(),
{
    let bs = cipher.block_size();
    let mut output: Vec<u8> = Vec::new();
    let mut counter: Vec<u8> = copy_bytes(counter0);
    let mut i: usize = 0;
    proof {
        assert(input@.skip(0) =~= input@);
    }
    while i < input.len()
        invariant
            cipher.wf(),
            bs == cipher.spec_block_size(),
            counter@.len() == bs,
            i <= input@.len(),
            output@.len() == i,
            output@ + ctr_process_spec(*cipher, counter@, input@.skip(i as int)) == ctr_process_spec(*cipher, counter0@, input@),
        decreases input@.len() - i,
    {
        let n: usize = if input.len() - i < bs { input.len() - i } else { bs };
        let chunk = copy_range(input, i, i + n);
        let ks = cipher.encrypt_block(counter.as_slice());
        let mut blk = xor_bytes(chunk.as_slice(), ks.as_slice());
        proof {
            let rem = input@.skip(i as int);
            assert(rem.take(n as int) =~= input@.subrange(i as int, (i + n) as int));
            assert(rem.skip(n as int) =~= input@.skip((i + n) as int));
            cipher.lemma_cipher_laws(counter@);
            assert(blk@.len() == n);
            assert(ctr_process_spec(*cipher, counter@, rem) == xor_bytes_spec(rem.take(n as int), cipher.spec_encrypt_block(counter@)) + ctr_process_spec(*cipher, incr_spec(counter@), rem.skip(n as int)));
            assert((output@ + blk@) + ctr_process_spec(*cipher, incr_spec(counter@), input@.skip((i + n) as int)) =~= output@ + ctr_process_spec(*cipher, counter@, rem));
        }
        output.append(&mut blk);
        counter = increment_counter(counter.as_slice());
        i = i + n;
    }
    proof {
        assert(input@.skip(input@.len() as int) =~= Seq::<u8>::empty());
        assert(output@ + Seq::<u8>::empty() =~= output@);
        lemma_ctr_process_len(*cipher, counter0@, input@);
    }
    output
}

/// CTR mode over one block cipher and one nonce/counter block whose length
/// equals the cipher's block size.
pub struct CTRMode<C: BlockCipher> {
    pub cipher: C,
    pub nonce: Vec<u8>,
}

impl<C: BlockCipher> CTRMode<C> {
    /// Well-formed: the cipher is, and the counter block is one block wide.
    pub open spec fn wf(&self) -> bool {
        &&& self.cipher.wf()
        &&& self.nonce@.len() == self.cipher.spec_block_size()
    }

    /// A CTR session; the nonce length must match the cipher's block size.
    pub fn new(cipher: C, nonce: Vec<u8>) -> (r: CTRMode<C>)
        requires
            cipher.wf(),
            nonce@.len() == cipher.spec_block_size(),
        ensures
            r.wf(),
            r.cipher == cipher,
            r.nonce@ == nonce@,
    {
        CTRMode { cipher, nonce }
    }

    /// Encrypts or decrypts `input`: the operation is its own inverse under
    /// the same counter start (`lemma_ctr_self_inverse`).
    pub fn process(&self, input: &[u8]) -> (output: Vec<u8>)
        requires
            self.wf(),
        ensures
            output@ == ctr_process_spec(self.cipher, self.nonce@, input@),
            output@.len() == input@.len(),
    {
        ctr_process(&self.cipher, self.nonce.as_slice(), input)
    }
}

} // verus!
