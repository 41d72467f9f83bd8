//! Multiplexer: combines several complete ciphers into one. `initialize`
//! splits the key into equal contiguous slices, one per member (remainder
//! bytes beyond the split are dropped — a documented edge case of the
//! splitting policy); `encrypt` layers the members in list order and
//! `decrypt` unwinds them in reverse order, the exact mirror required for
//! round-trip correctness.

use vstd::prelude::*;
use crate::bytes::copy_bytes;
use crate::bytes::copy_range;
use crate::cipher_core::IXCipherCore;
use crate::errors::CryptoError;

verus! {

/// The first `k` layers of `cs` applied to `m`, in list order.
pub open spec fn layered_encrypt<C: IXCipherCore>(cs: Seq<C>, m: Seq<u8>, k: int) -> Seq<u8>
    decreases k,
{
    if k <= 0 {
        m
    } else {
        cs[k - 1].spec_encrypt(layered_encrypt(cs, m, k - 1))
    }
}

/// Whether every one of the first `k` layers succeeds on its input.
pub open spec fn layered_encrypt_ok<C: IXCipherCore>(cs: Seq<C>, m: Seq<u8>, k: int) -> bool
    decreases k,
{
    if k <= 0 {
        true
    } else {
        layered_encrypt_ok(cs, m, k - 1) && cs[k - 1].spec_encrypt_ok(layered_encrypt(cs, m, k - 1))
    }
}

/// If the first `k2` layers succeed, so does every shorter prefix.
pub proof fn lemma_layered_ok_prefix<C: IXCipherCore>(cs: Seq<C>, m: Seq<u8>, k1: int, k2: int)
    requires
        k1 <= k2,
        layered_encrypt_ok(cs, m, k2),
    ensures
        layered_encrypt_ok(cs, m, k1),
    decreases k2,
{
    if k1 < k2 && k2 > 0 {
        lemma_layered_ok_prefix(cs, m, k1, k2 - 1);
    }
}

/// Three layers, written out: encryption applies the first, then the
/// second, then the third member, in that order.
pub proof fn lemma_layered_order_three<C: IXCipherCore>(cs: Seq<C>, m: Seq<u8>)
    requires
        cs.len() == 3,
    ensures
        layered_encrypt(cs, m, 3) == cs[2].spec_encrypt(cs[1].spec_encrypt(cs[0].spec_encrypt(m))),
{
    assert(layered_encrypt(cs, m, 0) == m);
    assert(layered_encrypt(cs, m, 1) == cs[0].spec_encrypt(m));
    assert(layered_encrypt(cs, m, 2) == cs[1].spec_encrypt(layered_encrypt(cs, m, 1)));
    assert(layered_encrypt(cs, m, 3) == cs[2].spec_encrypt(layered_encrypt(cs, m, 2)));
}

/// Slice `i` of `key` split into `n` equal contiguous parts of length
/// `len(key) / n`; remainder bytes beyond the last slice are dropped.
pub open spec fn key_slice(key: Seq<u8>, n: int, i: int) -> Seq<u8> {
    let part_len = key.len() as int / n;
    key.subrange(i * part_len, (i + 1) * part_len)
}

/// An ordered set of complete ciphers layered into one.
pub struct IXCipherMultiplexer<C: IXCipherCore> {
    pub ciphers: Vec<C>,
}

impl<C: IXCipherCore> IXCipherMultiplexer<C> {
    /// An empty multiplexer; add ciphers before initializing.
    pub fn new() -> (r: IXCipherMultiplexer<C>)
        ensures
            r.ciphers@.len() == 0,
    {
        IXCipherMultiplexer { ciphers: Vec::new() }
    }

    /// Appends a cipher to the layering order.
    pub fn add_cipher(&mut self, cipher: C)
        ensures
            final(self).ciphers@ == old(self).ciphers@.push(cipher),
    {
        self.ciphers.push(cipher);
    }

    /// Queries every member's lockdown hook, short-circuiting on the first
    /// member that reports lockdown active.
    pub fn trigger_lockdown_all(&self) -> (r: bool)
        ensures
            r == (exists|i: int| 0 <= i < self.ciphers@.len() && (#[trigger] self.ciphers@[i]).lockdown_armed()),
    {
        let ghost cs = self.ciphers@;
        let mut i: usize = 0;
        while i < self.ciphers.len()
            invariant
                cs == self.ciphers@,
                i <= cs.len(),
                forall|j: int| 0 <= j < i ==> !(#[trigger] cs[j]).lockdown_armed(),
            decreases cs.len() - i,
        {
            let c = &self.ciphers[i];
            if c.trigger_lockdown() {
                assert(cs[i as int].lockdown_armed());
                return true;
            }
            i = i + 1;
        }
        false
    }
}

impl<C: IXCipherCore> IXCipherCore for IXCipherMultiplexer<C> {
    open spec fn initialized(&self) -> bool {
        &&& self.ciphers@.len() > 0
        &&& forall|i: int| 0 <= i < self.ciphers@.len() ==> (#[trigger] self.ciphers@[i]).initialized()
    }

    open spec fn key_accepted(&self, key: Seq<u8>) -> bool {
        let n = self.ciphers@.len() as int;
        &&& n > 0
        &&& key.len() > 0
        &&& forall|i: int| 0 <= i < n
            ==> (#[trigger] self.ciphers@[i]).key_accepted(key_slice(key, n, i))
    }

    open spec fn lockdown_armed(&self) -> bool {
        exists|i: int| 0 <= i < self.ciphers@.len() && (#[trigger] self.ciphers@[i]).lockdown_armed()
    }

    open spec fn spec_encrypt_ok(&self, plaintext: Seq<u8>) -> bool {
        layered_encrypt_ok(self.ciphers@, plaintext, self.ciphers@.len() as int)
    }

    open spec fn spec_encrypt(&self, plaintext: Seq<u8>) -> Seq<u8> {
        layered_encrypt(self.ciphers@, plaintext, self.ciphers@.len() as int)
    }

    /// Splits the key into `N` equal contiguous slices (`N` = member
    /// count, slice length `len(key) / N`, remainder bytes dropped) and
    /// initializes each member with its slice and the same salt. Fails
    /// with `InsufficientKeyMaterial` when there are no members or no key
    /// bytes; a member's failure is propagated after every member was
    /// visited.
    fn initialize(&mut self, key: &[u8], salt: Option<&[u8]>) -> (r: Result<(), CryptoError>)
        ensures
            old(self).ciphers@.len() == 0 || key@.len() == 0
                ==> r == Err::<(), CryptoError>(CryptoError::InsufficientKeyMaterial),
            final(self).ciphers@.len() == old(self).ciphers@.len(),
    {
        let ghost old_cs = self.ciphers@;
        let n = self.ciphers.len();
        if n == 0 || key.len() == 0 {
            return Err(CryptoError::InsufficientKeyMaterial);
        }
        let part_len: usize = key.len() / n;
        proof {
            assert(n * part_len <= key@.len()) by (nonlinear_arith)
                requires
                    part_len == key@.len() as int / n as int,
                    0 < n,
            ;
        }
        let mut failure: Option<CryptoError> = None;
        let mut i: usize = 0;
        while i < n
            invariant
                n == self.ciphers@.len(),
                old_cs.len() == n,
                0 < n,
                i <= n,
                part_len == key@.len() as int / n as int,
                n * part_len <= key@.len(),
                key@.len() <= usize::MAX,
                forall|j: int| i <= j < n ==> self.ciphers@[j] == old_cs[j],
                failure is None ==> forall|j: int| 0 <= j < i
                    ==> (#[trigger] old_cs[j]).key_accepted(key_slice(key@, n as int, j)),
                failure is Some ==> exists|j: int| 0 <= j < i
                    && !(#[trigger] old_cs[j]).key_accepted(key_slice(key@, n as int, j)),
                failure is None ==> forall|j: int| 0 <= j < i ==> (#[trigger] self.ciphers@[j]).initialized(),
            decreases n - i,
        {
            proof {
                assert((i + 1) * part_len <= n * part_len) by (nonlinear_arith)
                    requires
                        i < n,
                        0 <= part_len,
                ;
                assert(i * part_len + part_len == (i + 1) * part_len) by (nonlinear_arith);
                assert((i + 1) * part_len <= key@.len());
            }
            let start: usize = i * part_len;
            let end: usize = start + part_len;
            let part_key = copy_range(key, start, end);
            proof {
                assert(part_key@ == key_slice(key@, n as int, i as int));
            }
            let c = &mut self.ciphers[i];
            let member_result = c.initialize(part_key.as_slice(), salt);
            match member_result {
                Ok(()) => {
                    proof {
                        assert(old_cs[i as int].key_accepted(key_slice(key@, n as int, i as int)));
                    }
                }
                Err(e) => {
                    proof {
                        assert(!old_cs[i as int].key_accepted(key_slice(key@, n as int, i as int)));
                    }
                    if failure.is_none() {
                        failure = Some(e);
                    }
                }
            }
            i = i + 1;
        }
        proof {
            assert(old(self).ciphers@ == old_cs);
        }
        match failure {
            Some(e) => Err(e),
            None => Ok(()),
        }
    }

    /// Layered encryption: the plaintext passes through every member's
    /// `encrypt` in list order; the first member failure is returned.
    fn encrypt(&self, plaintext: &[u8]) -> (r: Result<Vec<u8>, CryptoError>) {
        let ghost cs = self.ciphers@;
        let ghost m = plaintext@;
        let mut data = copy_bytes(plaintext);
        let mut i: usize = 0;
        while i < self.ciphers.len()
            invariant
                cs == self.ciphers@,
                m == plaintext@,
                self.initialized(),
                i <= cs.len(),
                layered_encrypt_ok(cs, m, i as int),
                data@ == layered_encrypt(cs, m, i as int),
            decreases cs.len() - i,
        {
            let c = &self.ciphers[i];
            let step = c.encrypt(data.as_slice());
            match step {
                Ok(d) => {
                    data = d;
                }
                Err(e) => {
                    proof {
                        if layered_encrypt_ok(cs, m, cs.len() as int) {
                            lemma_layered_ok_prefix(cs, m, i + 1, cs.len() as int);
                            assert(layered_encrypt_ok(cs, m, i + 1));
                            assert(cs[i as int].spec_encrypt_ok(layered_encrypt(cs, m, i as int)));
                            assert(false);
                        }
                    }
                    return Err(e);
                }
            }
            i = i + 1;
        }
        Ok(data)
    }

    /// Reverse layered decryption: the ciphertext passes through every
    /// member's `decrypt` in reverse list order — the exact mirror of
    /// `encrypt` — recovering, by each member's round-trip contract, the
    /// original input of every genuine layered encryption.
    fn decrypt(&self, ciphertext: &[u8]) -> (r: Result<Vec<u8>, CryptoError>) {
        let ghost cs = self.ciphers@;
        let ghost n = cs.len() as int;
        let mut data = copy_bytes(ciphertext);
        let mut i: usize = self.ciphers.len();
        while i > 0
            invariant
                cs == self.ciphers@,
                n == cs.len() as int,
                self.initialized(),
                i <= cs.len(),
                forall|m: Seq<u8>| layered_encrypt_ok(cs, m, n) && ciphertext@ == #[trigger] layered_encrypt(cs, m, n)
                    ==> data@ == layered_encrypt(cs, m, i as int),
            decreases i,
        {
            let c = &self.ciphers[i - 1];
            let step = c.decrypt(data.as_slice());
            match step {
                Ok(d) => {
                    proof {
                        assert forall|m: Seq<u8>| layered_encrypt_ok(cs, m, n) && ciphertext@ == #[trigger] layered_encrypt(cs, m, n)
                            implies d@ == layered_encrypt(cs, m, i - 1) by {
                            let mid = layered_encrypt(cs, m, i - 1);
                            lemma_layered_ok_prefix(cs, m, i as int, n);
                            assert(cs[i - 1].spec_encrypt_ok(mid));
                            assert(data@ == cs[i - 1].spec_encrypt(mid));
                        }
                    }
                    data = d;
                }
                Err(e) => {
                    proof {
                        assert forall|m: Seq<u8>| layered_encrypt_ok(cs, m, n) && ciphertext@ == #[trigger] layered_encrypt(cs, m, n)
                            implies false by {
                            let mid = layered_encrypt(cs, m, i - 1);
                            lemma_layered_ok_prefix(cs, m, i as int, n);
                            assert(cs[i - 1].spec_encrypt_ok(mid));
                            assert(data@ == cs[i - 1].spec_encrypt(mid));
                        }
                    }
                    return Err(e);
                }
            }
            i = i - 1;
        }
        Ok(data)
    }

    /// Wipes every member cipher; always succeeds.
    fn wipe(&mut self)
        ensures
            forall|j: int| 0 <= j < final(self).ciphers@.len()
                ==> !(#[trigger] final(self).ciphers@[j]).initialized(),
            final(self).ciphers@.len() == old(self).ciphers@.len(),
    {
        let n = self.ciphers.len();
        let mut i: usize = 0;
        while i < n
            invariant
                n == self.ciphers@.len(),
                i <= n,
                forall|j: int| 0 <= j < i ==> !(#[trigger] self.ciphers@[j]).initialized(),
            decreases n - i,
        {
            let c = &mut self.ciphers[i];
            c.wipe();
            i = i + 1;
        }
        proof {
            if self.ciphers@.len() > 0 {
                assert(!self.ciphers@[0].initialized());
            }
        }
    }

    fn algorithm_id(&self) -> &'static str {
        "IX-Multiplexer-v1"
    }

    fn trigger_lockdown(&self) -> (r: bool) {
        self.trigger_lockdown_all()
    }
}

} // verus!
