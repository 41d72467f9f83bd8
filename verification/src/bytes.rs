//! Byte-sequence helpers shared by the cipher modes: XOR combination,
//! zero blocks, big-endian length encoding, range copies, and a
//! constant-time equality check for authentication tags.

use vstd::prelude::*;

verus! {

/// XOR of two byte sequences, truncated to the shorter one.
pub open spec fn xor_bytes_spec(a: Seq<u8>, b: Seq<u8>) -> Seq<u8> {
    Seq::new(if a.len() <= b.len() { a.len() } else { b.len() }, |i: int| a[i] ^ b[i])
}

/// A sequence of `n` zero bytes.
pub open spec fn zero_seq(n: nat) -> Seq<u8> {
    Seq::new(n, |i: int| 0u8)
}

/// The eight-byte big-endian encoding of `v`.
pub open spec fn be64_spec(v: u64) -> Seq<u8> {
    seq![
        (v >> 56u64) as u8,
        (v >> 48u64) as u8,
        (v >> 40u64) as u8,
        (v >> 32u64) as u8,
        (v >> 24u64) as u8,
        (v >> 16u64) as u8,
        (v >> 8u64) as u8,
        v as u8,
    ]
}

/// XOR with the same (or a longer) key twice gives the input back.
pub proof fn lemma_xor_involution(a: Seq<u8>, key: Seq<u8>)
    requires
        a.len() <= key.len(),
    ensures
        xor_bytes_spec(xor_bytes_spec(a, key), key) == a,
{
    let once = xor_bytes_spec(a, key);
    assert forall|i: int| 0 <= i < a.len() implies xor_bytes_spec(once, key)[i] == a[i] by {
        let x = a[i];
        let k = key[i];
        assert((x ^ k) ^ k == x) by (bit_vector);
    }
    assert(xor_bytes_spec(once, key) =~= a);
}

/// XOR of two byte slices, truncated to the shorter one.
pub fn xor_bytes(a: &[u8], b: &[u8]) -> (r: Vec<u8>)
    ensures
        r@ == xor_bytes_spec(a@, b@),
{
    let n: usize = if a.len() <= b.len() { a.len() } else { b.len() };
    let mut r: Vec<u8> = Vec::new();
    let mut i: usize = 0;
    while i < n
        invariant
            i <= n,
            n == xor_bytes_spec(a@, b@).len(),
            n <= a@.len() && n <= b@.len(),
            r@ == xor_bytes_spec(a@, b@).take(i as int),
        decreases n - i,
    {
        r.push(a[i] ^ b[i]);
        i = i + 1;
        assert(r@ =~= xor_bytes_spec(a@, b@).take(i as int));
    }
    assert(r@ =~= xor_bytes_spec(a@, b@));
    r
}

/// A vector of `n` zero bytes.
pub fn zero_vec(n: usize) -> (r: Vec<u8>)
    ensures
        r@ == zero_seq(n as nat),
{
    let r: Vec<u8> = vec![0u8; n];
    assert(r@ =~= zero_seq(n as nat));
    r
}

/// The bytes of `data` from `from` (inclusive) to `to` (exclusive).
pub fn copy_range(data: &[u8], from: usize, to: usize) -> (r: Vec<u8>)
    requires
        from <= to <= data@.len(),
    ensures
        r@ == data@.subrange(from as int, to as int),
{
    let mut r: Vec<u8> = Vec::new();
    let mut i: usize = from;
    while i < to
        invariant
            from <= i <= to <= data@.len(),
            r@ == data@.subrange(from as int, i as int),
        decreases to - i,
    {
        r.push(data[i]);
        i = i + 1;
        assert(r@ =~= data@.subrange(from as int, i as int));
    }
    r
}

/// A fresh vector holding the same bytes as `data`.
pub fn copy_bytes(data: &[u8]) -> (r: Vec<u8>)
    ensures
        r@ == data@,
{
    let r = copy_range(data, 0, data.len());
    assert(data@.subrange(0, data@.len() as int) =~= data@);
    r
}

/// Big-endian encoding of a 64-bit value.
pub fn be64_bytes(v: u64) -> (r: Vec<u8>)
    ensures
        r@ == be64_spec(v),
{
    let mut r: Vec<u8> = Vec::new();
    r.push(#[verifier::truncate] ((v >> 56u64) as u8));
    r.push(#[verifier::truncate] ((v >> 48u64) as u8));
    r.push(#[verifier::truncate] ((v >> 40u64) as u8));
    r.push(#[verifier::truncate] ((v >> 32u64) as u8));
    r.push(#[verifier::truncate] ((v >> 24u64) as u8));
    r.push(#[verifier::truncate] ((v >> 16u64) as u8));
    r.push(#[verifier::truncate] ((v >> 8u64) as u8));
    r.push(#[verifier::truncate] (v as u8));
    assert(r@ =~= be64_spec(v));
    r
}

/// Equality of two byte slices, evaluated without an early exit on the
/// first mismatching byte, as tag comparison requires.
pub fn ct_eq(a: &[u8], b: &[u8]) -> (r: bool)
    ensures
        r == (a@ == b@),
{
    if a.len() != b.len() {
        assert(a@ !~= b@);
        return false;
    }
    let mut acc: u8 = 0;
    let mut i: usize = 0;
    assert(a@.take(0) =~= b@.take(0));
    while i < a.len()
        invariant
            i <= a@.len() == b@.len(),
            acc == 0 <==> a@.take(i as int) == b@.take(i as int),
        decreases a@.len() - i,
    {
        let ghost prev_eq = a@.take(i as int) == b@.take(i as int);
        let d: u8 = a[i] ^ b[i];
        proof {
            let x = a@[i as int];
            let y = b@[i as int];
            assert((x ^ y) == 0 <==> x == y) by (bit_vector);
            let acc0 = acc;
            let d0 = d;
            assert((acc0 | d0) == 0 <==> acc0 == 0 && d0 == 0) by (bit_vector);
            if prev_eq && x == y {
                assert(a@.take(i + 1) =~= b@.take(i + 1));
            }
            if a@.take(i + 1) == b@.take(i + 1) {
                assert(a@.take(i as int) =~= a@.take(i + 1).take(i as int));
                assert(b@.take(i as int) =~= b@.take(i + 1).take(i as int));
                assert(x == a@.take(i + 1)[i as int] && y == b@.take(i + 1)[i as int]);
            }
        }
        acc = acc | d;
        i = i + 1;
    }
    proof {
        assert(a@.take(a@.len() as int) =~= a@);
        assert(b@.take(b@.len() as int) =~= b@);
        if a@ == b@ {
            assert(a@.take(a@.len() as int) == b@.take(b@.len() as int));
        }
    }
    acc == 0
}

} // verus!
