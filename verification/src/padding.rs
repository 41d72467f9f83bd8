//! PKCS#7 byte padding: the reversible padding discipline CBC mode requires.
//!
//! `pkcs7_pad` always appends between 1 and `block_size` bytes, each holding
//! the number of bytes appended, so a full block of padding is appended when
//! the input is already aligned. `pkcs7_unpad` validates and removes it; the
//! validation is the integrity boundary that rejects most malformed buffers.

use vstd::prelude::*;
use crate::errors::CryptoError;

verus! {

/// Number of padding bytes appended to data of length `data_len`.
pub open spec fn pad_len_of(data_len: nat, block_size: nat) -> nat
    recommends
        0 < block_size,
{
    (block_size - (data_len % block_size)) as nat
}

/// The padded form of `data`: the data followed by `n` bytes of value `n`.
pub open spec fn pkcs7_pad_spec(data: Seq<u8>, block_size: nat) -> Seq<u8>
    recommends
        0 < block_size <= 255,
{
    data + Seq::new(pad_len_of(data.len(), block_size), |i: int| pad_len_of(data.len(), block_size) as u8)
}

/// Whether a buffer ends in well-formed PKCS#7 padding: it is non-empty, its
/// last byte `n` is neither zero nor larger than the buffer, and the trailing
/// `n` bytes all equal `n`.
pub open spec fn pkcs7_padding_valid(padded: Seq<u8>) -> bool {
    &&& padded.len() > 0
    &&& 0 < padded.last()
    &&& padded.last() <= padded.len()
    &&& forall|i: int| padded.len() - padded.last() <= i < padded.len() ==> padded[i] == padded.last()
}

/// The data recovered from a validly padded buffer.
pub open spec fn pkcs7_unpad_spec(padded: Seq<u8>) -> Seq<u8>
    recommends
        pkcs7_padding_valid(padded),
{
    padded.take(padded.len() - padded.last())
}

/// Pads `data` to a multiple of `block_size` with PKCS#7 semantics.
pub fn pkcs7_pad(data: &[u8], block_size: usize) -> (padded: Vec<u8>)
    requires
        0 < block_size <= 255,
        data@.len() + block_size <= usize::MAX,
    ensures
        padded@ == pkcs7_pad_spec(data@, block_size as nat),
        padded@.len() % (block_size as nat) == 0,
        data@.len() < padded@.len() <= data@.len() + block_size,
{
    proof {
        lemma_pad_aligns(data@, block_size as nat);
    }
    let pad_len: usize = block_size - data.len() % block_size;
    let mut padded: Vec<u8> = Vec::new();
    let mut i: usize = 0;
    while i < data.len()
        invariant
            i <= data@.len(),
            padded@ == data@.take(i as int),
        decreases data@.len() - i,
    {
        padded.push(data[i]);
        i = i + 1;
    }
    assert(padded@ == data@);
    let mut j: usize = 0;
    while j < pad_len
        invariant
            j <= pad_len,
            pad_len == pad_len_of(data@.len(), block_size as nat),
            padded@ == data@ + Seq::new(j as nat, |k: int| pad_len as u8),
        decreases pad_len - j,
    {
        padded.push(pad_len as u8);
        j = j + 1;
        assert(padded@ =~= data@ + Seq::new(j as nat, |k: int| pad_len as u8));
    }
    assert(padded@ =~= pkcs7_pad_spec(data@, block_size as nat));
    padded
}

/// Validates and removes PKCS#7 padding; fails with `InvalidPadding` on
/// empty input, a zero or oversized final byte, or unequal trailing bytes.
pub fn pkcs7_unpad(padded: &[u8]) -> (r: Result<Vec<u8>, CryptoError>)
    ensures
        r is Ok <==> pkcs7_padding_valid(padded@),
        r matches Ok(data) ==> data@ == pkcs7_unpad_spec(padded@),
        r matches Err(e) ==> e == CryptoError::InvalidPadding,
{
    if padded.len() == 0 {
        return Err(CryptoError::InvalidPadding);
    }
    let last: u8 = padded[padded.len() - 1];
    let pad_len: usize = last as usize;
    if pad_len == 0 || pad_len > padded.len() {
        return Err(CryptoError::InvalidPadding);
    }
    let data_len: usize = padded.len() - pad_len;
    let mut i: usize = data_len;
    while i < padded.len()
        invariant
            data_len <= i <= padded@.len(),
            data_len == padded@.len() - padded@.last(),
            last == padded@.last(),
            forall|k: int| data_len <= k < i ==> padded@[k] == padded@.last(),
        decreases padded@.len() - i,
    {
        if padded[i] != last {
            return Err(CryptoError::InvalidPadding);
        }
        i = i + 1;
    }
    let mut data: Vec<u8> = Vec::new();
    let mut j: usize = 0;
    while j < data_len
        invariant
            j <= data_len <= padded@.len(),
            data@ == padded@.take(j as int),
        decreases data_len - j,
    {
        data.push(padded[j]);
        j = j + 1;
    }
    assert(data@ =~= pkcs7_unpad_spec(padded@));
    Ok(data)
}

/// Padding always reaches the next block boundary: it adds between one byte
/// and one whole block, and the padded length is a multiple of the block size.
pub proof fn lemma_pad_aligns(data: Seq<u8>, block_size: nat)
    requires
        0 < block_size,
    ensures
        0 < pad_len_of(data.len(), block_size) <= block_size,
        pkcs7_pad_spec(data, block_size).len() == data.len() + pad_len_of(data.len(), block_size),
        pkcs7_pad_spec(data, block_size).len() % block_size == 0,
{
    let l = data.len();
    let n = pad_len_of(l, block_size);
    assert(l % block_size < block_size) by (nonlinear_arith)
        requires 0 < block_size;
    assert((l + n) % block_size == 0) by (nonlinear_arith)
        requires
            0 < block_size,
            n == block_size - (l % block_size);
}

/// Removing the padding that `pkcs7_pad_spec` appended always succeeds and
/// recovers the original data exactly.
pub proof fn lemma_pkcs7_round_trip(data: Seq<u8>, block_size: nat)
    requires
        0 < block_size <= 255,
    ensures
        pkcs7_padding_valid(pkcs7_pad_spec(data, block_size)),
        pkcs7_unpad_spec(pkcs7_pad_spec(data, block_size)) == data,
{
    let n = pad_len_of(data.len(), block_size);
    lemma_pad_aligns(data, block_size);
    let padded = pkcs7_pad_spec(data, block_size);
    assert(padded.last() == n as u8);
    assert(forall|i: int| padded.len() - n <= i < padded.len() ==> padded[i] == n as u8);
    assert(pkcs7_unpad_spec(padded) =~= data);
}

} // verus!
