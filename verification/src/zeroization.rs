//! Secure zeroization of key material: every secret-bearing value can be
//! erased in place before it is discarded, so wiped state leaves no
//! residual bytes behind.

use vstd::prelude::*;
use zeroize::Zeroize;
use crate::bytes::zero_seq;

verus! {

/// Types whose contents can be erased in place.
pub trait SecureZeroize: Sized {
    /// Whether the value holds no residual data.
    spec fn zeroized(&self) -> bool;

    /// Erases the contents; afterwards the value is `zeroized`.
    fn secure_zeroize(&mut self)
        ensures
            final(self).zeroized(),
    ;
}

/// Relies on zeroize::Zeroize for Vec<u8>: zeroes every byte, the spare
/// capacity included, then clears the vector to length zero.
#[verifier::external_body]
fn zeroize_vec(v: &mut Vec<u8>)
    ensures
        final(v)@.len() == 0,
{
    v.zeroize();
}

/// Relies on zeroize::Zeroize for [u8; 32]: overwrites every byte with zero.
#[verifier::external_body]
fn zeroize_array_32(a: &mut [u8; 32])
    ensures
        final(a)@ == zero_seq(32),
{
    a.zeroize();
}

/// Relies on zeroize::Zeroize for [u8; 64]: overwrites every byte with zero.
#[verifier::external_body]
fn zeroize_array_64(a: &mut [u8; 64])
    ensures
        final(a)@ == zero_seq(64),
{
    a.zeroize();
}

impl SecureZeroize for Vec<u8> {
    open spec fn zeroized(&self) -> bool {
        self@.len() == 0
    }

    fn secure_zeroize(&mut self) {
        zeroize_vec(self);
    }
}

impl SecureZeroize for [u8; 32] {
    open spec fn zeroized(&self) -> bool {
        self@ == zero_seq(32)
    }

    fn secure_zeroize(&mut self) {
        zeroize_array_32(self);
    }
}

impl SecureZeroize for [u8; 64] {
    open spec fn zeroized(&self) -> bool {
        self@ == zero_seq(64)
    }

    fn secure_zeroize(&mut self) {
        zeroize_array_64(self);
    }
}

/// Erases an optional secret in place and discards it.
pub fn zeroize_optional<T: SecureZeroize>(opt: &mut Option<T>)
    ensures
        *final(opt) is None,
{
    match opt {
        Some(inner) => {
            inner.secure_zeroize();
        }
        None => {}
    }
    *opt = None;
}

} // verus!
