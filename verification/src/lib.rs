//! Composable symmetric-encryption engine: block-cipher operating modes
//! (CBC, CTR, authenticated GCM), cascade and multiplexing layers that
//! combine independent ciphers, the padding discipline the modes require,
//! and a hash-chained audit log that records operations tamper-evidently.

pub mod errors;
pub mod bytes;
pub mod block_cipher;
pub mod padding;
pub mod zeroization;
pub mod lockdown;
pub mod self_defense;
pub mod entropy;
pub mod pq_resistance;
pub mod cipher_core;
pub mod chacha_quantum;
pub mod multiplexer;
pub mod audit;
pub mod mode_cbc;
pub mod mode_ctr;
pub mod mode_cascade;
pub mod mode_gcm;
