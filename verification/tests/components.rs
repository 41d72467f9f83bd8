//! The composition layer and collaborator capabilities: multiplexer,
//! hybrid cipher, entropy pool, KEM interface, lockdown state and
//! zeroization.

use ix_encryption::bytes::{be64_bytes, xor_bytes, zero_vec};
use ix_encryption::chacha_quantum::ChaChaQuantum;
use ix_encryption::cipher_core::IXCipherCore;
use ix_encryption::entropy::EntropyPool;
use ix_encryption::errors::CryptoError;
use ix_encryption::lockdown::HardwareLockdown;
use ix_encryption::multiplexer::IXCipherMultiplexer;
use ix_encryption::pq_resistance::{PQResistance, PQKEM};
use ix_encryption::self_defense::SelfDefense;
use ix_encryption::zeroization::{zeroize_optional, SecureZeroize};

fn sample_key(len: usize) -> Vec<u8> {
    (0..len).map(|i| (i as u8).wrapping_mul(41).wrapping_add(3)).collect()
}

#[test]
fn chacha_quantum_round_trip() {
    let mut cipher = ChaChaQuantum::new().unwrap();
    cipher.initialize(&sample_key(32), None).unwrap();
    let plaintext = b"embedded payload".to_vec();
    let ciphertext = cipher.encrypt(&plaintext).unwrap();
    assert_eq!(ciphertext.len(), plaintext.len() + 16);
    assert_eq!(cipher.decrypt(&ciphertext), Ok(plaintext));
    assert_eq!(cipher.algorithm_id(), "IX-ChaChaQuantum-v1");
}

#[test]
fn chacha_quantum_rejects_short_key_and_forgery() {
    let mut cipher = ChaChaQuantum::new().unwrap();
    assert_eq!(
        cipher.initialize(&sample_key(31), None),
        Err(CryptoError::InsufficientKeyMaterial)
    );
    cipher.initialize(&sample_key(40), None).unwrap();
    let ciphertext = cipher.encrypt(b"data").unwrap();
    let mut forged = ciphertext.clone();
    forged[0] ^= 1;
    assert_eq!(cipher.decrypt(&forged), Err(CryptoError::AuthenticationFailure));
}

#[test]
fn chacha_quantum_wipe_erases_state() {
    let mut cipher = ChaChaQuantum::new().unwrap();
    cipher.initialize(&sample_key(32), None).unwrap();
    cipher.wipe();
    assert_eq!(cipher.key, None);
    assert_eq!(cipher.nonce, vec![0u8; 12]);
    cipher.wipe();
    assert_eq!(cipher.key, None);
}

#[test]
fn multiplexer_layers_three_ciphers_and_recovers() {
    let mut mux = IXCipherMultiplexer::new();
    for _ in 0..3 {
        mux.add_cipher(ChaChaQuantum::new().unwrap());
    }
    // 96 key bytes split as three contiguous 32-byte slices.
    mux.initialize(&sample_key(96), None).unwrap();
    let plaintext = b"defense in depth".to_vec();
    let ciphertext = mux.encrypt(&plaintext).unwrap();
    // Each of the three layers added its 16-byte tag, in order.
    assert_eq!(ciphertext.len(), plaintext.len() + 48);
    assert_eq!(mux.decrypt(&ciphertext), Ok(plaintext));
    assert_eq!(mux.algorithm_id(), "IX-Multiplexer-v1");
}

#[test]
fn multiplexer_drops_remainder_key_bytes() {
    let mut mux = IXCipherMultiplexer::new();
    for _ in 0..3 {
        mux.add_cipher(ChaChaQuantum::new().unwrap());
    }
    // 100 bytes over three ciphers: slices of 33 bytes, one byte dropped.
    mux.initialize(&sample_key(100), None).unwrap();
    let ct = mux.encrypt(b"x").unwrap();
    assert_eq!(mux.decrypt(&ct), Ok(b"x".to_vec()));
}

#[test]
fn multiplexer_requires_members_and_key_material() {
    let mut empty: IXCipherMultiplexer<ChaChaQuantum> = IXCipherMultiplexer::new();
    assert_eq!(
        empty.initialize(&sample_key(32), None),
        Err(CryptoError::InsufficientKeyMaterial)
    );
    let mut mux = IXCipherMultiplexer::new();
    mux.add_cipher(ChaChaQuantum::new().unwrap());
    assert_eq!(mux.initialize(&[], None), Err(CryptoError::InsufficientKeyMaterial));
    // Three members sharing 30 bytes: 10 bytes each, too short for any.
    let mut starved = IXCipherMultiplexer::new();
    for _ in 0..3 {
        starved.add_cipher(ChaChaQuantum::new().unwrap());
    }
    assert_eq!(
        starved.initialize(&sample_key(30), None),
        Err(CryptoError::InsufficientKeyMaterial)
    );
}

#[test]
fn multiplexer_lockdown_short_circuits() {
    let mut mux = IXCipherMultiplexer::new();
    for _ in 0..3 {
        mux.add_cipher(ChaChaQuantum::new().unwrap());
    }
    assert!(!mux.trigger_lockdown_all());
    mux.ciphers[1].lockdown_enabled = true;
    assert!(mux.trigger_lockdown_all());
    assert!(mux.trigger_lockdown());
}

#[test]
fn multiplexer_wipe_wipes_every_member() {
    let mut mux = IXCipherMultiplexer::new();
    for _ in 0..2 {
        mux.add_cipher(ChaChaQuantum::new().unwrap());
    }
    mux.initialize(&sample_key(64), None).unwrap();
    mux.wipe();
    for member in &mux.ciphers {
        assert_eq!(member.key, None);
    }
}

#[test]
fn entropy_pool_sizes_and_derivation_are_deterministic() {
    let pool = EntropyPool::new(48).unwrap();
    assert_eq!(pool.buffer.len(), 48);
    let seed16 = pool.derive_seed(16);
    let seed64 = pool.derive_seed(64);
    assert_eq!(seed16.len(), 16);
    assert_eq!(seed64.len(), 64);
    assert_eq!(&seed64[..16], &seed16[..]);
    // Requests beyond the digest width are capped at 64 bytes.
    assert_eq!(pool.derive_seed(100).len(), 64);
}

#[test]
fn entropy_derive_seed_hashes_the_pool() {
    // SHA-512 of an empty pool is a fixed, known value.
    let pool = EntropyPool { buffer: vec![] };
    let seed = pool.derive_seed(8);
    assert_eq!(seed, vec![0xcf, 0x83, 0xe1, 0x35, 0x7e, 0xef, 0xb8, 0xbd]);
}

#[test]
fn kem_material_lengths_match_each_mechanism() {
    for (kem, len) in [
        (PQKEM::Kyber, 32),
        (PQKEM::BIKE, 48),
        (PQKEM::NTRU, 64),
        (PQKEM::Hybrid, 96),
    ] {
        let key = PQResistance::encapsulate(kem).unwrap();
        assert_eq!(key.encapsulated_key.len(), len);
        assert_eq!(key.shared_secret.len(), len);
    }
}

#[test]
fn lockdown_state_records_detection() {
    let mut lockdown = HardwareLockdown::new(250);
    assert_eq!(lockdown.access_check_interval_ms, 250);
    assert!(!lockdown.lockdown_triggered());
    assert!(!HardwareLockdown::detect_illegal_access());
    lockdown.note_illegal_access();
    assert!(lockdown.lockdown_triggered());
}

#[test]
fn self_defense_flag_is_sticky() {
    let mut defense = SelfDefense::new();
    assert!(!defense.is_triggered());
    defense.trigger_illegal_access();
    assert!(defense.is_triggered());
    defense.trigger_illegal_access();
    assert!(defense.is_triggered());
}

#[test]
fn zeroization_erases_secrets() {
    let mut secret = vec![1u8, 2, 3, 4];
    secret.secure_zeroize();
    assert!(secret.is_empty());

    let mut block32 = [0x5Au8; 32];
    block32.secure_zeroize();
    assert_eq!(block32, [0u8; 32]);

    let mut block64 = [0xA5u8; 64];
    block64.secure_zeroize();
    assert_eq!(block64, [0u8; 64]);

    let mut opt = Some(vec![9u8; 16]);
    zeroize_optional(&mut opt);
    assert_eq!(opt, None);
    zeroize_optional(&mut opt);
    assert_eq!(opt, None);
}

#[test]
fn byte_helpers_compute_exact_values() {
    assert_eq!(be64_bytes(0), vec![0u8; 8]);
    assert_eq!(be64_bytes(256), vec![0, 0, 0, 0, 0, 0, 1, 0]);
    assert_eq!(be64_bytes(u64::MAX), vec![0xFF; 8]);
    assert_eq!(xor_bytes(&[0xF0, 0x0F], &[0xFF, 0xFF]), vec![0x0F, 0xF0]);
    assert_eq!(xor_bytes(&[1, 2, 3], &[1, 2]), vec![0, 0]);
    assert_eq!(zero_vec(3), vec![0u8; 3]);
}

fn chacha_with(key_byte: u8, nonce_byte: u8) -> ChaChaQuantum {
    ChaChaQuantum {
        key: Some(vec![key_byte; 32]),
        nonce: vec![nonce_byte; 12],
        lockdown_enabled: false,
    }
}

#[test]
fn multiplexer_applies_layers_in_list_order() {
    let mut mux = IXCipherMultiplexer::new();
    mux.add_cipher(chacha_with(1, 1));
    mux.add_cipher(chacha_with(2, 2));
    mux.add_cipher(chacha_with(3, 3));
    let plaintext = b"ordered".to_vec();
    let layer1 = chacha_with(1, 1).encrypt(&plaintext).unwrap();
    let layer2 = chacha_with(2, 2).encrypt(&layer1).unwrap();
    let expected = chacha_with(3, 3).encrypt(&layer2).unwrap();
    let got = mux.encrypt(&plaintext).unwrap();
    assert_eq!(got, expected);
    // The mirror-image order would produce different bytes.
    let rev1 = chacha_with(3, 3).encrypt(&plaintext).unwrap();
    let rev2 = chacha_with(2, 2).encrypt(&rev1).unwrap();
    let reversed = chacha_with(1, 1).encrypt(&rev2).unwrap();
    assert_ne!(got, reversed);
    assert_eq!(mux.decrypt(&got), Ok(plaintext));
}
