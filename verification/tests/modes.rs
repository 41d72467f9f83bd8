//! Block-cipher operating modes: padding, CBC, CTR, GCM and cascade.

use ix_encryption::block_cipher::{BlockCipher, IdentityCipher, XorKeyCipher};
use ix_encryption::errors::CryptoError;
use ix_encryption::mode_cascade::CascadeMode;
use ix_encryption::mode_cbc::CBCMode;
use ix_encryption::mode_ctr::{increment_counter, CTRMode};
use ix_encryption::mode_gcm::{gf_mul, GCMMode};
use ix_encryption::padding::{pkcs7_pad, pkcs7_unpad};

fn sample_bytes(len: usize) -> Vec<u8> {
    (0..len).map(|i| (i as u8).wrapping_mul(37).wrapping_add(11)).collect()
}

#[test]
fn pkcs7_round_trip_all_short_lengths() {
    for len in 0..160 {
        let data = sample_bytes(len);
        let padded = pkcs7_pad(&data, 16);
        assert_eq!(padded.len() % 16, 0);
        assert!(padded.len() > data.len());
        assert_eq!(pkcs7_unpad(&padded), Ok(data));
    }
}

#[test]
fn pkcs7_pad_appends_full_block_when_aligned() {
    let data = sample_bytes(16);
    let padded = pkcs7_pad(&data, 16);
    assert_eq!(padded.len(), 32);
    assert_eq!(&padded[16..], &[16u8; 16]);
}

#[test]
fn pkcs7_unpad_rejects_empty_input() {
    assert_eq!(pkcs7_unpad(&[]), Err(CryptoError::InvalidPadding));
}

#[test]
fn pkcs7_unpad_rejects_zero_final_byte() {
    assert_eq!(pkcs7_unpad(&[0u8; 16]), Err(CryptoError::InvalidPadding));
}

#[test]
fn pkcs7_unpad_rejects_oversized_final_byte() {
    assert_eq!(pkcs7_unpad(&[1, 2, 9]), Err(CryptoError::InvalidPadding));
}

#[test]
fn pkcs7_unpad_rejects_unequal_trailing_bytes() {
    assert_eq!(pkcs7_unpad(&[1, 2, 7, 3, 3]), Err(CryptoError::InvalidPadding));
}

#[test]
fn cbc_identity_cipher_zero_iv_scenario() {
    // An all-zero 16-byte IV and an identity block cipher: a 10-byte
    // plaintext becomes exactly one block, the plaintext followed by six
    // bytes of 0x06, and decryption recovers the 10 bytes.
    let cipher = IdentityCipher::new(16);
    let mode = CBCMode::new(cipher, vec![0u8; 16]);
    let plaintext: Vec<u8> = (1..=10).collect();
    let ciphertext = mode.encrypt(&plaintext);
    let mut expected = plaintext.clone();
    expected.extend_from_slice(&[6u8; 6]);
    assert_eq!(ciphertext, expected);
    assert_eq!(mode.decrypt(&ciphertext), Ok(plaintext));
}

#[test]
fn cbc_round_trip_with_xor_cipher() {
    let key = sample_bytes(16);
    for len in [0, 1, 15, 16, 17, 64, 100] {
        let cipher = XorKeyCipher::new(key.clone());
        let mode = CBCMode::new(cipher, sample_bytes(16));
        let plaintext = sample_bytes(len);
        let ciphertext = mode.encrypt(&plaintext);
        assert_eq!(ciphertext.len() % 16, 0);
        assert_eq!(mode.decrypt(&ciphertext), Ok(plaintext));
    }
}

#[test]
fn cbc_chains_blocks_through_previous_ciphertext() {
    // With the identity cipher and a nonzero IV, the second block must be
    // XORed with the first ciphertext block, not with the IV.
    let cipher = IdentityCipher::new(4);
    let mode = CBCMode::new(cipher, vec![1, 2, 3, 4]);
    let plaintext = vec![0u8; 8];
    let ciphertext = mode.encrypt(&plaintext);
    assert_eq!(&ciphertext[0..4], &[1, 2, 3, 4]);
    assert_eq!(&ciphertext[4..8], &[1, 2, 3, 4]);
    assert_eq!(&ciphertext[8..12], &[1 ^ 4, 2 ^ 4, 3 ^ 4, 4 ^ 4]);
}

#[test]
fn cbc_decrypt_rejects_misaligned_ciphertext() {
    let cipher = XorKeyCipher::new(sample_bytes(16));
    let mode = CBCMode::new(cipher, vec![0u8; 16]);
    assert_eq!(mode.decrypt(&[0u8; 15]), Err(CryptoError::MisalignedCiphertext));
}

#[test]
fn cbc_decrypt_rejects_invalid_padding() {
    // Identity cipher, zero IV: the raw decryption is the ciphertext
    // itself, so a block ending in 0x00 carries invalid padding.
    let cipher = IdentityCipher::new(16);
    let mode = CBCMode::new(cipher, vec![0u8; 16]);
    assert_eq!(mode.decrypt(&[0u8; 16]), Err(CryptoError::InvalidPadding));
}

#[test]
fn ctr_process_is_self_inverse() {
    let key = sample_bytes(16);
    for len in [0, 1, 15, 16, 20, 33, 64] {
        let cipher = XorKeyCipher::new(key.clone());
        let mode = CTRMode::new(cipher, sample_bytes(16));
        let input = sample_bytes(len);
        let once = mode.process(&input);
        assert_eq!(once.len(), input.len());
        assert_eq!(mode.process(&once), input);
    }
}

#[test]
fn ctr_output_differs_from_input_under_nonzero_keystream() {
    let cipher = XorKeyCipher::new(vec![0xAA; 16]);
    let mode = CTRMode::new(cipher, vec![0u8; 16]);
    let input = vec![0u8; 16];
    let out = mode.process(&input);
    assert_ne!(out, input);
}

#[test]
fn counter_increments_big_endian_and_wraps() {
    assert_eq!(increment_counter(&[0, 0, 0, 0]), vec![0, 0, 0, 1]);
    assert_eq!(increment_counter(&[0, 0, 0, 0xFF]), vec![0, 0, 1, 0]);
    assert_eq!(increment_counter(&[1, 0xFF, 0xFF, 0xFF]), vec![2, 0, 0, 0]);
    assert_eq!(increment_counter(&[0xFF, 0xFF, 0xFF, 0xFF]), vec![0, 0, 0, 0]);
}

#[test]
fn gf_mul_matches_field_arithmetic() {
    // The worked multiplication example of the AES field: {57} x {83} = {c1}.
    assert_eq!(gf_mul(0x57, 0x83), 0xC1);
    assert_eq!(gf_mul(0x57, 0x13), 0xFE);
    assert_eq!(gf_mul(0x80, 0x02), 0x1B);
    assert_eq!(gf_mul(0x00, 0x45), 0x00);
    assert_eq!(gf_mul(0x45, 0x01), 0x45);
}

#[test]
fn gcm_round_trip_with_aad() {
    let cipher = XorKeyCipher::new(sample_bytes(16));
    let mode = GCMMode::new(cipher, sample_bytes(16), b"header".to_vec());
    let plaintext = sample_bytes(50);
    let (ciphertext, tag) = mode.encrypt_and_tag(&plaintext);
    assert_eq!(ciphertext.len(), plaintext.len());
    assert_eq!(tag.len(), 16);
    assert_eq!(mode.decrypt_and_verify(&ciphertext, &tag), Ok(plaintext));
}

#[test]
fn gcm_rejects_any_single_bit_flip() {
    let cipher = XorKeyCipher::new(sample_bytes(16));
    let mode = GCMMode::new(cipher, sample_bytes(16), b"aad".to_vec());
    let plaintext = sample_bytes(23);
    let (ciphertext, tag) = mode.encrypt_and_tag(&plaintext);
    for i in 0..tag.len() {
        for bit in 0..8 {
            let mut bad_tag = tag.clone();
            bad_tag[i] ^= 1 << bit;
            assert_eq!(
                mode.decrypt_and_verify(&ciphertext, &bad_tag),
                Err(CryptoError::AuthenticationFailure)
            );
        }
    }
    for i in 0..ciphertext.len() {
        let mut bad_ct = ciphertext.clone();
        bad_ct[i] ^= 0x40;
        assert_eq!(
            mode.decrypt_and_verify(&bad_ct, &tag),
            Err(CryptoError::AuthenticationFailure)
        );
    }
}

#[test]
fn gcm_tag_depends_on_aad() {
    let plaintext = sample_bytes(20);
    let cipher_a = XorKeyCipher::new(sample_bytes(16));
    let with_aad = GCMMode::new(cipher_a, sample_bytes(16), b"aad-one".to_vec());
    let cipher_b = XorKeyCipher::new(sample_bytes(16));
    let other_aad = GCMMode::new(cipher_b, sample_bytes(16), b"aad-two".to_vec());
    let (ct1, tag1) = with_aad.encrypt_and_tag(&plaintext);
    let (ct2, tag2) = other_aad.encrypt_and_tag(&plaintext);
    assert_eq!(ct1, ct2);
    assert_ne!(tag1, tag2);
    assert_eq!(
        other_aad.decrypt_and_verify(&ct1, &tag1),
        Err(CryptoError::AuthenticationFailure)
    );
}

#[test]
fn cascade_round_trip_in_reverse_order() {
    let ciphers = vec![
        XorKeyCipher::new(sample_bytes(8)),
        XorKeyCipher::new(vec![0x5A; 8]),
        XorKeyCipher::new(vec![0x0F; 8]),
    ];
    let cascade = CascadeMode::new(ciphers);
    assert_eq!(cascade.block_size(), 8);
    let block = sample_bytes(8);
    let encrypted = cascade.encrypt(&block);
    assert_eq!(encrypted.len(), 8);
    assert_eq!(cascade.decrypt(&encrypted), block);
}

#[test]
fn cascade_applies_every_layer() {
    let cascade = CascadeMode::new(vec![
        XorKeyCipher::new(vec![0x01; 4]),
        XorKeyCipher::new(vec![0x02; 4]),
    ]);
    let out = cascade.encrypt(&[0u8; 4]);
    assert_eq!(out, vec![0x03; 4]);
}

#[test]
fn block_ciphers_report_their_block_size() {
    let id = IdentityCipher::new(24);
    assert_eq!(id.block_size(), 24);
    assert_eq!(id.encrypt_block(&[7u8; 24]), vec![7u8; 24]);
    let xk = XorKeyCipher::new(vec![0xFF; 5]);
    assert_eq!(xk.block_size(), 5);
    assert_eq!(xk.encrypt_block(&[0xFF; 5]), vec![0u8; 5]);
    assert_eq!(xk.decrypt_block(&[0u8; 5]), vec![0xFF; 5]);
}
