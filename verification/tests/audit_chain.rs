//! The tamper-evident audit chain: record format, chaining, re-opening,
//! verification, and the hex codec it persists hashes with.

use ix_encryption::audit::{
    hex_decode, hex_encode, parse_record, sha256, verify_chain, AuditChain,
};
use ix_encryption::errors::CryptoError;
use sha2::Digest;

fn expected_hash(parts: &[&[u8]]) -> Vec<u8> {
    let mut hasher = sha2::Sha256::new();
    for p in parts {
        hasher.update(p);
    }
    hasher.finalize().to_vec()
}

fn record(ts: &[u8], event: &[u8], hash: &[u8]) -> Vec<u8> {
    let mut line = ts.to_vec();
    line.push(b'|');
    line.extend_from_slice(event);
    line.push(b'|');
    line.extend_from_slice(&hex_encode(hash));
    line
}

#[test]
fn chain_hashes_three_events_and_reopens() {
    let mut chain = AuditChain::new();
    let l1 = chain.append(b"t1", b"e1").unwrap();
    let l2 = chain.append(b"t2", b"e2").unwrap();
    let l3 = chain.append(b"t3", b"e3").unwrap();

    let h1 = expected_hash(&[b"t1", b"e1"]);
    let h2 = expected_hash(&[b"t2", b"e2", &h1]);
    let h3 = expected_hash(&[b"t3", b"e3", &h2]);
    assert_eq!(l1, record(b"t1", b"e1", &h1));
    assert_eq!(l2, record(b"t2", b"e2", &h2));
    assert_eq!(l3, record(b"t3", b"e3", &h3));

    // The whole store verifies as a chain.
    assert!(verify_chain(&vec![l1.clone(), l2.clone(), l3.clone()]));

    // Re-opening seeds from the persisted last record and continues.
    let mut reopened = AuditChain::seed_from_record(&l3);
    assert_eq!(reopened.last_hash, Some(h3.clone()));
    let l4 = reopened.append(b"t4", b"e4").unwrap();
    let h4 = expected_hash(&[b"t4", b"e4", &h3]);
    assert_eq!(l4, record(b"t4", b"e4", &h4));
    assert!(verify_chain(&vec![l1, l2, l3, l4]));
}

#[test]
fn mutating_any_line_invalidates_the_chain() {
    let mut chain = AuditChain::new();
    let lines: Vec<Vec<u8>> = [b"e1", b"e2", b"e3"]
        .iter()
        .map(|e| chain.append(b"2024-01-01T00:00:00+00:00", *e).unwrap())
        .collect();
    assert!(verify_chain(&lines));
    for i in 0..lines.len() {
        for pos in 0..lines[i].len() {
            let mut tampered = lines.clone();
            tampered[i][pos] ^= 0x01;
            assert!(!verify_chain(&tampered), "undetected edit in line {i} at {pos}");
        }
    }
}

#[test]
fn append_rejects_delimiter_and_line_break() {
    let mut chain = AuditChain::new();
    assert_eq!(chain.append(b"t", b"a|b"), Err(CryptoError::InvalidEventText));
    assert_eq!(chain.append(b"t", b"a\nb"), Err(CryptoError::InvalidEventText));
    assert_eq!(chain.append(b"t|t", b"e"), Err(CryptoError::InvalidEventText));
    assert_eq!(chain.last_hash, None);
}

#[test]
fn log_event_stamps_and_chains() {
    let mut chain = AuditChain::new();
    let line = chain.log_event(b"initialize").unwrap();
    let (ts, event, hash) = parse_record(&line).unwrap();
    assert_eq!(event, b"initialize".to_vec());
    assert!(!ts.is_empty());
    assert_eq!(hash, expected_hash(&[&ts, b"initialize"]));
    assert_eq!(chain.last_hash, Some(hash));
    assert!(verify_chain(&vec![line]));
}

#[test]
fn sha256_empty_input_has_known_digest() {
    let digest = sha256(b"");
    assert_eq!(
        hex_encode(&digest),
        b"e3b0c44298fc1c149afbf4c8996fb92427ae41e4649b934ca495991b7852b855".to_vec()
    );
}

#[test]
fn parse_record_accepts_well_formed_lines_only() {
    let h = expected_hash(&[b"x"]);
    let line = record(b"ts", b"ev", &h);
    assert_eq!(parse_record(&line), Some((b"ts".to_vec(), b"ev".to_vec(), h)));
    assert_eq!(parse_record(b"no delimiters here"), None);
    assert_eq!(parse_record(b"only|one delimiter"), None);
    assert_eq!(parse_record(b"ts|ev|nothex!"), None);
    assert_eq!(parse_record(b"ts|ev|abc"), None);
}

#[test]
fn hex_codec_round_trips_and_rejects_bad_input() {
    assert_eq!(hex_encode(&[0xAB, 0x01, 0x00]), b"ab0100".to_vec());
    assert_eq!(hex_decode(b"ab0100"), Ok(vec![0xAB, 0x01, 0x00]));
    assert_eq!(hex_decode(b"AB01"), Ok(vec![0xAB, 0x01]));
    assert_eq!(hex_decode(b"abc"), Err(()));
    assert_eq!(hex_decode(b"zz"), Err(()));
    assert_eq!(hex_decode(b""), Ok(vec![]));
}

#[test]
fn verify_chain_accepts_empty_store_and_rejects_bad_seed_order() {
    assert!(verify_chain(&vec![]));
    let mut chain = AuditChain::new();
    let l1 = chain.append(b"t1", b"e1").unwrap();
    let l2 = chain.append(b"t2", b"e2").unwrap();
    // Out of order, the running hash no longer matches.
    assert!(!verify_chain(&vec![l2, l1]));
}
