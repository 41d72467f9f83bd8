//! Tamper-evident audit chain. Every record is `timestamp|event|hex-hash`,
//! one per line, where the hash is SHA-256 over the timestamp, the event
//! text and the previous record's hash (absent for the first record ever
//! written). The chain state holds the last hash, seeded from the
//! persisted store's final record at open time; the store itself is plain
//! append-only I/O kept outside this module. Event text and timestamps may
//! not contain the delimiter or a line break: such input is rejected rather
//! than escaped, so a record always splits unambiguously.

use vstd::prelude::*;
use sha2::Digest;
use crate::bytes::{copy_bytes, copy_range, ct_eq};
use crate::errors::CryptoError;

verus! {

/// The SHA-256 digest of a byte sequence: a function of the input alone.
pub uninterp spec fn sha256_of(data: Seq<u8>) -> Seq<u8>;

/// Relies on sha2::Sha256: the digest is 32 bytes and depends on the
/// input bytes alone.
#[verifier::external_body]
pub fn sha256(data: &[u8]) -> (r: Vec<u8>)
    ensures
        r@ == sha256_of(data@),
        r@.len() == 32,
{
    sha2::Sha256::digest(data).to_vec()
}

/// The lowercase hex digit for a nibble.
pub open spec fn hex_digit(n: u8) -> u8 {
    if n < 10 {
        (48 + n) as u8
    } else {
        (87 + n) as u8
    }
}

/// The lowercase hex encoding: two digits per byte, high nibble first.
pub open spec fn hex_encode_spec(data: Seq<u8>) -> Seq<u8> {
    Seq::new(2 * data.len(), |i: int|
        if i % 2 == 0 {
            hex_digit(data[i / 2] >> 4u8)
        } else {
            hex_digit(data[i / 2] & 0x0F)
        }
    )
}

/// Whether a byte is a hex digit of either case.
pub open spec fn is_hex_digit(b: u8) -> bool {
    (48 <= b && b <= 57) || (65 <= b && b <= 70) || (97 <= b && b <= 102)
}

/// The value of a hex digit of either case.
pub open spec fn hex_val(b: u8) -> u8 {
    if 48 <= b && b <= 57 {
        (b - 48) as u8
    } else if 65 <= b && b <= 70 {
        (b - 55) as u8
    } else {
        (b - 87) as u8
    }
}

/// Whether a byte string is a well-formed hex encoding: even length, every
/// byte a digit.
pub open spec fn hex_valid(s: Seq<u8>) -> bool {
    &&& s.len() % 2 == 0
    &&& forall|i: int| 0 <= i < s.len() ==> is_hex_digit(#[trigger] s[i])
}

/// The bytes a well-formed hex string denotes.
pub open spec fn hex_decode_spec(s: Seq<u8>) -> Seq<u8> {
    Seq::new(s.len() / 2, |i: int| (hex_val(s[2 * i]) << 4u8) | hex_val(s[2 * i + 1]))
}

/// Relies on hex::encode: lowercase, two digits per byte, high nibble
/// first.
#[verifier::external_body]
pub fn hex_encode(data: &[u8]) -> (r: Vec<u8>)
    ensures
        r@ == hex_encode_spec(data@),
{
    hex::encode(data).into_bytes()
}

/// Relies on hex::decode: accepts exactly the even-length strings of hex
/// digits of either case, and returns the bytes they denote.
#[verifier::external_body]
pub fn hex_decode(data: &[u8]) -> (r: Result<Vec<u8>, ()>)
    ensures
        r is Ok <==> hex_valid(data@),
        r matches Ok(v) ==> v@ == hex_decode_spec(data@),
{
    match hex::decode(data) {
        Ok(v) => Ok(v),
        Err(_) => Err(()),
    }
}

/// Decoding a hex encoding gives the original bytes back.
pub proof fn lemma_hex_round_trip(data: Seq<u8>)
    ensures
        hex_valid(hex_encode_spec(data)),
        hex_decode_spec(hex_encode_spec(data)) == data,
{
    let enc = hex_encode_spec(data);
    assert forall|i: int| 0 <= i < enc.len() implies is_hex_digit(#[trigger] enc[i]) by {
        let b = data[i / 2];
        assert((b >> 4u8) <= 15 && (b & 0x0F) <= 15) by (bit_vector);
    }
    assert forall|i: int| 0 <= i < data.len() implies hex_decode_spec(enc)[i] == data[i] by {
        let b = data[i];
        assert((2 * i) / 2 == i);
        assert((2 * i + 1) / 2 == i);
        assert(enc[2 * i] == hex_digit(b >> 4u8));
        assert(enc[2 * i + 1] == hex_digit(b & 0x0F));
        assert((b >> 4u8) <= 15 && (b & 0x0F) <= 15) by (bit_vector);
        assert(hex_val(hex_digit(b >> 4u8)) == b >> 4u8);
        assert(hex_val(hex_digit(b & 0x0F)) == b & 0x0F);
        assert(((b >> 4u8) << 4u8) | (b & 0x0F) == b) by (bit_vector);
    }
    assert(hex_decode_spec(enc) =~= data);
}

/// A record field may not contain the delimiter or a line break.
pub open spec fn field_valid(s: Seq<u8>) -> bool {
    forall|i: int| 0 <= i < s.len() ==> #[trigger] s[i] != 124 && s[i] != 10
}

/// One persisted record: timestamp, event and hex-encoded chain hash,
/// pipe-delimited.
pub open spec fn record_spec(ts: Seq<u8>, event: Seq<u8>, hash: Seq<u8>) -> Seq<u8> {
    ts + seq![124u8] + event + seq![124u8] + hex_encode_spec(hash)
}

/// The chain hash of one record: SHA-256 over the timestamp, the event
/// text and the previous chain hash, which is absent for the first record.
pub open spec fn chain_hash_spec(ts: Seq<u8>, event: Seq<u8>, prev: Option<Seq<u8>>) -> Seq<u8> {
    sha256_of(ts + event + match prev {
        Some(h) => h,
        None => Seq::empty(),
    })
}

/// The first position of `b` in `s` at or after `from`.
pub open spec fn find_byte(s: Seq<u8>, b: u8, from: int) -> Option<int>
    decreases s.len() - from,
{
    if from < 0 || from >= s.len() {
        None
    } else if s[from] == b {
        Some(from)
    } else {
        find_byte(s, b, from + 1)
    }
}

/// `find_byte` returns the first occurrence.
proof fn lemma_find_byte_from(s: Seq<u8>, b: u8, from: int, pos: int)
    requires
        0 <= from <= pos < s.len(),
        s[pos] == b,
        forall|j: int| from <= j < pos ==> s[j] != b,
    ensures
        find_byte(s, b, from) == Some(pos),
    decreases pos - from,
{
    if from < pos {
        lemma_find_byte_from(s, b, from + 1, pos);
    }
}

/// The decomposition of a persisted line into its timestamp, event and
/// decoded hash, where the line is well formed; `None` otherwise.
pub open spec fn parse_record_spec(line: Seq<u8>) -> Option<(Seq<u8>, Seq<u8>, Seq<u8>)> {
    match find_byte(line, 124, 0) {
        None => None,
        Some(p1) => match find_byte(line, 124, p1 + 1) {
            None => None,
            Some(p2) => {
                let ts = line.take(p1);
                let event = line.subrange(p1 + 1, p2);
                let hexpart = line.skip(p2 + 1);
                if field_valid(ts) && field_valid(event) && hex_valid(hexpart) {
                    Some((ts, event, hex_decode_spec(hexpart)))
                } else {
                    None
                }
            },
        },
    }
}

/// Formatting a record and parsing it back returns the fields exactly.
pub proof fn lemma_parse_record_round_trip(ts: Seq<u8>, event: Seq<u8>, hash: Seq<u8>)
    requires
        field_valid(ts),
        field_valid(event),
    ensures
        parse_record_spec(record_spec(ts, event, hash)) == Some((ts, event, hash)),
{
    let rec = record_spec(ts, event, hash);
    let hex = hex_encode_spec(hash);
    lemma_hex_round_trip(hash);
    let p1 = ts.len() as int;
    let p2: int = ts.len() as int + 1 + event.len() as int;
    assert(rec.len() == ts.len() + 1 + event.len() + 1 + hex.len());
    assert(rec[p1] == 124);
    assert(rec[p2] == 124);
    assert forall|j: int| 0 <= j < p1 implies rec[j] != 124 by {
        assert(rec[j] == ts[j]);
    }
    assert forall|j: int| p1 + 1 <= j < p2 implies rec[j] != 124 by {
        assert(rec[j] == event[j - p1 - 1]);
    }
    lemma_find_byte_from(rec, 124, 0, p1);
    lemma_find_byte_from(rec, 124, p1 + 1, p2);
    assert(rec.take(p1) =~= ts);
    assert(rec.subrange(p1 + 1, p2) =~= event);
    assert(rec.skip(p2 + 1) =~= hex);
}

/// A sequence of records is a valid chain from `prev`: each record parses,
/// its hash is the chain hash of its fields over the running hash, and the
/// rest chains from it.
pub open spec fn chain_valid_spec(lines: Seq<Seq<u8>>, prev: Option<Seq<u8>>) -> bool
    decreases lines.len(),
{
    if lines.len() == 0 {
        true
    } else {
        match parse_record_spec(lines[0]) {
            None => false,
            Some(t) => {
                &&& t.2 == chain_hash_spec(t.0, t.1, prev)
                &&& chain_valid_spec(lines.skip(1), Some(t.2))
            },
        }
    }
}

/// The views of a vector of lines.
pub open spec fn views_of(lines: Seq<Vec<u8>>) -> Seq<Seq<u8>> {
    Seq::new(lines.len(), |i: int| lines[i]@)
}

/// The view of an optional hash.
pub open spec fn opt_view(o: Option<Vec<u8>>) -> Option<Seq<u8>> {
    match o {
        Some(v) => Some(v@),
        None => None,
    }
}

/// Whether a field is free of the delimiter and line breaks.
pub fn check_field(s: &[u8]) -> (r: bool)
    ensures
        r == field_valid(s@),
{
    let mut i: usize = 0;
    while i < s.len()
        invariant
            i <= s@.len(),
            forall|j: int| 0 <= j < i ==> #[trigger] s@[j] != 124 && s@[j] != 10,
        decreases s@.len() - i,
    {
        if s[i] == 124 || s[i] == 10 {
            assert(!field_valid(s@));
            return false;
        }
        i = i + 1;
    }
    true
}

/// The first position of `b` in `s` at or after `from`.
fn find_byte_at(s: &[u8], b: u8, from: usize) -> (r: Option<usize>)
    requires
        from <= s@.len(),
    ensures
        r matches Some(p) ==> from <= p < s@.len() && s@[p as int] == b
            && find_byte(s@, b, from as int) == Some(p as int),
        r is None ==> find_byte(s@, b, from as int) is None,
{
    let mut i: usize = from;
    while i < s.len()
        invariant
            from <= i <= s@.len(),
            find_byte(s@, b, from as int) == find_byte(s@, b, i as int),
        decreases s@.len() - i,
    {
        if s[i] == b {
            return Some(i);
        }
        i = i + 1;
    }
    None
}

/// Splits a persisted line into its timestamp, event and decoded hash;
/// `None` for any malformed line.
pub fn parse_record(line: &[u8]) -> (r: Option<(Vec<u8>, Vec<u8>, Vec<u8>)>)
    ensures
        r matches Some(t) ==> parse_record_spec(line@) == Some((t.0@, t.1@, t.2@)),
        r is None ==> parse_record_spec(line@) is None,
{
    let n = line.len();
    let p1 = match find_byte_at(line, 124, 0) {
        Some(p) => p,
        None => {
            return None;
        },
    };
    let p2 = match find_byte_at(line, 124, p1 + 1) {
        Some(p) => p,
        None => {
            return None;
        },
    };
    let ts = copy_range(line, 0, p1);
    let event = copy_range(line, p1 + 1, p2);
    let hexpart = copy_range(line, p2 + 1, n);
    assert(ts@ =~= line@.take(p1 as int));
    assert(hexpart@ =~= line@.skip(p2 + 1));
    if !check_field(ts.as_slice()) {
        return None;
    }
    if !check_field(event.as_slice()) {
        return None;
    }
    match hex_decode(hexpart.as_slice()) {
        Ok(h) => Some((ts, event, h)),
        Err(_) => None,
    }
}

/// The concatenated hash material of one record: timestamp, event text,
/// previous hash if any.
fn chain_material(ts: &[u8], event: &[u8], prev: &Option<Vec<u8>>) -> (r: Vec<u8>)
    ensures
        r@ == ts@ + event@ + (match *prev {
            Some(h) => h@,
            None => Seq::<u8>::empty(),
        }),
{
    let mut material = copy_bytes(ts);
    let mut ev = copy_bytes(event);
    material.append(&mut ev);
    match prev {
        Some(h) => {
            let mut hh = copy_bytes(h.as_slice());
            material.append(&mut hh);
        }
        None => {
            assert(material@ =~= ts@ + event@ + Seq::<u8>::empty());
        }
    }
    material
}

/// The per-handle chain state: the last known chain hash, seeded at open
/// time and advanced after every successful append.
pub struct AuditChain {
    pub last_hash: Option<Vec<u8>>,
}

impl AuditChain {
    /// The chain seed as a sequence.
    pub open spec fn last_hash_view(&self) -> Option<Seq<u8>> {
        opt_view(self.last_hash)
    }

    /// A fresh chain, as for a store with no prior record.
    pub fn new() -> (r: AuditChain)
        ensures
            r.last_hash_view() is None,
    {
        AuditChain { last_hash: None }
    }

    /// Seeds the chain from the persisted store's last record, as opening
    /// a log does; a missing or malformed record leaves the seed empty.
    pub fn seed_from_record(line: &[u8]) -> (r: AuditChain)
        ensures
            r.last_hash_view() == (match parse_record_spec(line@) {
                Some(t) => Some(t.2),
                None => None::<Seq<u8>>,
            }),
    {
        match parse_record(line) {
            Some(t) => AuditChain { last_hash: Some(t.2) },
            None => AuditChain { last_hash: None },
        }
    }

    /// Computes the next chain hash over the given timestamp and event and
    /// returns the persisted record; rejects a timestamp or event holding
    /// the delimiter or a line break, leaving the chain unchanged.
    pub fn append(&mut self, ts: &[u8], event: &[u8]) -> (r: Result<Vec<u8>, CryptoError>)
        ensures
            r is Ok <==> field_valid(ts@) && field_valid(event@),
            r matches Ok(line) ==> ({
                let h = chain_hash_spec(ts@, event@, old(self).last_hash_view());
                &&& line@ == record_spec(ts@, event@, h)
                &&& final(self).last_hash_view() == Some(h)
            }),
            r is Err ==> final(self).last_hash_view() == old(self).last_hash_view()
                && r == Err::<Vec<u8>, CryptoError>(CryptoError::InvalidEventText),
    {
        if !check_field(ts) || !check_field(event) {
            return Err(CryptoError::InvalidEventText);
        }
        let material = chain_material(ts, event, &self.last_hash);
        let h = sha256(material.as_slice());
        let mut line = copy_bytes(ts);
        line.push(124);
        let mut ev = copy_bytes(event);
        line.append(&mut ev);
        line.push(124);
        let mut hx = hex_encode(h.as_slice());
        line.append(&mut hx);
        assert(line@ =~= record_spec(ts@, event@, h@));
        self.last_hash = Some(h);
        Ok(line)
    }

    /// Stamps `event` with the current wall-clock time and appends it:
    /// the produced record carries the chain hash over that timestamp,
    /// the event and the previous hash, and the chain state advances to
    /// it. The event (or a degenerate timestamp) holding the delimiter
    /// or a line break is rejected with the chain unchanged.
    pub fn log_event(&mut self, event: &[u8]) -> (r: Result<Vec<u8>, CryptoError>)
        ensures
            r matches Ok(line) ==> exists|ts: Seq<u8>| field_valid(ts) && field_valid(event@)
                && line@ == #[trigger] record_spec(ts, event@, chain_hash_spec(ts, event@, old(self).last_hash_view()))
                && final(self).last_hash_view() == Some(chain_hash_spec(ts, event@, old(self).last_hash_view())),
            !field_valid(event@) ==> r is Err,
            r is Err ==> final(self).last_hash_view() == old(self).last_hash_view()
                && r == Err::<Vec<u8>, CryptoError>(CryptoError::InvalidEventText),
    {
        let ts = now_rfc3339();
        let r = self.append(ts.as_slice(), event);
        proof {
            if r is Ok {
                assert(field_valid(ts@) && field_valid(event@));
                assert(r->Ok_0@ == record_spec(ts@, event@, chain_hash_spec(ts@, event@, old(self).last_hash_view())));
            }
        }
        r
    }
}

/// Relies on chrono::Utc::now (to_rfc3339): the current wall-clock
/// timestamp in RFC 3339 form; nothing is promised of its value.
#[verifier::external_body]
fn now_rfc3339() -> (r: Vec<u8>)
{
    chrono::Utc::now().to_rfc3339().into_bytes()
}

/// Recomputes every record's chain hash, in order from an empty seed, and
/// confirms each matches: the verification procedure that detects
/// tampering or truncation, which the logger itself does not perform.
pub fn verify_chain(lines: &Vec<Vec<u8>>) -> (r: bool)
    ensures
        r == chain_valid_spec(views_of(lines@), None),
{
    let ghost all = views_of(lines@);
    let mut prev: Option<Vec<u8>> = None;
    let mut i: usize = 0;
    proof {
        assert(all.skip(0) =~= all);
    }
    while i < lines.len()
        invariant
            all == views_of(lines@),
            i <= lines@.len(),
            chain_valid_spec(all, None) == chain_valid_spec(all.skip(i as int), opt_view(prev)),
        decreases lines@.len() - i,
    {
        let ghost rem = all.skip(i as int);
        proof {
            assert(rem[0] == lines@[i as int]@);
            assert(rem.skip(1) =~= all.skip(i + 1));
        }
        let line = &lines[i];
        match parse_record(line.as_slice()) {
            None => {
                return false;
            }
            Some(t) => {
                let (ts, event, h) = t;
                let material = chain_material(ts.as_slice(), event.as_slice(), &prev);
                let expected = sha256(material.as_slice());
                if !ct_eq(h.as_slice(), expected.as_slice()) {
                    return false;
                }
                prev = Some(h);
                i = i + 1;
            }
        }
    }
    proof {
        assert(all.skip(all.len() as int) =~= Seq::<Seq<u8>>::empty());
    }
    true
}

/// The chain law on a fresh log: three appended events hash as
/// H(t1‖e1), H(t2‖e2‖h1) and H(t3‖e3‖h2); the three persisted records
/// verify as a valid chain; and re-opening the store seeds the chain from
/// the last record's hash, so a fourth append continues from h3.
pub proof fn lemma_chain_of_three(
    t1: Seq<u8>, e1: Seq<u8>,
    t2: Seq<u8>, e2: Seq<u8>,
    t3: Seq<u8>, e3: Seq<u8>,
)
    requires
        field_valid(t1) && field_valid(e1),
        field_valid(t2) && field_valid(e2),
        field_valid(t3) && field_valid(e3),
    ensures
        ({
            let h1 = chain_hash_spec(t1, e1, None);
            let h2 = chain_hash_spec(t2, e2, Some(h1));
            let h3 = chain_hash_spec(t3, e3, Some(h2));
            &&& h1 == sha256_of(t1 + e1)
            &&& h2 == sha256_of(t2 + e2 + h1)
            &&& h3 == sha256_of(t3 + e3 + h2)
            &&& chain_valid_spec(
                seq![record_spec(t1, e1, h1), record_spec(t2, e2, h2), record_spec(t3, e3, h3)],
                None,
            )
            &&& (match parse_record_spec(record_spec(t3, e3, h3)) {
                Some(t) => t.2 == h3,
                None => false,
            })
        }),
{
    let h1 = chain_hash_spec(t1, e1, None);
    let h2 = chain_hash_spec(t2, e2, Some(h1));
    let h3 = chain_hash_spec(t3, e3, Some(h2));
    assert(t1 + e1 + Seq::<u8>::empty() =~= t1 + e1);
    assert(h1 == sha256_of(t1 + e1));
    lemma_parse_record_round_trip(t1, e1, h1);
    lemma_parse_record_round_trip(t2, e2, h2);
    lemma_parse_record_round_trip(t3, e3, h3);
    let r1 = record_spec(t1, e1, h1);
    let r2 = record_spec(t2, e2, h2);
    let r3 = record_spec(t3, e3, h3);
    let chain = seq![r1, r2, r3];
    assert(chain[0] == r1 && seq![r2, r3][0] == r2 && seq![r3][0] == r3);
    assert(chain.skip(1) =~= seq![r2, r3]);
    assert(seq![r2, r3].skip(1) =~= seq![r3]);
    assert(seq![r3].skip(1) =~= Seq::<Seq<u8>>::empty());
    assert(chain_valid_spec(Seq::<Seq<u8>>::empty(), Some(h3)));
    assert(chain_valid_spec(seq![r3], Some(h2)));
    assert(chain_valid_spec(seq![r2, r3], Some(h1)));
    assert(chain_valid_spec(chain, None));
}

} // verus!
