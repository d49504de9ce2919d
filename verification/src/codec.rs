//! Decoding of encoded transaction bytes and computation of the canonical
//! transaction digest.
//!
//! The outer text encoding is base64; the raw bytes carry the payload in a
//! fixed little-endian framing that must be consumed exactly. The digest is
//! never taken over the raw input: the payload is first wrapped in an intent
//! envelope carrying a version tag, a scope tag and an application
//! identifier, and the digest is the SHA3-256 hash of the envelope's
//! canonical serialization, so that a value meant for one protocol purpose
//! cannot be reinterpreted under another.

use vstd::prelude::*;
use crate::bytes::copy_range;

verus! {

/// Version tag of the intent envelope.
pub const INTENT_VERSION: u8 = 0;

/// Scope tag marking the envelope's payload as transaction data.
pub const INTENT_SCOPE_TRANSACTION_DATA: u8 = 0;

/// Application identifier naming this protocol in the envelope.
pub const INTENT_APP_ID: u8 = 0;

/// Number of transaction kinds the framing admits.
pub const PAYLOAD_KIND_COUNT: u8 = 2;

/// A decoded transaction payload: its kind tag, the 32-byte sender address,
/// the gas budget, and the kind-specific data bytes.
pub struct TransactionPayload {
    pub kind: u8,
    pub sender: Vec<u8>,
    pub gas_budget: u64,
    pub data: Vec<u8>,
}

/// The mathematical shape of a payload.
#[verifier::ext_equal]
pub ghost struct PayloadModel {
    pub kind: u8,
    pub sender: Seq<u8>,
    pub gas_budget: u64,
    pub data: Seq<u8>,
}

impl View for TransactionPayload {
    type V = PayloadModel;

    open spec fn view(&self) -> PayloadModel {
        PayloadModel {
            kind: self.kind,
            sender: self.sender@,
            gas_budget: self.gas_budget,
            data: self.data@,
        }
    }
}

/// The canonical digest of a transaction: a fixed-length hash over the
/// intent-wrapped payload.
pub struct TransactionDigest {
    pub bytes: Vec<u8>,
}

/// Why decoding failed: the text was not well-formed base64, or the raw
/// bytes did not frame a payload.
#[derive(Clone, Copy, Debug, PartialEq, Eq)]
pub enum CodecError {
    MalformedEncoding,
    MalformedPayload,
}

/// The value of a little-endian byte string.
pub open spec fn le_value(b: Seq<u8>) -> int
    decreases b.len(),
{
    if b.len() == 0 {
        0
    } else {
        b[0] + 256 * le_value(b.drop_first())
    }
}

pub open spec fn pow256(n: nat) -> int
    decreases n,
{
    if n == 0 {
        1
    } else {
        256 * pow256((n - 1) as nat)
    }
}

proof fn lemma_pow256_pos(n: nat)
    ensures
        pow256(n) > 0,
    decreases n,
{
    if n > 0 {
        lemma_pow256_pos((n - 1) as nat);
    }
}

proof fn lemma_pow256_mono(a: nat, b: nat)
    requires
        a <= b,
    ensures
        0 < pow256(a) <= pow256(b),
    decreases b,
{
    lemma_pow256_pos(a);
    if a < b {
        lemma_pow256_mono(a, (b - 1) as nat);
    }
}

proof fn lemma_le_value_bound(b: Seq<u8>)
    ensures
        0 <= le_value(b) < pow256(b.len()),
    decreases b.len(),
{
    if b.len() > 0 {
        lemma_le_value_bound(b.drop_first());
    }
}

/// The little-endian byte string of length `n` for a value.
pub open spec fn le_bytes(x: int, n: nat) -> Seq<u8>
    decreases n,
{
    if n == 0 {
        Seq::empty()
    } else {
        seq![(x % 256) as u8] + le_bytes(x / 256, (n - 1) as nat)
    }
}

/// The canonical framing of a payload: the kind tag, the 32 sender bytes,
/// the gas budget in 8 little-endian bytes, the data length in 4
/// little-endian bytes, then the data itself.
pub open spec fn encode_payload(p: PayloadModel) -> Seq<u8> {
    seq![p.kind] + p.sender + le_bytes(p.gas_budget as int, 8) + le_bytes(p.data.len() as int, 4)
        + p.data
}

/// The intent envelope around a payload: version, scope and application
/// tags, then the payload's canonical framing.
pub open spec fn intent_envelope(p: PayloadModel) -> Seq<u8> {
    seq![INTENT_VERSION, INTENT_SCOPE_TRANSACTION_DATA, INTENT_APP_ID] + encode_payload(p)
}

/// What raw bytes frame, if anything: the framing is canonical, consuming
/// the bytes exactly, with a known kind tag and a data length that matches
/// what follows it.
pub open spec fn parse_payload(b: Seq<u8>) -> Option<PayloadModel> {
    if b.len() >= 45 {
        let kind = b[0];
        let gas = le_value(b.subrange(33, 41));
        let dlen = le_value(b.subrange(41, 45));
        if kind < PAYLOAD_KIND_COUNT && b.len() - 45 == dlen {
            Some(
                PayloadModel {
                    kind,
                    sender: b.subrange(1, 33),
                    gas_budget: gas as u64,
                    data: b.subrange(45, b.len() as int),
                },
            )
        } else {
            None
        }
    } else {
        None
    }
}

/// What the base64 decoder yields for a text: bytes exactly when the text is
/// well-formed base64, and a function of the text alone.
pub uninterp spec fn base64_decoded(text: Seq<char>) -> Option<Seq<u8>>;

/// Relies on `base64::engine::Engine::decode` with the standard alphabet:
/// decoding depends on the input text alone, succeeds exactly on well-formed
/// base64, and yields the encoded bytes.
#[verifier::external_body]
fn base64_decode(text: &String) -> (r: Option<Vec<u8>>)
    ensures
        r is Some <==> base64_decoded(text@) is Some,
        r matches Some(v) ==> base64_decoded(text@) == Some(v@),
{
    match base64::Engine::decode(&base64::engine::general_purpose::STANDARD, text.as_str()) {
        Ok(v) => Some(v),
        Err(_) => None,
    }
}

/// The SHA3-256 digest of a byte string: a function of the input alone,
/// always 32 bytes long.
pub uninterp spec fn sha3_of(input: Seq<u8>) -> Seq<u8>;

/// Relies on `sha3::Sha3_256` through the `Digest` trait: the hash depends
/// on the input bytes alone and is always 32 bytes long.
#[verifier::external_body]
fn sha3_256(input: &Vec<u8>) -> (r: Vec<u8>)
    ensures
        r@ == sha3_of(input@),
        r@.len() == 32,
{
    let mut hasher = sha3::Sha3_256::default();
    sha3::Digest::update(&mut hasher, input.as_slice());
    sha3::Digest::finalize(hasher).to_vec()
}

fn read_le_value(b: &Vec<u8>, start: usize, count: usize) -> (r: u64)
    requires
        start + count <= b.len(),
        count <= 8,
    ensures
        r == le_value(b@.subrange(start as int, (start + count) as int)),
{
    let mut acc: u64 = 0;
    let mut i: usize = count;
    proof {
        assert(b@.subrange((start + i) as int, (start + count) as int) =~= Seq::empty());
    }
    while i > 0
        invariant
            i <= count,
            count <= 8,
            start + count <= b.len(),
            acc == le_value(b@.subrange((start + i) as int, (start + count) as int)),
        decreases i,
    {
        i = i - 1;
        proof {
            let s = b@.subrange((start + i) as int, (start + count) as int);
            assert(s.drop_first() =~= b@.subrange((start + i + 1) as int, (start + count) as int));
            lemma_le_value_bound(s.drop_first());
            lemma_pow256_mono(s.drop_first().len(), 7);
            assert(pow256(7) == 72057594037927936) by {
                reveal_with_fuel(pow256, 8);
            }
            assert(le_value(s) == s[0] + 256 * le_value(s.drop_first()));
        }
        acc = acc * 256 + (b[start + i] as u64);
    }
    acc
}

fn push_le_bytes(out: &mut Vec<u8>, x: u64, count: usize)
    requires
        count <= 8,
    ensures
        final(out)@ == old(out)@ + le_bytes(x as int, count as nat),
{
    let mut v: u64 = x;
    let mut i: usize = 0;
    proof {
        assert(out@ + le_bytes(v as int, (count - i) as nat) =~= old(out)@ + le_bytes(
            x as int,
            count as nat,
        ));
    }
    while i < count
        invariant
            i <= count,
            out@ + le_bytes(v as int, (count - i) as nat) =~= old(out)@ + le_bytes(
                x as int,
                count as nat,
            ),
        decreases count - i,
    {
        proof {
            assert(le_bytes(v as int, (count - i) as nat) == seq![((v as int) % 256) as u8]
                + le_bytes((v as int) / 256, (count - i - 1) as nat));
        }
        out.push((v % 256) as u8);
        v = v / 256;
        i = i + 1;
    }
    proof {
        assert(le_bytes(v as int, 0) =~= Seq::<u8>::empty());
        assert(out@ =~= old(out)@ + le_bytes(x as int, count as nat));
    }
}

/// Serializes a payload into its canonical framing.
pub fn encode_transaction_payload(p: &TransactionPayload) -> (r: Vec<u8>)
    requires
        p.sender@.len() == 32,
        p.data@.len() <= 0xFFFF_FFFF,
    ensures
        r@ == encode_payload(p@),
{
    let mut out: Vec<u8> = Vec::new();
    out.push(p.kind);
    let mut i: usize = 0;
    while i < p.sender.len()
        invariant
            i <= p.sender@.len(),
            out@ =~= seq![p.kind] + p.sender@.take(i as int),
        decreases p.sender@.len() - i,
    {
        out.push(p.sender[i]);
        i += 1;
    }
    proof {
        assert(out@ =~= seq![p.kind] + p.sender@);
    }
    push_le_bytes(&mut out, p.gas_budget, 8);
    push_le_bytes(&mut out, p.data.len() as u64, 4);
    let mut j: usize = 0;
    while j < p.data.len()
        invariant
            j <= p.data@.len(),
            out@ =~= seq![p.kind] + p.sender@ + le_bytes(p.gas_budget as int, 8) + le_bytes(
                p.data@.len() as int,
                4,
            ) + p.data@.take(j as int),
        decreases p.data@.len() - j,
    {
        out.push(p.data[j]);
        j += 1;
    }
    proof {
        assert(out@ =~= encode_payload(p@));
    }
    out
}

/// Parses raw bytes into a payload; rejected exactly when the framing does
/// not hold of them.
pub fn parse_transaction_payload(b: &Vec<u8>) -> (r: Result<TransactionPayload, CodecError>)
    ensures
        r is Err <==> parse_payload(b@) is None,
        r matches Err(e) ==> e == CodecError::MalformedPayload,
        r matches Ok(p) ==> parse_payload(b@) == Some(p@) && p.sender@.len() == 32 && p.data@.len()
            <= 0xFFFF_FFFF,
{
    if b.len() < 45 {
        return Err(CodecError::MalformedPayload);
    }
    let kind = b[0];
    if kind >= PAYLOAD_KIND_COUNT {
        return Err(CodecError::MalformedPayload);
    }
    let gas = read_le_value(b, 33, 8);
    let dlen = read_le_value(b, 41, 4);
    proof {
        lemma_le_value_bound(b@.subrange(41, 45));
        lemma_le_value_bound(b@.subrange(33, 41));
        assert(pow256(4) == 4294967296) by {
            reveal_with_fuel(pow256, 5);
        }
        assert(pow256(8) == 18446744073709551616) by {
            reveal_with_fuel(pow256, 9);
        }
    }
    if (b.len() - 45) as u64 != dlen {
        return Err(CodecError::MalformedPayload);
    }
    let sender = copy_range(b, 1, 33);
    let data = copy_range(b, 45, b.len());
    let p = TransactionPayload { kind, sender, gas_budget: gas, data };
    proof {
        let m = parse_payload(b@)->Some_0;
        assert(m =~= p@);
    }
    Ok(p)
}

/// The decoder's full account of one input text: the text decodes to raw
/// bytes, the bytes frame the payload, and the digest is the SHA3-256 hash
/// of the payload's intent envelope.
pub open spec fn decode_result_is(text: Seq<char>, p: PayloadModel, digest: Seq<u8>) -> bool {
    &&& base64_decoded(text) matches Some(b) && parse_payload(b) == Some(p)
    &&& digest == sha3_of(intent_envelope(p))
}

/// Decodes encoded transaction text into its payload and canonical digest.
/// Ill-formed base64 and ill-framed bytes are distinct failures; on success
/// the digest is the hash of the intent-wrapped payload, never of the raw
/// input bytes.
pub fn get_transaction_data_and_digest(tx_bytes: &String) -> (r: Result<
    (TransactionPayload, TransactionDigest),
    CodecError,
>)
    ensures
        (r matches Err(e) && e == CodecError::MalformedEncoding) <==> base64_decoded(tx_bytes@)
            is None,
        (r matches Err(e) && e == CodecError::MalformedPayload) <==> (base64_decoded(tx_bytes@)
            matches Some(b) && parse_payload(b) is None),
        r is Ok <==> (base64_decoded(tx_bytes@) matches Some(b) && parse_payload(b) is Some),
        r matches Ok((p, d)) ==> decode_result_is(tx_bytes@, p@, d.bytes@) && d.bytes@.len() == 32,
{
    let raw = match base64_decode(tx_bytes) {
        Some(v) => v,
        None => {
            return Err(CodecError::MalformedEncoding);
        },
    };
    let payload = match parse_transaction_payload(&raw) {
        Ok(p) => p,
        Err(_) => {
            return Err(CodecError::MalformedPayload);
        },
    };
    let mut envelope: Vec<u8> = Vec::new();
    envelope.push(INTENT_VERSION);
    envelope.push(INTENT_SCOPE_TRANSACTION_DATA);
    envelope.push(INTENT_APP_ID);
    let mut framed = encode_transaction_payload(&payload);
    envelope.append(&mut framed);
    proof {
        assert(envelope@ =~= intent_envelope(payload@));
    }
    let digest = sha3_256(&envelope);
    Ok((payload, TransactionDigest { bytes: digest }))
}

proof fn lemma_le_bytes_len(x: int, n: nat)
    ensures
        le_bytes(x, n).len() == n,
    decreases n,
{
    if n > 0 {
        lemma_le_bytes_len(x / 256, (n - 1) as nat);
    }
}

proof fn lemma_le_roundtrip(x: int, n: nat)
    requires
        0 <= x < pow256(n),
    ensures
        le_value(le_bytes(x, n)) == x,
    decreases n,
{
    if n == 0 {
    } else {
        let head = seq![(x % 256) as u8];
        let tail = le_bytes(x / 256, (n - 1) as nat);
        assert((head + tail).drop_first() =~= tail);
        assert((head + tail)[0] == (x % 256) as u8);
        assert(0 <= x / 256 < pow256((n - 1) as nat));
        lemma_le_roundtrip(x / 256, (n - 1) as nat);
        assert(le_value(head + tail) == x % 256 + 256 * (x / 256));
    }
}

/// The framing is canonical: parsing the canonical encoding of any
/// well-formed payload yields that payload back, so one payload has exactly
/// one encoded form and the digest over it is well defined.
pub proof fn lemma_framing_round_trip(p: PayloadModel)
    requires
        p.kind < PAYLOAD_KIND_COUNT,
        p.sender.len() == 32,
        p.data.len() <= 0xFFFF_FFFF,
    ensures
        parse_payload(encode_payload(p)) == Some(p),
{
    let b = encode_payload(p);
    lemma_le_bytes_len(p.gas_budget as int, 8);
    lemma_le_bytes_len(p.data.len() as int, 4);
    assert(b.len() == 45 + p.data.len());
    assert(b[0] == p.kind);
    assert(b.subrange(1, 33) =~= p.sender);
    assert(b.subrange(33, 41) =~= le_bytes(p.gas_budget as int, 8));
    assert(b.subrange(41, 45) =~= le_bytes(p.data.len() as int, 4));
    assert(b.subrange(45, b.len() as int) =~= p.data);
    assert(pow256(8) == 18446744073709551616) by {
        reveal_with_fuel(pow256, 9);
    }
    assert(pow256(4) == 4294967296) by {
        reveal_with_fuel(pow256, 5);
    }
    lemma_le_roundtrip(p.gas_budget as int, 8);
    lemma_le_roundtrip(p.data.len() as int, 4);
    assert(parse_payload(b) matches Some(m) && m =~= p);
}

/// Digest determinism: the payload and the digest are functions of the input
/// text alone, so any two results the decoder can account for on the same
/// text agree in both.
pub proof fn lemma_digest_deterministic(
    text: Seq<char>,
    p1: PayloadModel,
    d1: Seq<u8>,
    p2: PayloadModel,
    d2: Seq<u8>,
)
    requires
        decode_result_is(text, p1, d1),
        decode_result_is(text, p2, d2),
    ensures
        p1 == p2,
        d1 == d2,
{
}

} // verus!
