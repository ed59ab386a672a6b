//! Canonical byte layouts of the protocol messages, for transcripts and transport:
//! identifiers and counts as 4 little-endian bytes, points compressed, scalars in
//! canonical little-endian form.

use vstd::prelude::*;
use crate::arith::{group_order, le_nat};
use crate::encoding::{append_bytes, u32_from_le, u32_le, u32_to_le};
use crate::point::CompressedPoint;
use crate::scalar::Scalar;
use crate::signing::{PartialSignature, SigningCommitment};
use crate::types::{ParticipantId, PedersenCommitment, SchnorrSignature};
use crate::{FrostError, FrostResult};

verus! {

/// The concatenation of encoded points.
pub open spec fn points_bytes(ps: Seq<Seq<u8>>) -> Seq<u8>
    decreases ps.len(),
{
    if ps.len() == 0 {
        Seq::empty()
    } else {
        points_bytes(ps.drop_last()) + ps.last()
    }
}

/// A commitment: its number of entries, then the entries.
pub fn encode_commitment(c: &PedersenCommitment) -> (r: Vec<u8>)
    requires
        c@.len() <= u32::MAX,
    ensures
        r@ == u32_le(c@.len() as u32) + points_bytes(c@),
{
    let mut out: Vec<u8> = Vec::new();
    append_bytes(&mut out, &u32_to_le(c.commitments.len() as u32));
    let ghost head = out@;
    let mut k: usize = 0;
    while k < c.commitments.len()
        invariant
            k <= c@.len(),
            out@ == head + points_bytes(c@.subrange(0, k as int)),
        decreases c@.len() - k,
    {
        append_bytes(&mut out, &c.commitments[k].bytes);
        assert(c@.subrange(0, k + 1).drop_last() =~= c@.subrange(0, k as int));
        assert(out@ =~= head + points_bytes(c@.subrange(0, k + 1)));
        k = k + 1;
    }
    assert(c@.subrange(0, c@.len() as int) =~= c@);
    out
}

/// A signer's nonce commitments: id, `D`, `E`.
pub fn encode_signing_commitment(c: &SigningCommitment) -> (r: Vec<u8>)
    ensures
        r@ == u32_le(c.participant_id.0) + c.hiding@ + c.binding@,
        r@.len() == 68,
{
    let mut out: Vec<u8> = Vec::new();
    append_bytes(&mut out, &u32_to_le(c.participant_id.0));
    append_bytes(&mut out, &c.hiding.bytes);
    append_bytes(&mut out, &c.binding.bytes);
    out
}

/// A partial signature: id, `z`.
pub fn encode_partial_signature(p: &PartialSignature) -> (r: Vec<u8>)
    ensures
        r@ == u32_le(p.participant_id.0) + p.z.encoding(),
        r@.len() == 36,
{
    let mut out: Vec<u8> = Vec::new();
    append_bytes(&mut out, &u32_to_le(p.participant_id.0));
    append_bytes(&mut out, &p.z.to_bytes());
    out
}

/// A Schnorr signature: `R`, `z`.
pub fn encode_signature(s: &SchnorrSignature) -> (r: Vec<u8>)
    ensures
        r@ == s.commitment@ + s.z@,
        r@.len() == 64,
{
    let mut out: Vec<u8> = Vec::new();
    append_bytes(&mut out, &s.commitment.bytes);
    append_bytes(&mut out, &s.z);
    out
}

/// Copy 32 bytes out of a buffer.
fn take32(b: &[u8], at: usize) -> (r: [u8; 32])
    requires
        at + 32 <= b.len(),
    ensures
        r@ == b@.subrange(at as int, at + 32),
{
    let mut out = [0u8; 32];
    let mut i: usize = 0;
    while i < 32
        invariant
            at + 32 <= b.len(),
            i <= 32,
            forall|q: int| 0 <= q < i ==> out@[q] == b@[at + q],
        decreases 32 - i,
    {
        out[i] = b[at + i];
        i = i + 1;
    }
    assert(out@ =~= b@.subrange(at as int, at + 32));
    out
}

/// Read a partial signature: exactly 36 bytes, with a canonical `z`.
pub fn decode_partial_signature(b: &[u8]) -> (r: FrostResult<PartialSignature>)
    ensures
        b@.len() != 36 ==> r matches Err(FrostError::SerializationError(_)),
        b@.len() == 36 ==> (r is Ok <==> le_nat(b@.subrange(4, 36)) < group_order()),
        b@.len() == 36 && !(le_nat(b@.subrange(4, 36)) < group_order()) ==> r matches Err(
            FrostError::CryptoError(_),
        ),
        r matches Ok(p) ==> b@ == u32_le(p.participant_id.0) + p.z.encoding(),
{
    if b.len() != 36 {
        return Err(FrostError::SerializationError("partial signature must be 36 bytes".to_owned()));
    }
    let z = take32(b, 4);
    let id = u32_from_le(b[0], b[1], b[2], b[3]);
    match Scalar::from_canonical_bytes(z) {
        Some(s) => {
            assert(b@ =~= u32_le(id) + z@) by {
                assert(b@.subrange(0, 4) =~= seq![b@[0], b@[1], b@[2], b@[3]]);
                assert(b@ =~= b@.subrange(0, 4) + b@.subrange(4, 36));
            }
            Ok(PartialSignature { participant_id: ParticipantId(id), z: s })
        },
        None => Err(FrostError::CryptoError("non-canonical scalar".to_owned())),
    }
}

/// Read a Schnorr signature: exactly 64 bytes, with a canonical `z`.
pub fn decode_signature(b: &[u8]) -> (r: FrostResult<SchnorrSignature>)
    ensures
        b@.len() != 64 ==> r matches Err(FrostError::SerializationError(_)),
        b@.len() == 64 ==> (r is Ok <==> le_nat(b@.subrange(32, 64)) < group_order()),
        b@.len() == 64 && !(le_nat(b@.subrange(32, 64)) < group_order()) ==> r matches Err(
            FrostError::CryptoError(_),
        ),
        r matches Ok(s) ==> b@ == s.commitment@ + s.z@,
{
    if b.len() != 64 {
        return Err(FrostError::SerializationError("signature must be 64 bytes".to_owned()));
    }
    let r_bytes = take32(b, 0);
    let z = take32(b, 32);
    match Scalar::from_canonical_bytes(z) {
        Some(_) => {
            assert(b@ =~= r_bytes@ + z@);
            Ok(SchnorrSignature { z, commitment: CompressedPoint::from_bytes(r_bytes) })
        },
        None => Err(FrostError::CryptoError("non-canonical scalar".to_owned())),
    }
}

} // verus!
