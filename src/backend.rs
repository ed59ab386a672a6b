//! The outside primitives the protocol rests on: Ristretto255 arithmetic from
//! `curve25519_dalek`, SHA-2 digests from `sha2`, and random draws through `rand`.
//!
//! Every item here is trusted: its contract is what the outside crate documents.
//! Values cross the boundary as plain byte arrays; the library's own `Scalar` and
//! `CompressedPoint` types are built on top of them in verified code.

use vstd::prelude::*;
use curve25519_dalek::ristretto::{CompressedRistretto, RistrettoPoint};
use curve25519_dalek::scalar::Scalar as DalekScalar;
use curve25519_dalek::traits::Identity;
use sha2::Digest;
use crate::arith::{group_order, inverse_of, le_nat};

verus! {

/// Whether 32 bytes are the canonical encoding of a Ristretto255 group element.
pub uninterp spec fn is_point_encoding(b: Seq<u8>) -> bool;

/// Encoding of the sum of two encoded group elements.
pub uninterp spec fn point_sum_of(a: Seq<u8>, b: Seq<u8>) -> Seq<u8>;

/// Encoding of `k` times an encoded group element.
pub uninterp spec fn point_scale_of(k: nat, p: Seq<u8>) -> Seq<u8>;

/// Encoding of the group element that the one-way map sends 64 uniform bytes to.
pub uninterp spec fn point_from_uniform_of(b: Seq<u8>) -> Seq<u8>;

/// SHA-512 digest of a byte string.
pub uninterp spec fn sha512_of(m: Seq<u8>) -> Seq<u8>;

/// SHA-256 digest of a byte string.
pub uninterp spec fn sha256_of(m: Seq<u8>) -> Seq<u8>;

/// The encoding of the Ristretto basepoint, as published in `RISTRETTO_BASEPOINT_COMPRESSED`.
pub open spec fn basepoint_encoding() -> Seq<u8> {
    seq![
        0xe2u8, 0xf2, 0xae, 0x0a, 0x6a, 0xbc, 0x4e, 0x71, 0xa8, 0x84, 0xa9, 0x61, 0xc5, 0x00,
        0x51, 0x5f, 0x58, 0xe3, 0x0b, 0x6a, 0xa5, 0x82, 0xdd, 0x8d, 0xb6, 0xa6, 0x59, 0x45,
        0xe0, 0x8d, 0x2d, 0x76,
    ]
}

/// The encoding of the identity element: 32 zero bytes.
pub open spec fn identity_encoding() -> Seq<u8> {
    Seq::new(32, |i: int| 0u8)
}

/// The seedable generator `rand::rngs::StdRng`, held opaque: the library only hands it
/// to `Scalar::random`.
#[verifier::external_type_specification]
#[verifier::external_body]
pub struct ExStdRng(rand::rngs::StdRng);

/// Relies on `Scalar::from_bytes_mod_order`: the 256-bit little-endian integer reduced
/// modulo the group order, read back with `Scalar::to_bytes` in canonical form.
#[verifier::external_body]
pub(crate) fn scalar_reduce(b: [u8; 32]) -> (r: [u8; 32])
    ensures
        le_nat(r@) == le_nat(b@) % group_order(),
{
    DalekScalar::from_bytes_mod_order(b).to_bytes()
}

/// Relies on `Scalar::from_bytes_mod_order_wide`: the 512-bit little-endian integer
/// reduced modulo the group order.
#[verifier::external_body]
pub(crate) fn scalar_reduce_wide(b: &[u8; 64]) -> (r: [u8; 32])
    ensures
        le_nat(r@) == le_nat(b@) % group_order(),
{
    DalekScalar::from_bytes_mod_order_wide(b).to_bytes()
}

/// Relies on `Scalar::from_canonical_bytes`: accepted exactly when the little-endian
/// integer is below the group order, and then it is the same value.
#[verifier::external_body]
pub(crate) fn scalar_canonical(b: [u8; 32]) -> (r: Option<[u8; 32]>)
    ensures
        r.is_some() <==> le_nat(b@) < group_order(),
        r.is_some() ==> r.unwrap() == b,
{
    let decoded: Option<DalekScalar> = DalekScalar::from_canonical_bytes(b).into();
    match decoded {
        Some(s) => Some(s.to_bytes()),
        None => None,
    }
}

/// Relies on `From<u64> for Scalar`: the integer itself, which is below the group order.
#[verifier::external_body]
pub(crate) fn scalar_from_u64(x: u64) -> (r: [u8; 32])
    ensures
        le_nat(r@) == x,
{
    DalekScalar::from(x).to_bytes()
}

/// Relies on `Add for Scalar`: addition modulo the group order.
#[verifier::external_body]
pub(crate) fn scalar_add(a: [u8; 32], b: [u8; 32]) -> (r: [u8; 32])
    ensures
        le_nat(r@) == (le_nat(a@) + le_nat(b@)) % group_order(),
{
    (DalekScalar::from_bytes_mod_order(a) + DalekScalar::from_bytes_mod_order(b)).to_bytes()
}

/// Relies on `Sub for Scalar`: subtraction modulo the group order.
#[verifier::external_body]
pub(crate) fn scalar_sub(a: [u8; 32], b: [u8; 32]) -> (r: [u8; 32])
    ensures
        le_nat(r@) == (le_nat(a@) - le_nat(b@)) % (group_order() as int),
{
    (DalekScalar::from_bytes_mod_order(a) - DalekScalar::from_bytes_mod_order(b)).to_bytes()
}

/// Relies on `Mul for Scalar`: multiplication modulo the group order.
#[verifier::external_body]
pub(crate) fn scalar_mul(a: [u8; 32], b: [u8; 32]) -> (r: [u8; 32])
    ensures
        le_nat(r@) == (le_nat(a@) * le_nat(b@)) % group_order(),
{
    (DalekScalar::from_bytes_mod_order(a) * DalekScalar::from_bytes_mod_order(b)).to_bytes()
}

/// Relies on `Scalar::invert`: `a^(l-2)` modulo the group order `l`, computed by an
/// addition chain, which is the multiplicative inverse of a nonzero scalar.
#[verifier::external_body]
pub(crate) fn scalar_invert(a: [u8; 32]) -> (r: [u8; 32])
    ensures
        le_nat(r@) == inverse_of(le_nat(a@) % group_order()),
        le_nat(a@) % group_order() != 0 ==> (le_nat(a@) * le_nat(r@)) % group_order() == 1,
{
    DalekScalar::from_bytes_mod_order(a).invert().to_bytes()
}

/// Relies on `Scalar::random`: a scalar drawn from the generator, reduced below the
/// group order; nothing else is known of it.
#[verifier::external_body]
pub(crate) fn scalar_random(rng: &mut rand::rngs::StdRng) -> (r: [u8; 32])
    ensures
        le_nat(r@) < group_order(),
{
    DalekScalar::random(rng).to_bytes()
}

/// Relies on `CompressedRistretto::decompress`: whether the bytes decode to a group element.
#[verifier::external_body]
pub(crate) fn point_decodes(b: [u8; 32]) -> (r: bool)
    ensures
        r == is_point_encoding(b@),
{
    CompressedRistretto(b).decompress().is_some()
}

/// Relies on `Add for RistrettoPoint`, between decoded elements, encoded back with `compress`.
#[verifier::external_body]
pub(crate) fn point_add(a: [u8; 32], b: [u8; 32]) -> (r: [u8; 32])
    requires
        is_point_encoding(a@),
        is_point_encoding(b@),
    ensures
        r@ == point_sum_of(a@, b@),
        is_point_encoding(r@),
{
    let pa = CompressedRistretto(a).decompress().unwrap();
    let pb = CompressedRistretto(b).decompress().unwrap();
    (pa + pb).compress().to_bytes()
}

/// Relies on `Mul<RistrettoPoint> for Scalar`, on a decoded element, encoded back with
/// `compress`.
#[verifier::external_body]
pub(crate) fn point_scale(k: [u8; 32], p: [u8; 32]) -> (r: [u8; 32])
    requires
        is_point_encoding(p@),
    ensures
        r@ == point_scale_of(le_nat(k@), p@),
        is_point_encoding(r@),
{
    let pp = CompressedRistretto(p).decompress().unwrap();
    (DalekScalar::from_bytes_mod_order(k) * pp).compress().to_bytes()
}

/// Relies on `RistrettoPoint::identity`, whose encoding is 32 zero bytes.
#[verifier::external_body]
pub(crate) fn point_identity() -> (r: [u8; 32])
    ensures
        r@ == identity_encoding(),
        is_point_encoding(r@),
{
    RistrettoPoint::identity().compress().to_bytes()
}

/// Relies on `RISTRETTO_BASEPOINT_COMPRESSED`, the encoding of the standard generator.
#[verifier::external_body]
pub(crate) fn point_basepoint() -> (r: [u8; 32])
    ensures
        r@ == basepoint_encoding(),
        is_point_encoding(r@),
{
    curve25519_dalek::constants::RISTRETTO_BASEPOINT_COMPRESSED.to_bytes()
}

/// Relies on `RistrettoPoint::from_uniform_bytes`: a group element determined by 64 bytes.
#[verifier::external_body]
pub(crate) fn point_from_uniform(b: &[u8; 64]) -> (r: [u8; 32])
    ensures
        r@ == point_from_uniform_of(b@),
        is_point_encoding(r@),
{
    RistrettoPoint::from_uniform_bytes(b).compress().to_bytes()
}

/// Relies on `sha2::Sha512::digest`: the 64-byte SHA-512 digest.
#[verifier::external_body]
pub(crate) fn sha512(m: &[u8]) -> (r: [u8; 64])
    ensures
        r@ == sha512_of(m@),
{
    sha2::Sha512::digest(m).into()
}

/// Relies on `sha2::Sha256::digest`: the 32-byte SHA-256 digest.
#[verifier::external_body]
pub(crate) fn sha256(m: &[u8]) -> (r: [u8; 32])
    ensures
        r@ == sha256_of(m@),
{
    sha2::Sha256::digest(m).into()
}

/// Relies on `Zeroize for Vec<u8>`: every byte, spare capacity included, is overwritten
/// with zero and the vector is cleared.
#[verifier::external_body]
pub(crate) fn wipe_bytes(v: &mut Vec<u8>)
    ensures
        final(v)@.len() == 0,
{
    zeroize::Zeroize::zeroize(v)
}

/// Relies on `Zeroize for [u8; 32]`: every byte is overwritten with zero.
#[verifier::external_body]
pub(crate) fn wipe_array(b: &mut [u8; 32])
    ensures
        final(b)@ == Seq::new(32, |i: int| 0u8),
    opens_invariants none
    no_unwind
{
    zeroize::Zeroize::zeroize(b)
}

} // verus!
