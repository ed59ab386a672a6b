//! Ristretto255 group elements, handled in their 32-byte compressed encoding.

use vstd::prelude::*;
use crate::backend::{
    self, basepoint_encoding, identity_encoding, is_point_encoding, point_from_uniform_of,
    point_scale_of, point_sum_of,
};
use crate::memory::MemoryGuard;
use crate::scalar::Scalar;

verus! {

/// A compressed Ristretto255 encoding, as it travels on the wire; it may fail to
/// decode to a group element.
#[derive(Debug, Clone, Copy)]
pub struct CompressedPoint {
    /// The 32 encoded bytes.
    pub bytes: [u8; 32],
}

impl View for CompressedPoint {
    type V = Seq<u8>;

    open spec fn view(&self) -> Seq<u8> {
        self.bytes@
    }
}

impl CompressedPoint {
    /// Wrap 32 bytes received from elsewhere.
    pub fn from_bytes(bytes: [u8; 32]) -> (r: CompressedPoint)
        ensures
            r@ == bytes@,
    {
        CompressedPoint { bytes }
    }

    /// The 32 encoded bytes.
    pub fn to_bytes(&self) -> (r: [u8; 32])
        ensures
            r@ == self@,
    {
        self.bytes
    }

    /// Whether the encoding decodes to a group element.
    pub fn is_valid(&self) -> (r: bool)
        ensures
            r == is_point_encoding(self@),
    {
        backend::point_decodes(self.bytes)
    }

    /// The identity element.
    pub fn identity() -> (r: CompressedPoint)
        ensures
            r@ == identity_encoding(),
            is_point_encoding(r@),
    {
        CompressedPoint { bytes: backend::point_identity() }
    }

    /// The standard generator G.
    pub fn basepoint() -> (r: CompressedPoint)
        ensures
            r@ == basepoint_encoding(),
            is_point_encoding(r@),
    {
        CompressedPoint { bytes: backend::point_basepoint() }
    }

    /// The group element that 64 uniform bytes map to.
    pub fn from_uniform_bytes(b: &[u8; 64]) -> (r: CompressedPoint)
        ensures
            r@ == point_from_uniform_of(b@),
            is_point_encoding(r@),
    {
        CompressedPoint { bytes: backend::point_from_uniform(b) }
    }

    /// The group sum of two elements.
    pub fn add(&self, o: &CompressedPoint) -> (r: CompressedPoint)
        requires
            is_point_encoding(self@),
            is_point_encoding(o@),
        ensures
            r@ == point_sum_of(self@, o@),
            is_point_encoding(r@),
    {
        CompressedPoint { bytes: backend::point_add(self.bytes, o.bytes) }
    }

    /// The element multiplied by a scalar.
    pub fn scale(&self, k: &Scalar) -> (r: CompressedPoint)
        requires
            is_point_encoding(self@),
        ensures
            r@ == point_scale_of(k@, self@),
            is_point_encoding(r@),
    {
        CompressedPoint { bytes: backend::point_scale(k.to_bytes(), self.bytes) }
    }

    /// Equality of encodings in constant time; for valid encodings this is equality
    /// of group elements, since the encoding is canonical.
    pub fn ct_eq(&self, o: &CompressedPoint) -> (r: bool)
        ensures
            r == (self@ == o@),
    {
        MemoryGuard::constant_time_eq(&self.bytes, &o.bytes)
    }
}

impl PartialEq for CompressedPoint {
    fn eq(&self, o: &CompressedPoint) -> (r: bool) {
        self.ct_eq(o)
    }
}

impl vstd::std_specs::cmp::PartialEqSpecImpl for CompressedPoint {
    open spec fn obeys_eq_spec() -> bool {
        true
    }

    open spec fn eq_spec(&self, o: &CompressedPoint) -> bool {
        self@ == o@
    }
}

impl Eq for CompressedPoint {
}

} // verus!
