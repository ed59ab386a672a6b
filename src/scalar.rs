//! Elements of the Ristretto255 scalar field, held in canonical little-endian form.

use vstd::prelude::*;
use crate::arith::{group_order, inverse_of, le_nat, lemma_le_nat_injective};
use crate::backend;
use crate::memory::MemoryGuard;
use vstd::arithmetic::div_mod::lemma_small_mod;

verus! {

/// An integer modulo the group order, stored as its canonical 32-byte encoding.
#[derive(Debug, Clone, Copy)]
pub struct Scalar {
    bytes: [u8; 32],
}

impl View for Scalar {
    type V = nat;

    /// The integer in `[0, group_order())` that the scalar stands for.
    closed spec fn view(&self) -> nat {
        le_nat(self.bytes@) % group_order()
    }
}

impl Scalar {
    #[verifier::type_invariant]
    closed spec fn canonical(&self) -> bool {
        le_nat(self.bytes@) < group_order()
    }

    /// Every scalar lies below the group order.
    pub proof fn lemma_bound(self)
        ensures
            self@ < group_order(),
    {
    }

    /// The scalar with the given value.
    pub fn from_u64(x: u64) -> (r: Scalar)
        ensures
            r@ == x,
    {
        let bytes = backend::scalar_from_u64(x);
        proof {
            assert(x < group_order());
        }
        Scalar { bytes }
    }

    /// The additive identity.
    pub fn zero() -> (r: Scalar)
        ensures
            r@ == 0,
    {
        Scalar::from_u64(0)
    }

    /// The multiplicative identity.
    pub fn one() -> (r: Scalar)
        ensures
            r@ == 1,
    {
        Scalar::from_u64(1)
    }

    /// The 256-bit little-endian integer reduced modulo the group order.
    pub fn from_bytes_mod_order(b: [u8; 32]) -> (r: Scalar)
        ensures
            r@ == le_nat(b@) % group_order(),
    {
        let bytes = backend::scalar_reduce(b);
        Scalar { bytes }
    }

    /// The 512-bit little-endian integer reduced modulo the group order.
    pub fn from_bytes_mod_order_wide(b: &[u8; 64]) -> (r: Scalar)
        ensures
            r@ == le_nat(b@) % group_order(),
    {
        let bytes = backend::scalar_reduce_wide(b);
        Scalar { bytes }
    }

    /// Decode a scalar, refusing any encoding that is not reduced below the group order.
    pub fn from_canonical_bytes(b: [u8; 32]) -> (r: Option<Scalar>)
        ensures
            r.is_some() <==> le_nat(b@) < group_order(),
            r.is_some() ==> r.unwrap()@ == le_nat(b@) && r.unwrap().encoding() == b@,
    {
        match backend::scalar_canonical(b) {
            Some(bytes) => Some(Scalar { bytes }),
            None => None,
        }
    }

    /// The canonical 32-byte encoding.
    pub closed spec fn encoding(&self) -> Seq<u8> {
        self.bytes@
    }

    /// The canonical little-endian encoding.
    pub fn to_bytes(&self) -> (r: [u8; 32])
        ensures
            le_nat(r@) == self@,
            r@ == self.encoding(),
    {
        proof {
            use_type_invariant(self);
            lemma_small_mod(le_nat(self.bytes@), group_order());
        }
        self.bytes
    }

    /// Sum modulo the group order.
    pub fn add(&self, o: &Scalar) -> (r: Scalar)
        ensures
            r@ == (self@ + o@) % group_order(),
    {
        let bytes = backend::scalar_add(self.bytes, o.bytes);
        proof {
            use_type_invariant(self);
            use_type_invariant(o);
            lemma_small_mod(le_nat(self.bytes@), group_order());
            lemma_small_mod(le_nat(o.bytes@), group_order());
            lemma_small_mod(le_nat(bytes@), group_order());
        }
        Scalar { bytes }
    }

    /// Difference modulo the group order.
    pub fn sub(&self, o: &Scalar) -> (r: Scalar)
        ensures
            r@ == (self@ - o@) % (group_order() as int),
    {
        let bytes = backend::scalar_sub(self.bytes, o.bytes);
        proof {
            use_type_invariant(self);
            use_type_invariant(o);
            lemma_small_mod(le_nat(self.bytes@), group_order());
            lemma_small_mod(le_nat(o.bytes@), group_order());
            lemma_small_mod(le_nat(bytes@), group_order());
        }
        Scalar { bytes }
    }

    /// Product modulo the group order.
    pub fn mul(&self, o: &Scalar) -> (r: Scalar)
        ensures
            r@ == (self@ * o@) % group_order(),
    {
        let bytes = backend::scalar_mul(self.bytes, o.bytes);
        proof {
            use_type_invariant(self);
            use_type_invariant(o);
            lemma_small_mod(le_nat(self.bytes@), group_order());
            lemma_small_mod(le_nat(o.bytes@), group_order());
            lemma_small_mod(le_nat(bytes@), group_order());
        }
        Scalar { bytes }
    }

    /// Additive inverse modulo the group order.
    pub fn neg(&self) -> (r: Scalar)
        ensures
            r@ == (0 - self@) % (group_order() as int),
    {
        Scalar::zero().sub(self)
    }

    /// Multiplicative inverse, `a^(l-2)`; for a nonzero scalar the product with the
    /// scalar is one, and zero maps to zero.
    pub fn invert(&self) -> (r: Scalar)
        ensures
            r@ == inverse_of(self@),
            self@ != 0 ==> (self@ * r@) % group_order() == 1,
    {
        proof {
            use_type_invariant(self);
            lemma_small_mod(le_nat(self.bytes@), group_order());
        }
        let bytes = backend::scalar_invert(self.bytes);
        proof {
            lemma_small_mod(le_nat(bytes@), group_order());
        }
        Scalar { bytes }
    }

    /// A scalar drawn from the generator.
    pub fn random(rng: &mut rand::rngs::StdRng) -> (r: Scalar) {
        let bytes = backend::scalar_random(rng);
        Scalar { bytes }
    }

    /// Overwrite the encoding with zero, leaving the scalar zero.
    pub fn wipe(&mut self)
        ensures
            final(self)@ == 0,
        opens_invariants none
        no_unwind
    {
        proof {
            lemma_zero_bytes(Seq::new(32, |i: int| 0u8));
        }
        backend::wipe_array(&mut self.bytes);
    }

    /// Equality in constant time.
    pub fn ct_eq(&self, o: &Scalar) -> (r: bool)
        ensures
            r == (self@ == o@),
    {
        let r = MemoryGuard::constant_time_eq(&self.bytes, &o.bytes);
        proof {
            use_type_invariant(self);
            use_type_invariant(o);
            lemma_small_mod(le_nat(self.bytes@), group_order());
            lemma_small_mod(le_nat(o.bytes@), group_order());
            if self@ == o@ {
                lemma_le_nat_injective(self.bytes@, o.bytes@);
            }
        }
        r
    }
}

impl PartialEq for Scalar {
    fn eq(&self, o: &Scalar) -> (r: bool) {
        self.ct_eq(o)
    }
}

impl vstd::std_specs::cmp::PartialEqSpecImpl for Scalar {
    open spec fn obeys_eq_spec() -> bool {
        true
    }

    open spec fn eq_spec(&self, o: &Scalar) -> bool {
        self@ == o@
    }
}

impl Eq for Scalar {
}

/// Zero bytes stand for zero.
proof fn lemma_zero_bytes(s: Seq<u8>)
    requires
        forall|i: int| 0 <= i < s.len() ==> s[i] == 0,
    ensures
        le_nat(s) == 0,
    decreases s.len(),
{
    if s.len() > 0 {
        lemma_zero_bytes(s.drop_first());
    }
}

/// A scalar that must stay secret: a share, a nonce or a polynomial coefficient. Its
/// bytes are overwritten with zero when it is dropped.
pub struct SecretScalar(pub(crate) Scalar);

impl Drop for SecretScalar {
    fn drop(&mut self)
        opens_invariants none
        no_unwind
    {
        self.0.wipe();
    }
}

impl View for SecretScalar {
    type V = nat;

    closed spec fn view(&self) -> nat {
        self.0@
    }
}

impl SecretScalar {
    /// Every secret scalar lies below the group order.
    pub proof fn lemma_bound(self)
        ensures
            self@ < group_order(),
    {
        self.0.lemma_bound();
    }

    /// Take ownership of a scalar as secret material.
    pub fn new(scalar: Scalar) -> (r: SecretScalar)
        ensures
            r@ == scalar@,
            r.scalar() == scalar,
    {
        SecretScalar(scalar)
    }

    /// The scalar inside.
    pub closed spec fn scalar(&self) -> Scalar {
        self.0
    }

    /// Borrow the scalar inside.
    pub fn as_scalar(&self) -> (r: &Scalar)
        ensures
            r@ == self@,
            *r == self.scalar(),
    {
        &self.0
    }

    /// A copy of the secret, owned by the caller.
    pub fn duplicate(&self) -> (r: SecretScalar)
        ensures
            r@ == self@,
    {
        SecretScalar(self.0)
    }
}

} // verus!
