//! The shared data model: participant identifiers, secret polynomials, Pedersen
//! commitments, shares, public keys and Schnorr signatures.

use vstd::prelude::*;
use vstd::string::StringSliceAdditionalSpecFns;
use vstd::arithmetic::power::pow;
use vstd::arithmetic::div_mod::{lemma_add_mod_noop, lemma_mul_mod_noop_left, lemma_small_mod};
use crate::arith::{group_order, le_nat};
use crate::backend::{self, basepoint_encoding, sha512_of};
use crate::encoding::append_bytes;
use crate::backend::{identity_encoding, is_point_encoding, point_scale_of, point_sum_of};
use crate::point::CompressedPoint;
use crate::scalar::{Scalar, SecretScalar};

verus! {

/// A participant's identifier, a strictly positive integer within its ceremony.
#[derive(Debug, Clone, Copy, PartialEq, Eq, Structural, Hash)]
pub struct ParticipantId(pub u32);

impl ParticipantId {
    /// The identifier `id`, if it is not zero.
    pub fn new(id: u32) -> (r: Option<ParticipantId>)
        ensures
            r.is_some() <==> id > 0,
            r.is_some() ==> r.unwrap().0 == id,
    {
        if id > 0 {
            Some(ParticipantId(id))
        } else {
            None
        }
    }

    /// The underlying integer.
    pub fn as_u32(&self) -> (r: u32)
        ensures
            r == self.0,
    {
        self.0
    }

    /// The identifier as a field element, the point at which polynomials are evaluated.
    pub fn as_scalar(&self) -> (r: Scalar)
        ensures
            r@ == self.0,
    {
        Scalar::from_u64(self.0 as u64)
    }
}

/// The value of the polynomial with coefficients `c` (constant term first) at `x`:
/// the sum of `c[i] * x^i`.
pub open spec fn poly_value(c: Seq<nat>, x: int) -> int
    decreases c.len(),
{
    if c.len() == 0 {
        0
    } else {
        poly_value(c.drop_last(), x) + c.last() * pow(x, (c.len() - 1) as nat)
    }
}

/// Horner's rule: a polynomial is its constant term plus `x` times the polynomial of
/// the remaining coefficients.
pub proof fn lemma_poly_horner(c: Seq<nat>, x: int)
    requires
        c.len() > 0,
    ensures
        poly_value(c, x) == c[0] + x * poly_value(c.drop_first(), x),
    decreases c.len(),
{
    reveal(pow);
    if c.len() == 1 {
        assert(c.drop_last().len() == 0);
        assert(c.drop_first().len() == 0);
        assert(pow(x, 0) == 1);
        assert(poly_value(c, x) == poly_value(c.drop_last(), x) + c.last() * pow(x, 0));
        assert(poly_value(c.drop_first(), x) == 0);
    } else {
        let d = c.drop_last();
        lemma_poly_horner(d, x);
        assert(c.drop_first().drop_last() =~= d.drop_first());
        assert(c.drop_first().last() == c.last());
        let n = (c.len() - 1) as nat;
        assert(pow(x, n) == x * pow(x, (n - 1) as nat));
        let a = poly_value(d.drop_first(), x);
        let p = pow(x, (n - 1) as nat);
        assert(x * (a + c.last() * p) == x * a + c.last() * (x * p)) by (nonlinear_arith);
        assert(d[0] == c[0]);
        assert(poly_value(c, x) == poly_value(d, x) + c.last() * pow(x, n));
        assert(poly_value(c.drop_first(), x) == a + c.last() * p);
        assert(c.last() * pow(x, n) == c.last() * (x * p));
    }
}

/// One Horner step taken modulo the group order.
proof fn lemma_horner_step_mod(p: int, x: int, c: int)
    requires
        0 <= c < group_order(),
    ensures
        (((p % (group_order() as int)) * x) % (group_order() as int) + c) % (group_order() as int)
            == (c + x * p) % (group_order() as int),
{
    let m = group_order() as int;
    lemma_mul_mod_noop_left(p, x, m);
    lemma_small_mod(c as nat, m as nat);
    lemma_add_mod_noop((p * x), c, m);
    assert(p * x == x * p) by (nonlinear_arith);
    lemma_add_mod_noop(((p % m) * x) % m, c, m);
    vstd::arithmetic::div_mod::lemma_mod_twice((p * x), m);
}

/// A secret polynomial over the scalar field, constant term first.
pub struct Polynomial {
    /// The coefficients `[a0, a1, ..., a_{t-1}]`.
    pub(crate) coefficients: Vec<SecretScalar>,
}

impl View for Polynomial {
    type V = Seq<nat>;

    closed spec fn view(&self) -> Seq<nat> {
        self.coefficients@.map_values(|c: SecretScalar| c@)
    }
}

impl Polynomial {
    /// The polynomial with the given coefficients.
    pub fn new(coefficients: Vec<Scalar>) -> (r: Polynomial)
        ensures
            r@ == coefficients@.map_values(|c: Scalar| c@),
    {
        let mut out: Vec<SecretScalar> = Vec::new();
        let mut i: usize = 0;
        while i < coefficients.len()
            invariant
                i <= coefficients.len(),
                out@.len() == i,
                forall|j: int| 0 <= j < i ==> out@[j]@ == coefficients@[j]@,
            decreases coefficients.len() - i,
        {
            out.push(SecretScalar::new(coefficients[i]));
            i = i + 1;
        }
        let r = Polynomial { coefficients: out };
        assert(r@ =~= coefficients@.map_values(|c: Scalar| c@));
        r
    }

    /// A polynomial of the given degree with the given constant term and the other
    /// coefficients drawn from the generator.
    pub fn random(degree: u32, constant_term: Scalar, rng: &mut rand::rngs::StdRng) -> (r:
        Polynomial)
        ensures
            r@.len() == degree + 1,
            r@[0] == constant_term@,
    {
        let mut coefficients: Vec<SecretScalar> = Vec::new();
        coefficients.push(SecretScalar::new(constant_term));
        let mut i: u32 = 0;
        while i < degree
            invariant
                i <= degree,
                coefficients@.len() == i + 1,
                coefficients@[0]@ == constant_term@,
            decreases degree - i,
        {
            coefficients.push(SecretScalar::new(Scalar::random(rng)));
            i = i + 1;
        }
        Polynomial { coefficients }
    }

    /// Number of coefficients.
    pub fn len(&self) -> (r: usize)
        ensures
            r == self@.len(),
    {
        self.coefficients.len()
    }

    /// The value at `x`, by Horner's scheme from the highest coefficient inward; the
    /// empty polynomial is zero.
    pub fn evaluate(&self, x: &Scalar) -> (r: Scalar)
        ensures
            r@ == poly_value(self@, x@ as int) % (group_order() as int),
    {
        let n = self.coefficients.len();
        if n == 0 {
            assert(self@.len() == 0);
            assert(poly_value(self@, x@ as int) == 0);
            assert(0int % (group_order() as int) == 0);
            return Scalar::zero();
        }
        let ghost c = self@;
        let ghost m = group_order() as int;
        let mut result = *self.coefficients[n - 1].as_scalar();
        let mut k: usize = n - 1;
        proof {
            assert(c.subrange(k as int, n as int).drop_first() =~= Seq::<nat>::empty());
            lemma_poly_horner(c.subrange(k as int, n as int), x@ as int);
            assert(c[k as int] < m) by {
                self.coefficients@[k as int].lemma_bound();
            }
            lemma_small_mod(c[k as int], m as nat);
        }
        while k > 0
            invariant
                n == self.coefficients.len(),
                c == self@,
                m == group_order() as int,
                0 <= k < n,
                result@ == poly_value(c.subrange(k as int, n as int), x@ as int) % m,
            decreases k,
        {
            let ghost p = poly_value(c.subrange(k as int, n as int), x@ as int);
            let coeff = self.coefficients[k - 1].as_scalar();
            let prod = result.mul(x);
            result = prod.add(coeff);
            proof {
                let s = c.subrange(k - 1, n as int);
                assert(s.drop_first() =~= c.subrange(k as int, n as int));
                lemma_poly_horner(s, x@ as int);
                self.coefficients@[k - 1].lemma_bound();
                lemma_horner_step_mod(p, x@ as int, c[k - 1] as int);
            }
            k = k - 1;
        }
        assert(c.subrange(0, n as int) =~= c);
        result
    }

    /// The degree, counting the empty polynomial as degree zero.
    pub fn degree(&self) -> (r: usize)
        ensures
            r == if self@.len() == 0 { 0 } else { self@.len() - 1 },
    {
        let n = self.coefficients.len();
        if n == 0 {
            0
        } else {
            n - 1
        }
    }
}

/// The commitment entry `a*G + b*H` for one coefficient pair.
pub open spec fn pedersen_entry(a: nat, b: nat, g: Seq<u8>, h: Seq<u8>) -> Seq<u8> {
    point_sum_of(point_scale_of(a, g), point_scale_of(b, h))
}

/// Whether every encoding in a list decodes to a group element.
pub open spec fn all_points(cs: Seq<Seq<u8>>) -> bool {
    forall|k: int| 0 <= k < cs.len() ==> is_point_encoding(#[trigger] cs[k])
}

/// The committed polynomial evaluated in the exponent at `x`: the sum, from the
/// identity and in coefficient order, of `x^k * C_k`.
pub open spec fn commitment_eval(cs: Seq<Seq<u8>>, x: nat) -> Seq<u8>
    decreases cs.len(),
{
    if cs.len() == 0 {
        identity_encoding()
    } else {
        point_sum_of(
            commitment_eval(cs.drop_last(), x),
            point_scale_of(
                (pow(x as int, (cs.len() - 1) as nat) % (group_order() as int)) as nat,
                cs.last(),
            ),
        )
    }
}

/// The next power of `x` modulo the group order.
proof fn lemma_next_power(x: int, k: nat, cur: int)
    requires
        cur == pow(x, k) % (group_order() as int),
    ensures
        (cur * x) % (group_order() as int) == pow(x, k + 1) % (group_order() as int),
{
    reveal(pow);
    let m = group_order() as int;
    lemma_mul_mod_noop_left(pow(x, k), x, m);
    assert(pow(x, k + 1) == x * pow(x, k));
    assert(x * pow(x, k) == pow(x, k) * x) by (nonlinear_arith);
}

/// A Pedersen vector commitment `C_k = a_k*G + b_k*H` to a polynomial pair.
#[derive(Debug, Clone)]
pub struct PedersenCommitment {
    /// One compressed point per coefficient.
    pub commitments: Vec<CompressedPoint>,
}

impl View for PedersenCommitment {
    type V = Seq<Seq<u8>>;

    open spec fn view(&self) -> Seq<Seq<u8>> {
        self.commitments@.map_values(|p: CompressedPoint| p@)
    }
}

impl PedersenCommitment {
    /// Commit coefficient-wise to `f` with blinding `g` under generators `G` and `H`.
    pub fn new(
        f: &Polynomial,
        g: &Polynomial,
        generator_g: &CompressedPoint,
        generator_h: &CompressedPoint,
    ) -> (r: PedersenCommitment)
        requires
            f@.len() == g@.len(),
            is_point_encoding(generator_g@),
            is_point_encoding(generator_h@),
        ensures
            r@.len() == f@.len(),
            all_points(r@),
            forall|k: int|
                0 <= k < r@.len() ==> #[trigger] r@[k] == pedersen_entry(
                    f@[k],
                    g@[k],
                    generator_g@,
                    generator_h@,
                ),
    {
        let n = f.coefficients.len();
        let mut out: Vec<CompressedPoint> = Vec::new();
        let mut i: usize = 0;
        while i < n
            invariant
                n == f@.len(),
                f@.len() == g@.len(),
                n == f.coefficients.len(),
                n == g.coefficients.len(),
                is_point_encoding(generator_g@),
                is_point_encoding(generator_h@),
                i <= n,
                out@.len() == i,
                forall|k: int|
                    0 <= k < i ==> is_point_encoding(#[trigger] out@[k]@) && out@[k]@
                        == pedersen_entry(f@[k], g@[k], generator_g@, generator_h@),
            decreases n - i,
        {
            let a = generator_g.scale(f.coefficients[i].as_scalar());
            let b = generator_h.scale(g.coefficients[i].as_scalar());
            out.push(a.add(&b));
            i = i + 1;
        }
        let r = PedersenCommitment { commitments: out };
        assert forall|k: int| 0 <= k < r@.len() implies is_point_encoding(#[trigger] r@[k]) by {
            assert(r@[k] == out@[k]@);
        }
        r
    }

    /// The committed polynomial evaluated in the exponent at `x`, or `None` when some
    /// entry fails to decode.
    pub fn evaluate_at(&self, x: &Scalar) -> (r: Option<CompressedPoint>)
        ensures
            r.is_some() <==> all_points(self@),
            r.is_some() ==> r.unwrap()@ == commitment_eval(self@, x@) && is_point_encoding(
                r.unwrap()@,
            ),
    {
        let ghost cs = self@;
        let ghost m = group_order() as int;
        let n = self.commitments.len();
        let mut acc = CompressedPoint::identity();
        let mut x_power = Scalar::one();
        let mut k: usize = 0;
        proof {
            reveal(pow);
            assert(pow(x@ as int, 0) == 1);
            lemma_small_mod(1, group_order());
            assert(cs.subrange(0, 0).len() == 0);
        }
        while k < n
            invariant
                cs == self@,
                m == group_order() as int,
                n == cs.len(),
                k <= n,
                is_point_encoding(acc@),
                all_points(cs.subrange(0, k as int)),
                acc@ == commitment_eval(cs.subrange(0, k as int), x@),
                x_power@ == pow(x@ as int, k as nat) % m,
            decreases n - k,
        {
            let c = &self.commitments[k];
            if !c.is_valid() {
                assert(!is_point_encoding(cs[k as int]));
                return None;
            }
            let term = c.scale(&x_power);
            acc = acc.add(&term);
            proof {
                let s = cs.subrange(0, k + 1);
                assert(s.drop_last() =~= cs.subrange(0, k as int));
                assert(s.last() == cs[k as int]);
                assert(all_points(s)) by {
                    assert forall|j: int| 0 <= j < s.len() implies is_point_encoding(
                        #[trigger] s[j],
                    ) by {
                        if j < k {
                            assert(s[j] == cs.subrange(0, k as int)[j]);
                        }
                    }
                }
                lemma_next_power(x@ as int, k as nat, x_power@ as int);
            }
            x_power = x_power.mul(x);
            k = k + 1;
        }
        assert(cs.subrange(0, n as int) =~= cs);
        Some(acc)
    }

    /// Commit to the coefficients alone, `A_k = a_k*G`, with no blinding.
    pub fn from_polynomial(f: &Polynomial, generator_g: &CompressedPoint) -> (r: PedersenCommitment)
        requires
            is_point_encoding(generator_g@),
        ensures
            r@.len() == f@.len(),
            all_points(r@),
            forall|k: int|
                0 <= k < r@.len() ==> #[trigger] r@[k] == point_scale_of(f@[k], generator_g@),
    {
        let n = f.coefficients.len();
        let mut out: Vec<CompressedPoint> = Vec::new();
        let mut i: usize = 0;
        while i < n
            invariant
                n == f@.len(),
                n == f.coefficients.len(),
                is_point_encoding(generator_g@),
                i <= n,
                out@.len() == i,
                forall|k: int|
                    0 <= k < i ==> is_point_encoding(#[trigger] out@[k]@) && out@[k]@
                        == point_scale_of(f@[k], generator_g@),
            decreases n - i,
        {
            out.push(generator_g.scale(f.coefficients[i].as_scalar()));
            i = i + 1;
        }
        let r = PedersenCommitment { commitments: out };
        assert forall|k: int| 0 <= k < r@.len() implies is_point_encoding(#[trigger] r@[k]) by {
            assert(r@[k] == out@[k]@);
        }
        r
    }

    /// Check a share against a commitment to the coefficients alone: `s*G` must equal
    /// the committed polynomial evaluated in the exponent at the participant's id.
    pub fn verify_public_share(
        &self,
        participant_id: ParticipantId,
        share: &Scalar,
        generator_g: &CompressedPoint,
    ) -> (r: bool)
        requires
            is_point_encoding(generator_g@),
        ensures
            r == (all_points(self@) && point_scale_of(share@, generator_g@) == commitment_eval(
                self@,
                participant_id.0 as nat,
            )),
    {
        let lhs = generator_g.scale(share);
        let x = participant_id.as_scalar();
        match self.evaluate_at(&x) {
            Some(rhs) => lhs.ct_eq(&rhs),
            None => false,
        }
    }

    /// Whether every entry decodes to a group element.
    pub fn all_valid(&self) -> (r: bool)
        ensures
            r == all_points(self@),
    {
        let mut k: usize = 0;
        while k < self.commitments.len()
            invariant
                k <= self.commitments.len(),
                forall|j: int| 0 <= j < k ==> is_point_encoding(#[trigger] self@[j]),
            decreases self.commitments.len() - k,
        {
            if !self.commitments[k].is_valid() {
                assert(!is_point_encoding(self@[k as int]));
                return false;
            }
            k = k + 1;
        }
        true
    }

    /// Check a share and its blinding against the commitment: `s*G + t*H` must equal
    /// the committed polynomial evaluated in the exponent at the participant's id.
    pub fn verify_share(
        &self,
        participant_id: ParticipantId,
        share: &Scalar,
        blinding: &Scalar,
        generator_g: &CompressedPoint,
        generator_h: &CompressedPoint,
    ) -> (r: bool)
        requires
            is_point_encoding(generator_g@),
            is_point_encoding(generator_h@),
        ensures
            r == (all_points(self@) && pedersen_entry(share@, blinding@, generator_g@, generator_h@)
                == commitment_eval(self@, participant_id.0 as nat)),
    {
        let lhs = generator_g.scale(share).add(&generator_h.scale(blinding));
        let x = participant_id.as_scalar();
        match self.evaluate_at(&x) {
            Some(rhs) => lhs.ct_eq(&rhs),
            None => false,
        }
    }
}

/// A participant's secret share, with the blinding value of its Pedersen check.
pub struct SecretShare {
    /// Whose share this is.
    pub participant_id: ParticipantId,
    /// The share `s_i`.
    pub value: SecretScalar,
    /// The blinding value `t_i`.
    pub blinding: SecretScalar,
}

/// The canonical 68-byte encoding of a share: id (4 bytes LE), value, blinding.
pub open spec fn share_encoding(id: u32, value: Seq<u8>, blinding: Seq<u8>) -> Seq<u8> {
    crate::encoding::u32_le(id) + value + blinding
}

impl SecretShare {
    /// The canonical encoding, for sealed storage.
    pub fn to_bytes(&self) -> (r: Vec<u8>)
        ensures
            r@ == share_encoding(
                self.participant_id.0,
                self.value.scalar().encoding(),
                self.blinding.scalar().encoding(),
            ),
            r@.len() == 68,
    {
        let mut out: Vec<u8> = Vec::new();
        append_bytes(&mut out, &crate::encoding::u32_to_le(self.participant_id.0));
        append_bytes(&mut out, &self.value.as_scalar().to_bytes());
        append_bytes(&mut out, &self.blinding.as_scalar().to_bytes());
        out
    }

    /// Decode a canonical encoding: 68 bytes, both scalars reduced.
    pub fn from_bytes(b: &[u8]) -> (r: crate::FrostResult<SecretShare>)
        ensures
            b@.len() != 68 ==> r matches Err(crate::FrostError::SerializationError(_)),
            r matches Ok(s) ==> b@ == share_encoding(
                s.participant_id.0,
                s.value.scalar().encoding(),
                s.blinding.scalar().encoding(),
            ),
            b@.len() == 68 && le_nat(b@.subrange(4, 36)) < group_order() && le_nat(
                b@.subrange(36, 68),
            ) < group_order() ==> r is Ok,
    {
        if b.len() != 68 {
            return Err(crate::FrostError::SerializationError("share encoding must be 68 bytes".to_owned()));
        }
        let mut v = [0u8; 32];
        let mut t = [0u8; 32];
        let mut i: usize = 0;
        while i < 32
            invariant
                b@.len() == 68,
                i <= 32,
                forall|q: int| 0 <= q < i ==> v@[q] == b@[4 + q] && t@[q] == b@[36 + q],
            decreases 32 - i,
        {
            v[i] = b[4 + i];
            t[i] = b[36 + i];
            i = i + 1;
        }
        assert(v@ =~= b@.subrange(4, 36));
        assert(t@ =~= b@.subrange(36, 68));
        let id = crate::encoding::u32_from_le(b[0], b[1], b[2], b[3]);
        let value = match Scalar::from_canonical_bytes(v) {
            Some(x) => x,
            None => {
                return Err(crate::FrostError::CryptoError("non-canonical share value".to_owned()));
            },
        };
        let blinding = match Scalar::from_canonical_bytes(t) {
            Some(x) => x,
            None => {
                return Err(crate::FrostError::CryptoError("non-canonical blinding value".to_owned()));
            },
        };
        let r = SecretShare {
            participant_id: ParticipantId(id),
            value: SecretScalar::new(value),
            blinding: SecretScalar::new(blinding),
        };
        assert(b@ =~= share_encoding(id, v@, t@)) by {
            assert(b@.subrange(0, 4) =~= seq![b@[0], b@[1], b@[2], b@[3]]);
            assert(b@ =~= b@.subrange(0, 4) + b@.subrange(4, 36) + b@.subrange(36, 68));
        }
        Ok(r)
    }

    /// A copy owned by the caller.
    pub fn duplicate(&self) -> (r: SecretShare)
        ensures
            r.participant_id == self.participant_id,
            r.value@ == self.value@,
            r.blinding@ == self.blinding@,
    {
        SecretShare {
            participant_id: self.participant_id,
            value: self.value.duplicate(),
            blinding: self.blinding.duplicate(),
        }
    }
}

/// A participant's public verification share `Y_i = s_i*G`.
#[derive(Debug, Clone)]
pub struct PublicKeyShare {
    /// Whose share this is.
    pub participant_id: ParticipantId,
    /// The compressed point `Y_i`.
    pub public_key: CompressedPoint,
}

/// The group public key with every participant's verification share.
#[derive(Debug, Clone)]
pub struct GroupPublicKey {
    /// The group key `PK`.
    pub public_key: CompressedPoint,
    /// The verification shares, one per participant.
    pub participant_shares: Vec<PublicKeyShare>,
    /// The threshold `t`.
    pub threshold: u32,
    /// The number of participants `n`.
    pub num_participants: u32,
}

/// The domain-separation label of the Schnorr challenge hash.
pub open spec fn challenge_label() -> Seq<u8> {
    "FROST-RISTRETTO255-SHA512-v1-challenge".spec_bytes()
}

/// The challenge `c = H(label || R || PK || m)` reduced into the scalar field.
pub open spec fn challenge_value(r: Seq<u8>, pk: Seq<u8>, m: Seq<u8>) -> nat {
    le_nat(sha512_of(challenge_label() + r + pk + m)) % group_order()
}

/// Whether `(R, z)` is a valid Schnorr signature on `m` under `PK`: both points decode,
/// `z` is canonical, and `z*G == R + c*PK`.
pub open spec fn schnorr_valid(z: Seq<u8>, r: Seq<u8>, pk: Seq<u8>, m: Seq<u8>) -> bool {
    &&& is_point_encoding(pk)
    &&& is_point_encoding(r)
    &&& le_nat(z) < group_order()
    &&& point_scale_of(le_nat(z), basepoint_encoding()) == point_sum_of(
        r,
        point_scale_of(challenge_value(r, pk, m), pk),
    )
}

/// Hash bytes with SHA-512 and reduce the digest into the scalar field.
pub fn hash_to_scalar(data: &[u8]) -> (r: Scalar)
    ensures
        r@ == le_nat(sha512_of(data@)) % group_order(),
{
    let digest = backend::sha512(data);
    Scalar::from_bytes_mod_order_wide(&digest)
}

/// The Schnorr challenge for group commitment `R`, group key `PK` and message `m`.
pub fn compute_challenge(r: &CompressedPoint, pk: &CompressedPoint, message: &[u8]) -> (c: Scalar)
    ensures
        c@ == challenge_value(r@, pk@, message@),
{
    let mut data: Vec<u8> = Vec::new();
    append_bytes(&mut data, "FROST-RISTRETTO255-SHA512-v1-challenge".as_bytes());
    append_bytes(&mut data, &r.bytes);
    append_bytes(&mut data, &pk.bytes);
    append_bytes(&mut data, message);
    hash_to_scalar(data.as_slice())
}

impl GroupPublicKey {
    /// Verify a Schnorr signature under the group key.
    pub fn verify_signature(&self, message: &[u8], signature: &SchnorrSignature) -> (r: bool)
        ensures
            r == schnorr_valid(signature.z@, signature.commitment@, self.public_key@, message@),
    {
        signature.verify(message, &self.public_key)
    }
}

/// A Schnorr signature `(R, z)`.
#[derive(Debug, Clone)]
pub struct SchnorrSignature {
    /// The response `z`, as 32 little-endian bytes.
    pub z: [u8; 32],
    /// The commitment `R`.
    pub commitment: CompressedPoint,
}

impl SchnorrSignature {
    /// Verify the signature on `message` under `public_key`: reject undecodable points
    /// and a non-canonical `z`, then check `z*G == R + c*PK`.
    pub fn verify(&self, message: &[u8], public_key: &CompressedPoint) -> (r: bool)
        ensures
            r == schnorr_valid(self.z@, self.commitment@, public_key@, message@),
    {
        if !public_key.is_valid() {
            return false;
        }
        if !self.commitment.is_valid() {
            return false;
        }
        let z = match Scalar::from_canonical_bytes(self.z) {
            Some(z) => z,
            None => return false,
        };
        let challenge = compute_challenge(&self.commitment, public_key, message);
        let lhs = CompressedPoint::basepoint().scale(&z);
        let rhs = self.commitment.add(&public_key.scale(&challenge));
        lhs.ct_eq(&rhs)
    }
}

} // verus!
