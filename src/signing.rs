//! Two-round threshold signing with verifiable partial signatures.
//!
//! Round 1: each signer draws a hiding and a binding nonce and publishes their
//! commitments. Round 2: given every signer's commitment and the message, each signer
//! derives the binding factors, the group commitment `R`, the challenge and its
//! Lagrange coefficient, and answers with `z_i`. Any party then sums the answers.

use vstd::prelude::*;
use vstd::string::StringSliceAdditionalSpecFns;
use vstd::arithmetic::div_mod::{lemma_mul_mod_noop_general, lemma_small_mod};
use crate::arith::{group_order, inverse_of, le_nat};
use crate::backend::{
    basepoint_encoding, identity_encoding, is_point_encoding, point_scale_of, point_sum_of,
    sha512_of,
};
use crate::encoding::{append_bytes, u32_le, u32_to_le};
use crate::point::CompressedPoint;
use crate::scalar::{Scalar, SecretScalar};
use crate::types::{
    challenge_value, compute_challenge, hash_to_scalar, GroupPublicKey, ParticipantId,
    PublicKeyShare, SchnorrSignature, SecretShare,
};
use crate::{FrostError, FrostResult};

verus! {

/// The bytes hashed into a signer's binding factor:
/// `label || m || id (4 bytes LE) || D || E`.
pub open spec fn rho_input(m: Seq<u8>, c: SigningCommitment) -> Seq<u8> {
    "FROST-RISTRETTO255-SHA512-v1-rho".spec_bytes() + m + u32_le(c.participant_id.0) + c.hiding@
        + c.binding@
}

/// A signer's binding factor `rho`.
pub open spec fn binding_factor(m: Seq<u8>, c: SigningCommitment) -> nat {
    le_nat(sha512_of(rho_input(m, c))) % group_order()
}

/// A signer's contribution `D + rho*E` to the group commitment.
pub open spec fn commitment_share(m: Seq<u8>, c: SigningCommitment) -> Seq<u8> {
    point_sum_of(c.hiding@, point_scale_of(binding_factor(m, c), c.binding@))
}

/// The group commitment `R`: from the identity, add each signer's contribution in order.
pub open spec fn group_commitment_of(m: Seq<u8>, cs: Seq<SigningCommitment>) -> Seq<u8>
    decreases cs.len(),
{
    if cs.len() == 0 {
        identity_encoding()
    } else {
        point_sum_of(group_commitment_of(m, cs.drop_last()), commitment_share(m, cs.last()))
    }
}

/// Whether both nonce commitments of every signer decode.
pub open spec fn commitments_decode(cs: Seq<SigningCommitment>) -> bool {
    forall|j: int|
        0 <= j < cs.len() ==> is_point_encoding(#[trigger] cs[j].hiding@) && is_point_encoding(
            cs[j].binding@,
        )
}

/// Whether some commitment comes from `id`.
pub open spec fn has_signer(cs: Seq<SigningCommitment>, id: ParticipantId) -> bool {
    exists|j: int| 0 <= j < cs.len() && (#[trigger] cs[j]).participant_id == id
}

/// Whether `j` is the first commitment from `id`.
pub open spec fn first_signer(cs: Seq<SigningCommitment>, j: int, id: ParticipantId) -> bool {
    &&& 0 <= j < cs.len()
    &&& cs[j].participant_id == id
    &&& forall|q: int| 0 <= q < j ==> cs[q].participant_id != id
}

/// The numerator of the Lagrange coefficient of `i` over the set `ps`: the product of
/// every other `x_j`.
pub open spec fn lagrange_num(ps: Seq<ParticipantId>, i: u32) -> int
    decreases ps.len(),
{
    if ps.len() == 0 {
        1
    } else if ps.last().0 == i {
        lagrange_num(ps.drop_last(), i)
    } else {
        lagrange_num(ps.drop_last(), i) * ps.last().0
    }
}

/// The denominator of the Lagrange coefficient of `i` over the set `ps`: the product of
/// every `x_j - x_i` with `x_j != x_i`.
pub open spec fn lagrange_den(ps: Seq<ParticipantId>, i: u32) -> int
    decreases ps.len(),
{
    if ps.len() == 0 {
        1
    } else if ps.last().0 == i {
        lagrange_den(ps.drop_last(), i)
    } else {
        lagrange_den(ps.drop_last(), i) * (ps.last().0 - i)
    }
}

/// The Lagrange coefficient at zero of `i` over the set `ps`, as computed: the product
/// over every other `x_j` of `x_j * (x_j - x_i)^(-1)`, reduced at each step.
pub open spec fn lagrange_coefficient(ps: Seq<ParticipantId>, i: u32) -> nat
    decreases ps.len(),
{
    if ps.len() == 0 {
        1
    } else if ps.last().0 == i {
        lagrange_coefficient(ps.drop_last(), i)
    } else {
        ((((lagrange_coefficient(ps.drop_last(), i) * ps.last().0) as nat % group_order())
            * inverse_of(((ps.last().0 - i) % (group_order() as int)) as nat)) as nat)
            % group_order()
    }
}

/// Multiplying a quotient by one more factor `x / d`, modulo the group order.
proof fn lemma_quotient_step(a: int, den: int, num: int, x: int, d: int, inv: int)
    requires
        (a * den) % (group_order() as int) == num % (group_order() as int),
        (d * inv) % (group_order() as int) == 1,
    ensures
        (((((a * x) % (group_order() as int)) * inv) % (group_order() as int)) * (den * d)) % (
        group_order() as int) == (num * x) % (group_order() as int),
{
    let m = group_order() as int;
    lemma_mul_mod_noop_general(a * x, inv, m);
    let p = a * x * inv;
    lemma_mul_mod_noop_general(p, den * d, m);
    let w = x * (d * inv);
    assert((a * x * inv) * (den * d) == (a * den) * (x * (d * inv))) by (nonlinear_arith);
    lemma_mul_mod_noop_general(a * den, w, m);
    lemma_mul_mod_noop_general(num, w, m);
    assert(num * (x * (d * inv)) == (num * x) * (d * inv)) by (nonlinear_arith);
    lemma_mul_mod_noop_general(num * x, d * inv, m);
}

/// The Lagrange coefficient at zero of participant `i` over the signing set:
/// `lambda_i = prod over j != i of x_j / (x_j - x_i)`; the result times the denominator
/// equals the numerator modulo the group order.
pub fn compute_lagrange_coefficient(participant_id: ParticipantId, participants: &[ParticipantId]) -> (r:
    Scalar)
    ensures
        r@ == lagrange_coefficient(participants@, participant_id.0),
        (r@ * lagrange_den(participants@, participant_id.0)) % (group_order() as int)
            == lagrange_num(participants@, participant_id.0) % (group_order() as int),
{
    let ghost m = group_order() as int;
    let ghost ps = participants@;
    let i = participant_id.0;
    let x_i = participant_id.as_scalar();
    let mut acc = Scalar::one();
    let mut k: usize = 0;
    proof {
        assert(ps.subrange(0, 0).len() == 0);
        lemma_small_mod(1, group_order());
    }
    while k < participants.len()
        invariant
            ps == participants@,
            m == group_order() as int,
            x_i@ == i,
            k <= ps.len(),
            acc@ == lagrange_coefficient(ps.subrange(0, k as int), i),
            (acc@ * lagrange_den(ps.subrange(0, k as int), i)) % m == lagrange_num(
                ps.subrange(0, k as int),
                i,
            ) % m,
        decreases ps.len() - k,
    {
        let ghost sub = ps.subrange(0, k as int);
        let ghost next = ps.subrange(0, k + 1);
        assert(next.drop_last() =~= sub);
        assert(next.last() == ps[k as int]);
        let j = participants[k].0;
        if j != i {
            let x_j = participants[k].as_scalar();
            let diff = x_j.sub(&x_i);
            proof {
                let d = j as int - i as int;
                assert(d != 0);
                assert(-4294967296 < d < 4294967296);
                if d > 0 {
                    lemma_small_mod(d as nat, group_order());
                } else {
                    assert(d % m == d + m) by {
                        vstd::arithmetic::div_mod::lemma_fundamental_div_mod_converse(
                            d,
                            m,
                            -1,
                            d + m,
                        );
                    }
                }
            }
            let inv = diff.invert();
            let step = acc.mul(&x_j);
            let ghost a = acc@ as int;
            acc = step.mul(&inv);
            proof {
                let d = j as int - i as int;
                lemma_mul_mod_noop_general(d, inv@ as int, m);
                lemma_quotient_step(
                    a,
                    lagrange_den(sub, i),
                    lagrange_num(sub, i),
                    j as int,
                    d,
                    inv@ as int,
                );
            }
        }
        k = k + 1;
    }
    assert(ps.subrange(0, ps.len() as int) =~= ps);
    acc
}

/// A signer's first-round state: its share, its two nonces and their commitments.
pub struct SigningRound1 {
    participant_id: ParticipantId,
    secret_share: SecretScalar,
    hiding_nonce: SecretScalar,
    binding_nonce: SecretScalar,
    hiding_commitment: CompressedPoint,
    binding_commitment: CompressedPoint,
}

/// The identifiers of a signing set, in the order of its commitments.
pub open spec fn signer_set(cs: Seq<SigningCommitment>) -> Seq<ParticipantId> {
    cs.map_values(|c: SigningCommitment| c.participant_id)
}

/// The partial signature `z_i = d_i + e_i*rho_i + lambda_i*s_i*c` modulo the group order.
pub open spec fn response_value(d: nat, e: nat, rho: nat, lam: nat, s: nat, c: nat) -> nat {
    (d + e * rho + lam * s * c) % group_order()
}

proof fn lemma_response(d: int, e: int, rho: int, lam: int, s: int, c: int)
    requires
        0 <= d < group_order(),
    ensures
        ((d + (e * rho) % (group_order() as int)) % (group_order() as int) + ((((lam * s) % (
        group_order() as int)) * c) % (group_order() as int))) % (group_order() as int) == (d
            + e * rho + lam * s * c) % (group_order() as int),
{
    let m = group_order() as int;
    vstd::arithmetic::div_mod::lemma_add_mod_noop(d, e * rho, m);
    lemma_small_mod(d as nat, group_order());
    vstd::arithmetic::div_mod::lemma_mod_twice(e * rho, m);
    lemma_mul_mod_noop_general(lam * s, c, m);
    vstd::arithmetic::div_mod::lemma_add_mod_noop(d + e * rho, lam * s * c, m);
    vstd::arithmetic::div_mod::lemma_mod_twice(d + e * rho, m);
    vstd::arithmetic::div_mod::lemma_mod_twice(lam * s * c, m);
}

/// The binding factor of one commitment for `message`.
pub fn compute_binding_factor(message: &[u8], c: &SigningCommitment) -> (r: Scalar)
    ensures
        r@ == binding_factor(message@, *c),
{
    let mut data: Vec<u8> = Vec::new();
    append_bytes(&mut data, "FROST-RISTRETTO255-SHA512-v1-rho".as_bytes());
    append_bytes(&mut data, message);
    let id = u32_to_le(c.participant_id.0);
    append_bytes(&mut data, &id);
    append_bytes(&mut data, &c.hiding.bytes);
    append_bytes(&mut data, &c.binding.bytes);
    hash_to_scalar(data.as_slice())
}

/// The group commitment `R = sum of (D_j + rho_j*E_j)` over the signing set; a nonce
/// commitment that does not decode is a crypto error.
pub fn compute_group_commitment(message: &[u8], commitments: &[SigningCommitment]) -> (r:
    FrostResult<CompressedPoint>)
    ensures
        r is Ok <==> commitments_decode(commitments@),
        r matches Ok(p) ==> p@ == group_commitment_of(message@, commitments@) && is_point_encoding(
            p@,
        ),
        r matches Err(e) ==> e is CryptoError,
{
    let ghost cs = commitments@;
    let mut acc = CompressedPoint::identity();
    let mut k: usize = 0;
    while k < commitments.len()
        invariant
            cs == commitments@,
            k <= cs.len(),
            commitments_decode(cs.subrange(0, k as int)),
            is_point_encoding(acc@),
            acc@ == group_commitment_of(message@, cs.subrange(0, k as int)),
        decreases cs.len() - k,
    {
        let c = &commitments[k];
        if !c.hiding.is_valid() {
            assert(!is_point_encoding(cs[k as int].hiding@));
            return Err(FrostError::CryptoError("invalid hiding commitment".to_owned()));
        }
        if !c.binding.is_valid() {
            assert(!is_point_encoding(cs[k as int].binding@));
            return Err(FrostError::CryptoError("invalid binding commitment".to_owned()));
        }
        let rho = compute_binding_factor(message, c);
        let share = c.hiding.add(&c.binding.scale(&rho));
        acc = acc.add(&share);
        proof {
            let next = cs.subrange(0, k + 1);
            assert(next.drop_last() =~= cs.subrange(0, k as int));
            assert forall|j: int| 0 <= j < next.len() implies is_point_encoding(
                #[trigger] next[j].hiding@,
            ) && is_point_encoding(next[j].binding@) by {
                if j < k {
                    assert(next[j] == cs.subrange(0, k as int)[j]);
                }
            }
        }
        k = k + 1;
    }
    assert(cs.subrange(0, cs.len() as int) =~= cs);
    Ok(acc)
}

/// The first commitment of signer `id`, if any.
fn find_signer(cs: &[SigningCommitment], id: ParticipantId) -> (r: Option<usize>)
    ensures
        r is None ==> !has_signer(cs@, id),
        r matches Some(j) ==> first_signer(cs@, j as int, id),
{
    let mut j: usize = 0;
    while j < cs.len()
        invariant
            j <= cs.len(),
            forall|q: int| 0 <= q < j ==> cs@[q].participant_id != id,
        decreases cs.len() - j,
    {
        if cs[j].participant_id == id {
            return Some(j);
        }
        j = j + 1;
    }
    None
}

/// The identifiers of a signing set.
fn signer_ids(cs: &[SigningCommitment]) -> (r: Vec<ParticipantId>)
    ensures
        r@ == signer_set(cs@),
{
    let mut ids: Vec<ParticipantId> = Vec::new();
    let mut j: usize = 0;
    while j < cs.len()
        invariant
            j <= cs.len(),
            ids@ =~= signer_set(cs@.subrange(0, j as int)),
        decreases cs.len() - j,
    {
        ids.push(cs[j].participant_id);
        j = j + 1;
        assert(ids@ =~= signer_set(cs@.subrange(0, j as int)));
    }
    assert(cs@.subrange(0, cs@.len() as int) =~= cs@);
    ids
}

impl SigningRound1 {
    /// The signer's identifier.
    pub closed spec fn id(&self) -> ParticipantId {
        self.participant_id
    }

    /// The signer's secret share `s_i`.
    pub closed spec fn share(&self) -> nat {
        self.secret_share@
    }

    /// The hiding nonce `d_i`.
    pub closed spec fn hiding(&self) -> nat {
        self.hiding_nonce@
    }

    /// The binding nonce `e_i`.
    pub closed spec fn binding(&self) -> nat {
        self.binding_nonce@
    }

    /// The nonce commitments are `D = d*G` and `E = e*G`.
    pub closed spec fn wf(&self) -> bool {
        &&& self.hiding_commitment@ == point_scale_of(self.hiding_nonce@, basepoint_encoding())
        &&& self.binding_commitment@ == point_scale_of(self.binding_nonce@, basepoint_encoding())
        &&& is_point_encoding(self.hiding_commitment@)
        &&& is_point_encoding(self.binding_commitment@)
    }

    /// The commitment `(i, D_i, E_i)` this signer publishes.
    pub closed spec fn commitment_spec(&self) -> SigningCommitment {
        SigningCommitment {
            participant_id: self.participant_id,
            hiding: self.hiding_commitment,
            binding: self.binding_commitment,
        }
    }

    /// Draw fresh nonces for one signing session.
    pub fn new(
        participant_id: ParticipantId,
        secret_share: &SecretShare,
        rng: &mut rand::rngs::StdRng,
    ) -> (r: SigningRound1)
        ensures
            r.wf(),
            r.id() == participant_id,
            r.share() == secret_share.value@,
    {
        let hiding_nonce = SecretScalar::new(Scalar::random(rng));
        let binding_nonce = SecretScalar::new(Scalar::random(rng));
        let g = CompressedPoint::basepoint();
        let hiding_commitment = g.scale(hiding_nonce.as_scalar());
        let binding_commitment = g.scale(binding_nonce.as_scalar());
        SigningRound1 {
            participant_id,
            secret_share: secret_share.value.duplicate(),
            hiding_nonce,
            binding_nonce,
            hiding_commitment,
            binding_commitment,
        }
    }

    /// The commitment `(i, D_i, E_i)` to publish.
    pub fn commitment(&self) -> (r: SigningCommitment)
        requires
            self.wf(),
        ensures
            r == self.commitment_spec(),
            is_point_encoding(r.hiding@) && is_point_encoding(r.binding@),
            r.participant_id == self.id(),
            r.hiding@ == point_scale_of(self.hiding(), basepoint_encoding()),
            r.binding@ == point_scale_of(self.binding(), basepoint_encoding()),
    {
        SigningCommitment {
            participant_id: self.participant_id,
            hiding: self.hiding_commitment,
            binding: self.binding_commitment,
        }
    }
}

/// A signer's published nonce commitments.
#[derive(Debug, Clone, Copy)]
pub struct SigningCommitment {
    /// The signer.
    pub participant_id: ParticipantId,
    /// The hiding commitment `D_i`.
    pub hiding: CompressedPoint,
    /// The binding commitment `E_i`.
    pub binding: CompressedPoint,
}

/// A signer's second-round state, holding its partial signature.
pub struct SigningRound2 {
    participant_id: ParticipantId,
    group_commitment: CompressedPoint,
    challenge: Scalar,
    partial_signature: SecretScalar,
}

impl SigningRound2 {
    /// The signer's identifier.
    pub closed spec fn id(&self) -> ParticipantId {
        self.participant_id
    }

    /// The group commitment `R` of the session.
    pub closed spec fn commitment_spec(&self) -> Seq<u8> {
        self.group_commitment@
    }

    /// The challenge `c` of the session.
    pub closed spec fn challenge_spec(&self) -> nat {
        self.challenge@
    }

    /// The partial signature `z_i`.
    pub closed spec fn response(&self) -> nat {
        self.partial_signature@
    }

    /// The partial signature, to send to whoever aggregates.
    pub fn partial_signature(&self) -> (r: PartialSignature)
        ensures
            r.participant_id == self.id(),
            r.z@ == self.response(),
    {
        PartialSignature { participant_id: self.participant_id, z: *self.partial_signature.as_scalar() }
    }

    /// The group commitment `R`.
    pub fn group_commitment(&self) -> (r: CompressedPoint)
        ensures
            r@ == self.commitment_spec(),
    {
        self.group_commitment
    }
}

/// A signer's answer `z_i`.
#[derive(Debug, Clone, Copy)]
pub struct PartialSignature {
    /// The signer.
    pub participant_id: ParticipantId,
    /// The partial signature `z_i`.
    pub z: Scalar,
}

impl SigningRound1 {
    /// Round 2: given the commitments of the whole signing set and the message, derive
    /// the group commitment `R`, the challenge `c = H(R || PK || m)` and this signer's
    /// partial signature `z_i = d_i + e_i*rho_i + lambda_i*s_i*c`. The nonces are consumed.
    pub fn into_round2(
        self,
        message: &[u8],
        commitments: &[SigningCommitment],
        group_public_key: &CompressedPoint,
    ) -> (r: FrostResult<SigningRound2>)
        requires
            self.wf(),
        ensures
            !has_signer(commitments@, self.id()) ==> r == Err::<SigningRound2, FrostError>(
                FrostError::InvalidParticipantIndex(self.id().0),
            ),
            r is Ok <==> has_signer(commitments@, self.id()) && commitments_decode(commitments@),
            r matches Err(e) ==> e is InvalidParticipantIndex || e is CryptoError,
            r matches Err(FrostError::InvalidParticipantIndex(_)) ==> !has_signer(
                commitments@,
                self.id(),
            ),
            r matches Ok(r2) ==> exists|j: int|
                first_signer(commitments@, j, self.id()) && {
                    let big_r = group_commitment_of(message@, commitments@);
                    let c = challenge_value(big_r, group_public_key@, message@);
                    &&& r2.id() == self.id()
                    &&& r2.commitment_spec() == big_r
                    &&& r2.challenge_spec() == c
                    &&& r2.response() == response_value(
                        self.hiding(),
                        self.binding(),
                        binding_factor(message@, #[trigger] commitments@[j]),
                        lagrange_coefficient(signer_set(commitments@), self.id().0),
                        self.share(),
                        c,
                    )
                },
    {
        let j = match find_signer(commitments, self.participant_id) {
            Some(j) => j,
            None => {
                return Err(FrostError::InvalidParticipantIndex(self.participant_id.as_u32()));
            },
        };
        let group_commitment = match compute_group_commitment(message, commitments) {
            Ok(p) => p,
            Err(e) => {
                return Err(e);
            },
        };
        let challenge = compute_challenge(&group_commitment, group_public_key, message);
        let my_binding = compute_binding_factor(message, &commitments[j]);
        let ids = signer_ids(commitments);
        let lambda = compute_lagrange_coefficient(self.participant_id, ids.as_slice());
        let d = self.hiding_nonce.as_scalar();
        let e = self.binding_nonce.as_scalar();
        let s = self.secret_share.as_scalar();
        let z = d.add(&e.mul(&my_binding)).add(&lambda.mul(s).mul(&challenge));
        proof {
            d.lemma_bound();
            lemma_response(d@ as int, e@ as int, my_binding@ as int, lambda@ as int, s@ as int, challenge@ as int);
        }
        Ok(
            SigningRound2 {
                participant_id: self.participant_id,
                group_commitment,
                challenge,
                partial_signature: SecretScalar::new(z),
            },
        )
    }
}

/// The sum of the partial signatures' values, as an integer.
pub open spec fn z_sum(ps: Seq<PartialSignature>) -> int
    decreases ps.len(),
{
    if ps.len() == 0 {
        0
    } else {
        z_sum(ps.drop_last()) + ps.last().z@
    }
}

/// Whether no participant appears twice.
pub open spec fn distinct_signers(ps: Seq<PartialSignature>) -> bool {
    forall|a: int, b: int|
        0 <= a < b < ps.len() ==> (#[trigger] ps[a]).participant_id != (#[trigger] ps[b]).participant_id
}

/// What aggregation yields for a list: the response `z` as an integer, or nothing when
/// the list is empty or names a participant twice.
pub open spec fn aggregate_outcome(ps: Seq<PartialSignature>) -> Option<int> {
    if ps.len() > 0 && distinct_signers(ps) {
        Some(z_sum(ps) % (group_order() as int))
    } else {
        None
    }
}

/// Combine partial signatures into the Schnorr signature `(R, sum of z_i)`; an empty
/// list or one that names a participant twice is refused.
pub fn aggregate_signatures(
    message: &[u8],
    group_commitment: &CompressedPoint,
    partial_signatures: &[PartialSignature],
) -> (r: FrostResult<SchnorrSignature>)
    ensures
        r is Ok <==> partial_signatures@.len() > 0 && distinct_signers(partial_signatures@),
        r matches Err(e) ==> e is AggregationFailed,
        r matches Ok(sig) ==> le_nat(sig.z@) == z_sum(partial_signatures@) % (group_order() as int)
            && sig.commitment == *group_commitment,
        r matches Ok(sig) ==> aggregate_outcome(partial_signatures@) == Some(le_nat(sig.z@) as int),
        r is Err ==> aggregate_outcome(partial_signatures@) is None,
{
    let ghost ps = partial_signatures@;
    let ghost m = group_order() as int;
    if partial_signatures.len() == 0 {
        return Err(FrostError::AggregationFailed);
    }
    let n = partial_signatures.len();
    let mut a: usize = 0;
    while a < n
        invariant
            ps == partial_signatures@,
            n == ps.len(),
            a <= n,
            forall|x: int, y: int|
                0 <= x < a && x < y < n ==> (#[trigger] ps[x]).participant_id != (
                #[trigger] ps[y]).participant_id,
        decreases n - a,
    {
        let mut b: usize = a + 1;
        while b < n
            invariant
                ps == partial_signatures@,
                n == ps.len(),
                a < n,
                a + 1 <= b <= n,
                forall|x: int, y: int|
                    0 <= x < a && x < y < n ==> (#[trigger] ps[x]).participant_id != (
                    #[trigger] ps[y]).participant_id,
                forall|y: int| a < y < b ==> ps[a as int].participant_id != (
                #[trigger] ps[y]).participant_id,
            decreases n - b,
        {
            if partial_signatures[a].participant_id == partial_signatures[b].participant_id {
                assert(!distinct_signers(ps));
                return Err(FrostError::AggregationFailed);
            }
            b = b + 1;
        }
        a = a + 1;
    }
    let mut z = Scalar::zero();
    let mut k: usize = 0;
    proof {
        assert(ps.subrange(0, 0).len() == 0);
        assert(0int % m == 0);
    }
    while k < n
        invariant
            ps == partial_signatures@,
            n == ps.len(),
            m == group_order() as int,
            k <= n,
            z@ == z_sum(ps.subrange(0, k as int)) % m,
        decreases n - k,
    {
        let ghost before = z_sum(ps.subrange(0, k as int));
        let ghost v = ps[k as int].z@;
        z = z.add(&partial_signatures[k].z);
        proof {
            assert(ps.subrange(0, k + 1).drop_last() =~= ps.subrange(0, k as int));
            ps[k as int].z.lemma_bound();
            lemma_small_mod(v, m as nat);
            vstd::arithmetic::div_mod::lemma_add_mod_noop(before, v as int, m);
            vstd::arithmetic::div_mod::lemma_mod_twice(before, m);
        }
        k = k + 1;
    }
    assert(ps.subrange(0, n as int) =~= ps);
    Ok(SchnorrSignature { z: z.to_bytes(), commitment: *group_commitment })
}

/// The partial-signature equation `z_i*G == D_i + rho_i*E_i + (lambda_i*c)*Y_i` for the
/// commitment `c` of the signer within the set `cs`.
pub open spec fn partial_equation(
    m: Seq<u8>,
    c: SigningCommitment,
    cs: Seq<SigningCommitment>,
    p: PartialSignature,
    y: Seq<u8>,
    big_r: Seq<u8>,
    pk: Seq<u8>,
) -> bool {
    let rho = binding_factor(m, c);
    let ch = challenge_value(big_r, pk, m);
    let lam = lagrange_coefficient(signer_set(cs), p.participant_id.0);
    point_scale_of(p.z@, basepoint_encoding()) == point_sum_of(
        point_sum_of(c.hiding@, point_scale_of(rho, c.binding@)),
        point_scale_of((lam * ch) % group_order(), y),
    )
}

/// Whether the signer's nonce commitments (its first entry in `cs`) and its
/// verification share decode.
pub open spec fn partial_inputs_decode(cs: Seq<SigningCommitment>, id: ParticipantId, y: Seq<u8>) -> bool {
    exists|j: int|
        first_signer(cs, j, id) && is_point_encoding(#[trigger] cs[j].hiding@) && is_point_encoding(
            cs[j].binding@,
        ) && is_point_encoding(y)
}

/// Check one partial signature against the signer's commitments and verification share:
/// `z_i*G == D_i + rho_i*E_i + (lambda_i*c)*Y_i`. A signer missing from the set, or an
/// input point that does not decode, is an error; otherwise the answer is whether the
/// equation holds.
pub fn verify_partial_signature(
    message: &[u8],
    commitments: &[SigningCommitment],
    partial_sig: &PartialSignature,
    verification_share: &PublicKeyShare,
    group_commitment: &CompressedPoint,
    group_public_key: &CompressedPoint,
) -> (r: FrostResult<bool>)
    ensures
        !has_signer(commitments@, partial_sig.participant_id) ==> r == Err::<bool, FrostError>(
            FrostError::InvalidParticipantIndex(partial_sig.participant_id.0),
        ),
        r is Ok <==> partial_inputs_decode(
            commitments@,
            partial_sig.participant_id,
            verification_share.public_key@,
        ),
        r matches Err(e) ==> e is InvalidParticipantIndex || e is CryptoError,
        r matches Err(FrostError::InvalidParticipantIndex(_)) ==> !has_signer(
            commitments@,
            partial_sig.participant_id,
        ),
        r matches Ok(b) ==> exists|j: int|
            first_signer(commitments@, j, partial_sig.participant_id) && b == partial_equation(
                message@,
                #[trigger] commitments@[j],
                commitments@,
                *partial_sig,
                verification_share.public_key@,
                group_commitment@,
                group_public_key@,
            ),
{
    let ghost cs = commitments@;
    let id = partial_sig.participant_id;
    let j = match find_signer(commitments, id) {
        Some(j) => j,
        None => {
            return Err(FrostError::InvalidParticipantIndex(id.as_u32()));
        },
    };
    proof {
        assert forall|j2: int| first_signer(cs, j2, id) implies j2 == j as int by {
            if j2 < j as int {
                assert(cs[j2].participant_id != id);
            } else if j2 > j as int {
                assert(cs[j as int].participant_id != id);
            }
        }
    }
    let c = &commitments[j];
    if !c.hiding.is_valid() {
        return Err(FrostError::CryptoError("invalid hiding commitment".to_owned()));
    }
    if !c.binding.is_valid() {
        return Err(FrostError::CryptoError("invalid binding commitment".to_owned()));
    }
    if !verification_share.public_key.is_valid() {
        return Err(FrostError::CryptoError("invalid verification share".to_owned()));
    }
    let rho = compute_binding_factor(message, c);
    let challenge = compute_challenge(group_commitment, group_public_key, message);
    let ids = signer_ids(commitments);
    let lambda = compute_lagrange_coefficient(id, ids.as_slice());
    let lhs = CompressedPoint::basepoint().scale(&partial_sig.z);
    let rhs = c.hiding.add(&c.binding.scale(&rho)).add(
        &verification_share.public_key.scale(&lambda.mul(&challenge)),
    );
    let ok = lhs.ct_eq(&rhs);
    assert(partial_inputs_decode(cs, id, verification_share.public_key@));
    Ok(ok)
}

/// Whether `q` is the first verification share of participant `id`.
pub open spec fn first_key_share(shares: Seq<PublicKeyShare>, q: int, id: ParticipantId) -> bool {
    &&& 0 <= q < shares.len()
    &&& shares[q].participant_id == id
    &&& forall|x: int| 0 <= x < q ==> shares[x].participant_id != id
}

/// Whether a partial signature passes verification against the group's verification
/// shares: its signer has a share and a commitment, every input decodes, and the
/// equation holds.
pub open spec fn partial_accepted(
    m: Seq<u8>,
    cs: Seq<SigningCommitment>,
    p: PartialSignature,
    shares: Seq<PublicKeyShare>,
    big_r: Seq<u8>,
    pk: Seq<u8>,
) -> bool {
    exists|q: int|
        first_key_share(shares, q, p.participant_id) && partial_inputs_decode(
            cs,
            p.participant_id,
            (#[trigger] shares[q]).public_key@,
        ) && exists|j: int|
            first_signer(cs, j, p.participant_id) && partial_equation(
                m,
                #[trigger] cs[j],
                cs,
                p,
                shares[q].public_key@,
                big_r,
                pk,
            )
}

/// Whether some verification share belongs to `id`.
pub open spec fn has_key_share(shares: Seq<PublicKeyShare>, id: ParticipantId) -> bool {
    exists|q: int| 0 <= q < shares.len() && (#[trigger] shares[q]).participant_id == id
}

/// Whether the partial signatures before position `k` all pass verification.
pub open spec fn partials_accepted_before(
    m: Seq<u8>,
    cs: Seq<SigningCommitment>,
    ps: Seq<PartialSignature>,
    shares: Seq<PublicKeyShare>,
    big_r: Seq<u8>,
    pk: Seq<u8>,
    k: int,
) -> bool {
    forall|x: int| 0 <= x < k ==> partial_accepted(m, cs, #[trigger] ps[x], shares, big_r, pk)
}

/// The first verification share of `id`, if any.
fn find_key_share(shares: &[PublicKeyShare], id: ParticipantId) -> (r: Option<usize>)
    ensures
        r is None ==> forall|q: int| 0 <= q < shares@.len() ==> shares@[q].participant_id != id,
        r matches Some(q) ==> first_key_share(shares@, q as int, id),
{
    let mut q: usize = 0;
    while q < shares.len()
        invariant
            q <= shares.len(),
            forall|x: int| 0 <= x < q ==> shares@[x].participant_id != id,
        decreases shares.len() - q,
    {
        if shares[q].participant_id == id {
            return Some(q);
        }
        q = q + 1;
    }
    None
}

/// Verify every partial signature before aggregation; the first one that fails its
/// equation is reported as an invalid signature share of its signer.
pub fn check_partial_signatures(
    message: &[u8],
    commitments: &[SigningCommitment],
    partial_signatures: &[PartialSignature],
    group_key: &GroupPublicKey,
    group_commitment: &CompressedPoint,
) -> (r: FrostResult<()>)
    ensures
        r is Ok <==> partials_accepted_before(
            message@,
            commitments@,
            partial_signatures@,
            group_key.participant_shares@,
            group_commitment@,
            group_key.public_key@,
            partial_signatures@.len() as int,
        ),
        r matches Err(FrostError::InvalidSignatureShare(id)) ==> exists|k: int|
            0 <= k < partial_signatures@.len() && partials_accepted_before(
                message@,
                commitments@,
                partial_signatures@,
                group_key.participant_shares@,
                group_commitment@,
                group_key.public_key@,
                k,
            ) && (#[trigger] partial_signatures@[k]).participant_id.0 == id && has_key_share(
                group_key.participant_shares@,
                partial_signatures@[k].participant_id,
            ) && has_signer(commitments@, partial_signatures@[k].participant_id) && !partial_accepted(
                message@,
                commitments@,
                partial_signatures@[k],
                group_key.participant_shares@,
                group_commitment@,
                group_key.public_key@,
            ),
        r matches Err(FrostError::InvalidParticipantIndex(id)) ==> exists|k: int|
            0 <= k < partial_signatures@.len() && partials_accepted_before(
                message@,
                commitments@,
                partial_signatures@,
                group_key.participant_shares@,
                group_commitment@,
                group_key.public_key@,
                k,
            ) && (#[trigger] partial_signatures@[k]).participant_id.0 == id && (!has_key_share(
                group_key.participant_shares@,
                partial_signatures@[k].participant_id,
            ) || !has_signer(commitments@, partial_signatures@[k].participant_id)),
        r matches Err(FrostError::CryptoError(_)) ==> exists|k: int|
            0 <= k < partial_signatures@.len() && partials_accepted_before(
                message@,
                commitments@,
                partial_signatures@,
                group_key.participant_shares@,
                group_commitment@,
                group_key.public_key@,
                k,
            ) && has_key_share(
                group_key.participant_shares@,
                (#[trigger] partial_signatures@[k]).participant_id,
            ) && has_signer(commitments@, partial_signatures@[k].participant_id),
        r matches Err(e) ==> e is InvalidParticipantIndex || e is CryptoError
            || e is InvalidSignatureShare,
{
    let ghost ps = partial_signatures@;
    let ghost shares = group_key.participant_shares@;
    let ghost cs = commitments@;
    let ghost m = message@;
    let ghost big_r = group_commitment@;
    let ghost pk = group_key.public_key@;
    let mut k: usize = 0;
    while k < partial_signatures.len()
        invariant
            ps == partial_signatures@,
            shares == group_key.participant_shares@,
            cs == commitments@,
            m == message@,
            big_r == group_commitment@,
            pk == group_key.public_key@,
            k <= ps.len(),
            partials_accepted_before(m, cs, ps, shares, big_r, pk, k as int),
        decreases ps.len() - k,
    {
        let p = &partial_signatures[k];
        let ghost id = p.participant_id;
        let q = match find_key_share(group_key.participant_shares.as_slice(), p.participant_id) {
            Some(q) => q,
            None => {
                proof {
                    assert(!has_key_share(shares, id));
                    assert(!partial_accepted(m, cs, ps[k as int], shares, big_r, pk));
                }
                return Err(FrostError::InvalidParticipantIndex(p.participant_id.as_u32()));
            },
        };
        proof {
            assert(has_key_share(shares, id));
            assert forall|q2: int| first_key_share(shares, q2, p.participant_id) implies q2
                == q as int by {
                if q2 < q as int {
                    assert(shares[q2].participant_id != p.participant_id);
                } else if q2 > q as int {
                    assert(shares[q as int].participant_id != p.participant_id);
                }
            }
            assert forall|j2: int, j3: int|
                first_signer(cs, j2, p.participant_id) && first_signer(
                    cs,
                    j3,
                    p.participant_id,
                ) implies j2 == j3 by {
                if j2 < j3 {
                    assert(cs[j2].participant_id == p.participant_id);
                } else if j2 > j3 {
                    assert(cs[j3].participant_id == p.participant_id);
                }
            }
        }
        let y = &group_key.participant_shares[q];
        match verify_partial_signature(
            message,
            commitments,
            p,
            y,
            group_commitment,
            &group_key.public_key,
        ) {
            Ok(true) => {
                assert(partial_accepted(m, cs, ps[k as int], shares, big_r, pk));
            },
            Ok(false) => {
                proof {
                    let j = choose|j: int|
                        first_signer(cs, j, id) && is_point_encoding(#[trigger] cs[j].hiding@)
                            && is_point_encoding(cs[j].binding@) && is_point_encoding(
                            shares[q as int].public_key@,
                        );
                    assert(cs[j].participant_id == id);
                    assert(has_signer(cs, id));
                }
                assert(!partial_accepted(m, cs, ps[k as int], shares, big_r, pk));
                return Err(FrostError::InvalidSignatureShare(p.participant_id.as_u32()));
            },
            Err(e) => {
                proof {
                    assert(!partial_inputs_decode(cs, id, shares[q as int].public_key@));
                    assert(!partial_accepted(m, cs, ps[k as int], shares, big_r, pk));
                }
                return Err(e);
            },
        }
        k = k + 1;
    }
    Ok(())
}

/// Taking one partial signature out of a list lowers the sum by its value.
proof fn lemma_z_sum_remove(ps: Seq<PartialSignature>, k: int)
    requires
        0 <= k < ps.len(),
    ensures
        z_sum(ps) == z_sum(ps.remove(k)) + ps[k].z@,
    decreases ps.len(),
{
    if k == ps.len() - 1 {
        assert(ps.remove(k) =~= ps.drop_last());
    } else {
        lemma_z_sum_remove(ps.drop_last(), k);
        assert(ps.remove(k).drop_last() =~= ps.drop_last().remove(k));
        assert(ps.remove(k).last() == ps.last());
    }
}

/// A list names no participant twice exactly when, without its `k`-th entry, it names
/// none twice and no other entry names that entry's participant.
proof fn lemma_distinct_remove(ps: Seq<PartialSignature>, k: int)
    requires
        0 <= k < ps.len(),
    ensures
        distinct_signers(ps) <==> distinct_signers(ps.remove(k)) && forall|j: int|
            0 <= j < ps.remove(k).len() ==> (#[trigger] ps.remove(k)[j]).participant_id
                != ps[k].participant_id,
{
    let r = ps.remove(k);
    assert forall|j: int| 0 <= j < r.len() implies #[trigger] r[j] == if j < k {
        ps[j]
    } else {
        ps[j + 1]
    } by {}
    if distinct_signers(ps) {
        assert forall|a: int, b: int| 0 <= a < b < r.len() implies (#[trigger] r[a]).participant_id
            != (#[trigger] r[b]).participant_id by {
            let a2 = if a < k { a } else { a + 1 };
            let b2 = if b < k { b } else { b + 1 };
            assert(ps[a2] == r[a] && ps[b2] == r[b]);
            assert(ps[a2].participant_id != ps[b2].participant_id);
        }
        assert forall|j: int| 0 <= j < r.len() implies (#[trigger] r[j]).participant_id
            != ps[k].participant_id by {
            let j2 = if j < k { j } else { j + 1 };
            assert(ps[j2] == r[j]);
            if j2 < k {
                assert(ps[j2].participant_id != ps[k].participant_id);
            } else {
                assert(ps[k].participant_id != ps[j2].participant_id);
            }
        }
    }
    if distinct_signers(r) && forall|j: int|
        0 <= j < r.len() ==> (#[trigger] r[j]).participant_id != ps[k].participant_id {
        assert forall|a: int, b: int| 0 <= a < b < ps.len() implies (#[trigger] ps[a]).participant_id
            != (#[trigger] ps[b]).participant_id by {
            if a == k {
                assert(r[b - 1] == ps[b]);
                assert(r[b - 1].participant_id != ps[k].participant_id);
            } else if b == k {
                assert(r[a] == ps[a]);
                assert(r[a].participant_id != ps[k].participant_id);
            } else {
                let a2 = if a < k { a } else { a - 1 };
                let b2 = if b < k { b } else { b - 1 };
                assert(r[a2] == ps[a] && r[b2] == ps[b]);
                assert(r[a2].participant_id != r[b2].participant_id);
            }
        }
    }
}

/// Lists holding the same partial signatures, each as often, name a participant twice
/// alike, so aggregation accepts or refuses both.
pub proof fn lemma_aggregate_permutation_duplicates(a: Seq<PartialSignature>, b: Seq<PartialSignature>)
    requires
        a.to_multiset() == b.to_multiset(),
    ensures
        distinct_signers(a) <==> distinct_signers(b),
        a.len() == b.len(),
    decreases a.len(),
{
    broadcast use vstd::seq_lib::group_to_multiset_ensures;

    if a.len() == 0 {
        assert(b.to_multiset().len() == 0);
        assert(b.len() == 0);
    } else {
        let x = a.last();
        let rest = a.drop_last();
        assert(rest.push(x) =~= a);
        assert(a.to_multiset() =~= rest.to_multiset().insert(x));
        assert(a.to_multiset().count(x) > 0);
        assert(b.contains(x));
        let k = choose|k: int| 0 <= k < b.len() && b[k] == x;
        let b2 = b.remove(k);
        assert(b2.to_multiset() =~= b.to_multiset().remove(x));
        assert(rest.to_multiset() =~= rest.to_multiset().insert(x).remove(x));
        lemma_aggregate_permutation_duplicates(rest, b2);
        lemma_distinct_remove(b, k);
        lemma_distinct_remove(a, a.len() - 1);
        assert(a.remove(a.len() - 1) =~= rest);
        assert((forall|j: int| 0 <= j < rest.len() ==> (#[trigger] rest[j]).participant_id != x.participant_id)
            <==> (forall|j: int| 0 <= j < b2.len() ==> (#[trigger] b2[j]).participant_id != x.participant_id)) by {
            assert forall|j: int| 0 <= j < rest.len() implies rest.contains(#[trigger] rest[j]) by {}
            assert forall|j: int| 0 <= j < b2.len() implies b2.contains(#[trigger] b2[j]) by {}
            if forall|j: int| 0 <= j < rest.len() ==> (#[trigger] rest[j]).participant_id != x.participant_id {
                assert forall|j: int| 0 <= j < b2.len() implies (#[trigger] b2[j]).participant_id
                    != x.participant_id by {
                    assert(b2.to_multiset().count(b2[j]) > 0);
                    assert(rest.contains(b2[j]));
                }
            }
            if forall|j: int| 0 <= j < b2.len() ==> (#[trigger] b2[j]).participant_id != x.participant_id {
                assert forall|j: int| 0 <= j < rest.len() implies (#[trigger] rest[j]).participant_id
                    != x.participant_id by {
                    assert(rest.to_multiset().count(rest[j]) > 0);
                    assert(b2.contains(rest[j]));
                }
            }
        }
    }
}

/// The sum of partial signatures does not depend on their order: two lists holding the
/// same partial signatures, each as often, have the same sum, so aggregation over any
/// permutation of a list returns the same response `z`.
pub proof fn lemma_aggregate_order_irrelevant(a: Seq<PartialSignature>, b: Seq<PartialSignature>)
    requires
        a.to_multiset() == b.to_multiset(),
    ensures
        z_sum(a) == z_sum(b),
        z_sum(a) % (group_order() as int) == z_sum(b) % (group_order() as int),
    decreases a.len(),
{
    broadcast use vstd::seq_lib::group_to_multiset_ensures;

    if a.len() == 0 {
        assert(b.to_multiset().len() == 0);
        assert(b.len() == 0);
    } else {
        let x = a.last();
        let rest = a.drop_last();
        assert(rest.push(x) =~= a);
        assert(a.to_multiset() =~= rest.to_multiset().insert(x));
        assert(a.to_multiset().count(x) > 0);
        assert(b.contains(x));
        let k = choose|k: int| 0 <= k < b.len() && b[k] == x;
        let b2 = b.remove(k);
        assert(b2.to_multiset() =~= b.to_multiset().remove(x));
        assert(rest.to_multiset() =~= rest.to_multiset().insert(x).remove(x));
        lemma_aggregate_order_irrelevant(rest, b2);
        lemma_z_sum_remove(b, k);
    }
}

/// Each partial signature is judged on its own: two lists that differ only at position
/// `k` get the same verdict for every other position, so a corrupted answer can only
/// implicate its own signer.
pub proof fn lemma_partial_check_is_local(
    m: Seq<u8>,
    cs: Seq<SigningCommitment>,
    a: Seq<PartialSignature>,
    b: Seq<PartialSignature>,
    k: int,
    shares: Seq<PublicKeyShare>,
    big_r: Seq<u8>,
    pk: Seq<u8>,
)
    requires
        a.len() == b.len(),
        0 <= k < a.len(),
        forall|j: int| 0 <= j < a.len() && j != k ==> a[j] == b[j],
    ensures
        forall|j: int|
            0 <= j < a.len() && j != k ==> (partial_accepted(m, cs, #[trigger] a[j], shares, big_r, pk)
                <==> partial_accepted(m, cs, b[j], shares, big_r, pk)),
{
    assert forall|j: int| 0 <= j < a.len() && j != k implies (partial_accepted(
        m,
        cs,
        #[trigger] a[j],
        shares,
        big_r,
        pk,
    ) <==> partial_accepted(m, cs, b[j], shares, big_r, pk)) by {
        assert(a[j] == b[j]);
    }
}

/// Aggregation is a function of the multiset of partial signatures: permuting the list
/// gives the same outcome, and a list that names a participant twice is refused in any
/// order.
pub proof fn lemma_aggregation_purity(a: Seq<PartialSignature>, b: Seq<PartialSignature>)
    requires
        a.to_multiset() == b.to_multiset(),
    ensures
        aggregate_outcome(a) == aggregate_outcome(b),
{
    lemma_aggregate_order_irrelevant(a, b);
    lemma_aggregate_permutation_duplicates(a, b);
}

} // verus!
