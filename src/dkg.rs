//! Pedersen distributed key generation.
//!
//! Each participant commits to a secret polynomial `f` and a blinding polynomial `g`
//! (round 1), sends `(f(j), g(j))` to every other participant `j` (round 2), then checks
//! what it received against the senders' commitments and combines it into its share
//! of the group secret, the group key and every participant's verification share.

use vstd::prelude::*;
use vstd::string::StringSliceAdditionalSpecFns;
use crate::arith::group_order;
use crate::backend::{
    basepoint_encoding, identity_encoding, is_point_encoding, point_from_uniform_of, point_scale_of,
    point_sum_of,
    sha512_of,
};
use crate::point::CompressedPoint;
use crate::scalar::{Scalar, SecretScalar};
use crate::types::{
    all_points, commitment_eval, pedersen_entry, poly_value, GroupPublicKey, ParticipantId,
    PedersenCommitment, Polynomial, PublicKeyShare, SecretShare,
};
use crate::{FrostError, FrostResult};

verus! {

/// The second Pedersen generator: `H = from_uniform_bytes(SHA-512(label))`, with no known
/// discrete logarithm to G.
pub open spec fn pedersen_h() -> Seq<u8> {
    point_from_uniform_of(sha512_of("FROST-RISTRETTO255-SHA512-v1-PEDERSEN-H".spec_bytes()))
}

/// Derive the Pedersen generator `H` from its fixed label.
pub fn pedersen_h_generator() -> (r: CompressedPoint)
    ensures
        r@ == pedersen_h(),
        is_point_encoding(r@),
{
    let digest = crate::backend::sha512("FROST-RISTRETTO255-SHA512-v1-PEDERSEN-H".as_bytes());
    CompressedPoint::from_uniform_bytes(&digest)
}

/// The identifier that the `k`-th round-2 message of participant `me` goes to: every
/// identifier from 1 to n in order, skipping `me`.
pub open spec fn recipient_at(me: u32, k: int) -> int {
    if k + 1 < me {
        k + 1
    } else {
        k + 2
    }
}

/// Whether `i` is the first broadcast of sender `id`.
pub open spec fn first_with_sender(bs: Seq<DkgRound1Broadcast>, i: int, id: ParticipantId) -> bool {
    &&& 0 <= i < bs.len()
    &&& bs[i].sender_id == id
    &&& forall|j: int| 0 <= j < i ==> bs[j].sender_id != id
}

/// Whether some broadcast comes from `id`.
pub open spec fn has_sender(bs: Seq<DkgRound1Broadcast>, id: ParticipantId) -> bool {
    exists|i: int| 0 <= i < bs.len() && bs[i].sender_id == id
}

/// Whether a received round-2 message passes the Pedersen check against the first
/// broadcast of its sender, at participant `me`.
pub open spec fn dkg_share_accepted(
    bs: Seq<DkgRound1Broadcast>,
    msg: DkgRound2P2PMessage,
    me: ParticipantId,
) -> bool {
    exists|i: int|
        first_with_sender(bs, i, msg.sender_id) && all_points(#[trigger] bs[i].commitment@)
            && pedersen_entry(
            msg.secret_share@,
            msg.blinding_share@,
            basepoint_encoding(),
            pedersen_h(),
        ) == commitment_eval(bs[i].commitment@, me.0 as nat) && all_points(
            bs[i].public_commitment@,
        ) && point_scale_of(msg.secret_share@, basepoint_encoding()) == commitment_eval(
            bs[i].public_commitment@,
            me.0 as nat,
        )
}

/// The sum of the received secret shares, as an integer.
pub open spec fn received_sum(ss: Seq<DkgRound2P2PMessage>) -> int
    decreases ss.len(),
{
    if ss.len() == 0 {
        0
    } else {
        received_sum(ss.drop_last()) + ss.last().secret_share@
    }
}

/// The group key: from the identity, add the first entry of each broadcast's public
/// commitment `a_0*G`, in order (an empty commitment adds nothing).
pub open spec fn group_key_sum(bs: Seq<DkgRound1Broadcast>) -> Seq<u8>
    decreases bs.len(),
{
    if bs.len() == 0 {
        identity_encoding()
    } else if bs.last().public_commitment@.len() == 0 {
        group_key_sum(bs.drop_last())
    } else {
        point_sum_of(group_key_sum(bs.drop_last()), bs.last().public_commitment@[0])
    }
}

/// The verification share at `x`: from the identity, add each broadcast's public
/// polynomial evaluated in the exponent at `x`, in order.
pub open spec fn verification_share(bs: Seq<DkgRound1Broadcast>, x: nat) -> Seq<u8>
    decreases bs.len(),
{
    if bs.len() == 0 {
        identity_encoding()
    } else {
        point_sum_of(
            verification_share(bs.drop_last(), x),
            commitment_eval(bs.last().public_commitment@, x),
        )
    }
}

/// Whether the shares before position `k` all pass their Pedersen check.
pub open spec fn accepted_before(
    bs: Seq<DkgRound1Broadcast>,
    ss: Seq<DkgRound2P2PMessage>,
    me: ParticipantId,
    k: int,
) -> bool {
    forall|j: int| 0 <= j < k ==> dkg_share_accepted(bs, #[trigger] ss[j], me)
}

/// The first broadcast of sender `id`, if any.
fn find_broadcast(bs: &[DkgRound1Broadcast], id: ParticipantId) -> (r: Option<usize>)
    ensures
        r is None ==> !has_sender(bs@, id),
        r matches Some(i) ==> first_with_sender(bs@, i as int, id),
{
    let mut i: usize = 0;
    while i < bs.len()
        invariant
            i <= bs.len(),
            forall|j: int| 0 <= j < i ==> bs@[j].sender_id != id,
        decreases bs.len() - i,
    {
        if bs[i].sender_id == id {
            return Some(i);
        }
        i = i + 1;
    }
    None
}

/// Whether every broadcast's commitment decodes.
fn all_broadcasts_decode(bs: &[DkgRound1Broadcast]) -> (r: bool)
    ensures
        r == broadcasts_decode(bs@),
{
    let mut i: usize = 0;
    while i < bs.len()
        invariant
            i <= bs.len(),
            forall|j: int| 0 <= j < i ==> all_points(#[trigger] bs@[j].public_commitment@),
        decreases bs.len() - i,
    {
        if !bs[i].public_commitment.all_valid() {
            return false;
        }
        i = i + 1;
    }
    true
}

/// Whether every broadcast's public commitment decodes.
pub open spec fn broadcasts_decode(bs: Seq<DkgRound1Broadcast>) -> bool {
    forall|j: int| 0 <= j < bs.len() ==> all_points(#[trigger] bs[j].public_commitment@)
}

/// One participant of a key-generation ceremony.
pub struct DkgParticipant {
    my_id: ParticipantId,
    threshold: u32,
    num_participants: u32,
    secret_poly: Polynomial,
    blinding_poly: Polynomial,
    generator_g: CompressedPoint,
    generator_h: CompressedPoint,
}

impl DkgParticipant {
    /// This participant's identifier.
    pub closed spec fn id(&self) -> ParticipantId {
        self.my_id
    }

    /// The threshold `t`.
    pub closed spec fn threshold_spec(&self) -> u32 {
        self.threshold
    }

    /// The number of participants `n`.
    pub closed spec fn count_spec(&self) -> u32 {
        self.num_participants
    }

    /// The coefficients of the secret polynomial `f`.
    pub closed spec fn secret_coeffs(&self) -> Seq<nat> {
        self.secret_poly@
    }

    /// The coefficients of the blinding polynomial `g`.
    pub closed spec fn blinding_coeffs(&self) -> Seq<nat> {
        self.blinding_poly@
    }

    /// The participant's state is consistent: `1 <= t <= n`, `1 <= id <= n`, both
    /// polynomials have `t` coefficients, and the generators are G and H.
    pub closed spec fn wf(&self) -> bool {
        &&& 1 <= self.threshold <= self.num_participants
        &&& 1 <= self.my_id.0 <= self.num_participants
        &&& self.secret_poly@.len() == self.threshold
        &&& self.blinding_poly@.len() == self.threshold
        &&& self.generator_g@ == basepoint_encoding()
        &&& self.generator_h@ == pedersen_h()
        &&& is_point_encoding(self.generator_g@)
        &&& is_point_encoding(self.generator_h@)
    }

    /// Start a ceremony as participant `my_id` of `num_participants` with the given
    /// threshold, drawing both polynomials from `rng`.
    pub fn new(
        my_id: ParticipantId,
        threshold: u32,
        num_participants: u32,
        rng: &mut rand::rngs::StdRng,
    ) -> (r: FrostResult<DkgParticipant>)
        ensures
            (threshold == 0 || threshold > num_participants) ==> r == Err::<DkgParticipant, FrostError>(
                FrostError::InvalidThreshold(threshold, num_participants),
            ),
            !(threshold == 0 || threshold > num_participants) && (my_id.0 == 0 || my_id.0
                > num_participants) ==> r == Err::<DkgParticipant, FrostError>(
                FrostError::InvalidParticipantIndex(my_id.0),
            ),
            1 <= threshold <= num_participants && 1 <= my_id.0 <= num_participants ==> r is Ok,
            r matches Ok(p) ==> p.wf() && p.id() == my_id && p.threshold_spec() == threshold
                && p.count_spec() == num_participants,
    {
        if threshold == 0 || threshold > num_participants {
            return Err(FrostError::InvalidThreshold(threshold, num_participants));
        }
        if my_id.as_u32() == 0 || my_id.as_u32() > num_participants {
            return Err(FrostError::InvalidParticipantIndex(my_id.as_u32()));
        }
        let c0 = Scalar::random(rng);
        let secret_poly = Polynomial::random(threshold - 1, c0, rng);
        let b0 = Scalar::random(rng);
        let blinding_poly = Polynomial::random(threshold - 1, b0, rng);
        Ok(DkgParticipant {
            my_id,
            threshold,
            num_participants,
            secret_poly,
            blinding_poly,
            generator_g: CompressedPoint::basepoint(),
            generator_h: pedersen_h_generator(),
        })
    }

    /// Round 1: the Pedersen commitment to `(f, g)` and the public commitment
    /// `a_k*G` to `f`, to broadcast.
    pub fn round1_broadcast(&self) -> (r: DkgRound1Broadcast)
        requires
            self.wf(),
        ensures
            r.sender_id == self.id(),
            r.commitment@.len() == self.threshold_spec(),
            all_points(r.commitment@),
            forall|k: int|
                0 <= k < r.commitment@.len() ==> #[trigger] r.commitment@[k] == pedersen_entry(
                    self.secret_coeffs()[k],
                    self.blinding_coeffs()[k],
                    basepoint_encoding(),
                    pedersen_h(),
                ),
            r.public_commitment@.len() == self.threshold_spec(),
            all_points(r.public_commitment@),
            forall|k: int|
                0 <= k < r.public_commitment@.len() ==> #[trigger] r.public_commitment@[k]
                    == point_scale_of(self.secret_coeffs()[k], basepoint_encoding()),
    {
        DkgRound1Broadcast {
            sender_id: self.my_id,
            commitment: PedersenCommitment::new(
                &self.secret_poly,
                &self.blinding_poly,
                &self.generator_g,
                &self.generator_h,
            ),
            public_commitment: PedersenCommitment::from_polynomial(&self.secret_poly, &self.generator_g),
        }
    }

    /// Round 2: the pair `(f(j), g(j))` for every other participant `j`, in increasing
    /// order of `j`; nothing is sent to oneself.
    pub fn round2_secret_shares(&self) -> (r: Vec<DkgRound2P2PMessage>)
        requires
            self.wf(),
        ensures
            r@.len() == self.count_spec() - 1,
            forall|k: int|
                0 <= k < r@.len() ==> {
                    let m = #[trigger] r@[k];
                    let j = recipient_at(self.id().0, k);
                    &&& m.sender_id == self.id()
                    &&& m.recipient_id.0 == j
                    &&& m.secret_share@ == poly_value(self.secret_coeffs(), j) % (
                    group_order() as int)
                    &&& m.blinding_share@ == poly_value(self.blinding_coeffs(), j) % (
                    group_order() as int)
                },
    {
        let mut messages: Vec<DkgRound2P2PMessage> = Vec::new();
        let me = self.my_id.as_u32();
        let n = self.num_participants;
        let mut j: u64 = 1;
        while j <= n as u64
            invariant
                self.wf(),
                me == self.my_id.0,
                n == self.num_participants,
                1 <= j <= n + 1,
                messages@.len() == if j <= me { j - 1 } else { j - 2 },
                forall|k: int|
                    0 <= k < messages@.len() ==> {
                        let m = #[trigger] messages@[k];
                        let x = recipient_at(me, k);
                        &&& m.sender_id == self.my_id
                        &&& m.recipient_id.0 == x
                        &&& m.secret_share@ == poly_value(self.secret_poly@, x) % (
                        group_order() as int)
                        &&& m.blinding_share@ == poly_value(self.blinding_poly@, x) % (
                        group_order() as int)
                    },
            decreases n + 1 - j,
        {
            if j != me as u64 {
                let recipient_id = ParticipantId(j as u32);
                let x = recipient_id.as_scalar();
                let secret_share = self.secret_poly.evaluate(&x);
                let blinding_share = self.blinding_poly.evaluate(&x);
                assert(recipient_at(me, messages@.len() as int) == j);
                messages.push(
                    DkgRound2P2PMessage {
                        sender_id: self.my_id,
                        recipient_id,
                        secret_share: SecretScalar::new(secret_share),
                        blinding_share: SecretScalar::new(blinding_share),
                    },
                );
            }
            j = j + 1;
        }
        messages
    }

    /// Check every received share against both commitments of its sender and combine
    /// the ceremony's result: this participant's secret share `f_me(me) + sum of s_j`,
    /// the group key (sum of the public commitments' first entries) and the verification
    /// share of every participant `1..=n`.
    pub fn finalize(
        &self,
        round1_broadcasts: &[DkgRound1Broadcast],
        round2_shares: &[DkgRound2P2PMessage],
    ) -> (r: FrostResult<DkgOutput>)
        requires
            self.wf(),
        ensures
            round1_broadcasts@.len() != self.count_spec() ==> r == Err::<DkgOutput, FrostError>(
                FrostError::InsufficientParticipants(
                    round1_broadcasts@.len() as usize,
                    self.count_spec(),
                ),
            ),
            round1_broadcasts@.len() == self.count_spec() && round2_shares@.len()
                != self.count_spec() - 1 ==> r == Err::<DkgOutput, FrostError>(
                FrostError::InsufficientParticipants(
                    round2_shares@.len() as usize,
                    (self.count_spec() - 1) as u32,
                ),
            ),
            r is Ok <==> round1_broadcasts@.len() == self.count_spec() && round2_shares@.len()
                == self.count_spec() - 1 && accepted_before(
                round1_broadcasts@,
                round2_shares@,
                self.id(),
                round2_shares@.len() as int,
            ) && broadcasts_decode(round1_broadcasts@),
            r matches Err(FrostError::InvalidParticipantIndex(id)) ==> exists|k: int|
                0 <= k < round2_shares@.len() && accepted_before(
                    round1_broadcasts@,
                    round2_shares@,
                    self.id(),
                    k,
                ) && !has_sender(round1_broadcasts@, #[trigger] round2_shares@[k].sender_id) && id
                    == round2_shares@[k].sender_id.0,
            r matches Err(FrostError::CommitmentVerificationFailed(id)) ==> exists|k: int|
                0 <= k < round2_shares@.len() && accepted_before(
                    round1_broadcasts@,
                    round2_shares@,
                    self.id(),
                    k,
                ) && has_sender(round1_broadcasts@, #[trigger] round2_shares@[k].sender_id)
                    && !dkg_share_accepted(round1_broadcasts@, round2_shares@[k], self.id()) && id
                    == round2_shares@[k].sender_id.0,
            r matches Err(FrostError::CryptoError(_)) ==> accepted_before(
                round1_broadcasts@,
                round2_shares@,
                self.id(),
                round2_shares@.len() as int,
            ) && !broadcasts_decode(round1_broadcasts@),
            r matches Err(e) ==> e is InsufficientParticipants || e is InvalidParticipantIndex
                || e is CommitmentVerificationFailed || e is CryptoError,
            r matches Err(FrostError::InsufficientParticipants(_, _)) ==> round1_broadcasts@.len()
                != self.count_spec() || round2_shares@.len() != self.count_spec() - 1,
            r matches Ok(out) ==> {
                &&& out.participant_id == self.id()
                &&& out.secret_share.participant_id == self.id()
                &&& out.secret_share.value@ == (poly_value(self.secret_coeffs(), self.id().0 as int)
                    + received_sum(round2_shares@)) % (group_order() as int)
                &&& out.secret_share.blinding@ == 0
                &&& out.group_public_key.public_key@ == group_key_sum(round1_broadcasts@)
                &&& out.group_public_key.threshold == self.threshold_spec()
                &&& out.group_public_key.num_participants == self.count_spec()
                &&& out.group_public_key.participant_shares@.len() == self.count_spec()
                &&& forall|i: int|
                    0 <= i < self.count_spec() ==> {
                        let y = #[trigger] out.group_public_key.participant_shares@[i];
                        y.participant_id.0 == i + 1 && y.public_key@ == verification_share(
                            round1_broadcasts@,
                            (i + 1) as nat,
                        )
                    }
            },
    {
        let n = self.num_participants;
        let ghost bs = round1_broadcasts@;
        let ghost ss = round2_shares@;
        let ghost me = self.my_id;
        let ghost m = group_order() as int;
        if round1_broadcasts.len() != n as usize {
            return Err(FrostError::InsufficientParticipants(round1_broadcasts.len(), n));
        }
        if round2_shares.len() != (n - 1) as usize {
            return Err(FrostError::InsufficientParticipants(round2_shares.len(), n - 1));
        }
        let mut k: usize = 0;
        while k < round2_shares.len()
            invariant
                self.wf(),
                bs == round1_broadcasts@,
                ss == round2_shares@,
                me == self.my_id,
                k <= ss.len(),
                bs.len() == n,
                n == self.num_participants,
                ss.len() == n - 1,
                accepted_before(bs, ss, me, k as int),
            decreases ss.len() - k,
        {
            let msg = &round2_shares[k];
            match find_broadcast(round1_broadcasts, msg.sender_id) {
                None => {
                    assert(!has_sender(bs, ss[k as int].sender_id));
                    assert forall|i2: int| !first_with_sender(bs, i2, ss[k as int].sender_id) by {
                        if first_with_sender(bs, i2, ss[k as int].sender_id) {
                            assert(bs[i2].sender_id == ss[k as int].sender_id);
                        }
                    }
                    assert(!dkg_share_accepted(bs, ss[k as int], me));
                    assert(!accepted_before(bs, ss, me, ss.len() as int));
                    assert(has_sender(bs, ss[k as int].sender_id) == false);
                    return Err(FrostError::InvalidParticipantIndex(msg.sender_id.as_u32()));
                },
                Some(i) => {
                    let ok = round1_broadcasts[i].commitment.verify_share(
                        self.my_id,
                        msg.secret_share.as_scalar(),
                        msg.blinding_share.as_scalar(),
                        &self.generator_g,
                        &self.generator_h,
                    ) && round1_broadcasts[i].public_commitment.verify_public_share(
                        self.my_id,
                        msg.secret_share.as_scalar(),
                        &self.generator_g,
                    );
                    proof {
                        assert(has_sender(bs, msg.sender_id));
                        assert forall|i2: int| first_with_sender(bs, i2, msg.sender_id) implies i2
                            == i as int by {
                            if i2 < i as int {
                                assert(bs[i2].sender_id != msg.sender_id);
                            } else if i2 > i as int {
                                assert(bs[i as int].sender_id != msg.sender_id);
                            }
                        }
                    }
                    if !ok {
                        assert(!dkg_share_accepted(bs, ss[k as int], me));
                        assert(!accepted_before(bs, ss, me, ss.len() as int));
                        return Err(FrostError::CommitmentVerificationFailed(msg.sender_id.as_u32()));
                    }
                    assert(dkg_share_accepted(bs, ss[k as int], me));
                },
            }
            k = k + 1;
        }
        if !all_broadcasts_decode(round1_broadcasts) {
            return Err(FrostError::CryptoError("undecodable commitment".to_owned()));
        }
        let my_x = self.my_id.as_scalar();
        let mut secret = self.secret_poly.evaluate(&my_x);
        let mut k: usize = 0;
        proof {
            assert(ss.subrange(0, 0).len() == 0);
            vstd::arithmetic::div_mod::lemma_mod_twice(poly_value(self.secret_poly@, me.0 as int), m);
        }
        while k < round2_shares.len()
            invariant
                ss == round2_shares@,
                me == self.my_id,
                m == group_order() as int,
                k <= ss.len(),
                secret@ == (poly_value(self.secret_poly@, me.0 as int) + received_sum(
                    ss.subrange(0, k as int),
                )) % m,
            decreases ss.len() - k,
        {
            let ghost a = poly_value(self.secret_poly@, me.0 as int) + received_sum(
                ss.subrange(0, k as int),
            );
            let ghost v = ss[k as int].secret_share@;
            secret = secret.add(round2_shares[k].secret_share.as_scalar());
            proof {
                assert(ss.subrange(0, k + 1).drop_last() =~= ss.subrange(0, k as int));
                ss[k as int].secret_share.lemma_bound();
                vstd::arithmetic::div_mod::lemma_small_mod(v, m as nat);
                vstd::arithmetic::div_mod::lemma_add_mod_noop(a, v as int, m);
                vstd::arithmetic::div_mod::lemma_mod_twice(a, m);
            }
            k = k + 1;
        }
        assert(ss.subrange(0, ss.len() as int) =~= ss);
        let mut group_key = CompressedPoint::identity();
        let mut j: usize = 0;
        while j < round1_broadcasts.len()
            invariant
                bs == round1_broadcasts@,
                broadcasts_decode(bs),
                j <= bs.len(),
                is_point_encoding(group_key@),
                group_key@ == group_key_sum(bs.subrange(0, j as int)),
            decreases bs.len() - j,
        {
            assert(bs.subrange(0, j + 1).drop_last() =~= bs.subrange(0, j as int));
            assert(all_points(bs[j as int].public_commitment@));
            if round1_broadcasts[j].public_commitment.commitments.len() > 0 {
                assert(is_point_encoding(bs[j as int].public_commitment@[0]));
                group_key = group_key.add(&round1_broadcasts[j].public_commitment.commitments[0]);
            }
            j = j + 1;
        }
        assert(bs.subrange(0, bs.len() as int) =~= bs);
        let mut shares: Vec<PublicKeyShare> = Vec::new();
        let mut i: u64 = 1;
        while i <= n as u64
            invariant
                bs == round1_broadcasts@,
                broadcasts_decode(bs),
                1 <= i <= n + 1,
                shares@.len() == i - 1,
                forall|q: int|
                    0 <= q < shares@.len() ==> {
                        let y = #[trigger] shares@[q];
                        y.participant_id.0 == q + 1 && y.public_key@ == verification_share(
                            bs,
                            (q + 1) as nat,
                        )
                    },
            decreases n + 1 - i,
        {
            let participant_id = ParticipantId(i as u32);
            let x = participant_id.as_scalar();
            let mut acc = CompressedPoint::identity();
            let mut j: usize = 0;
            while j < round1_broadcasts.len()
                invariant
                    bs == round1_broadcasts@,
                    broadcasts_decode(bs),
                    x@ == i,
                    j <= bs.len(),
                    is_point_encoding(acc@),
                    acc@ == verification_share(bs.subrange(0, j as int), i as nat),
                decreases bs.len() - j,
            {
                assert(bs.subrange(0, j + 1).drop_last() =~= bs.subrange(0, j as int));
                assert(all_points(bs[j as int].public_commitment@));
                match round1_broadcasts[j].public_commitment.evaluate_at(&x) {
                    Some(e) => {
                        acc = acc.add(&e);
                    },
                    None => {
                        assert(false);
                    },
                }
                j = j + 1;
            }
            assert(bs.subrange(0, bs.len() as int) =~= bs);
            shares.push(PublicKeyShare { participant_id, public_key: acc });
            i = i + 1;
        }
        Ok(DkgOutput {
            participant_id: self.my_id,
            secret_share: SecretShare {
                participant_id: self.my_id,
                value: SecretScalar::new(secret),
                blinding: SecretScalar::new(Scalar::zero()),
            },
            group_public_key: GroupPublicKey {
                public_key: group_key,
                participant_shares: shares,
                threshold: self.threshold,
                num_participants: n,
            },
        })
    }
}

/// Round-1 broadcast: the sender's Pedersen commitment, which hides its polynomial and
/// against which shares are checked, and its public commitment `a_k*G`, from which the
/// group key and verification shares are computed.
#[derive(Debug, Clone)]
pub struct DkgRound1Broadcast {
    /// Who sent it.
    pub sender_id: ParticipantId,
    /// The commitment `a_k*G + b_k*H` to the sender's polynomial pair.
    pub commitment: PedersenCommitment,
    /// The commitment `a_k*G` to the sender's secret polynomial.
    pub public_commitment: PedersenCommitment,
}

/// Round-2 point-to-point message: the sender's polynomials evaluated at the recipient.
pub struct DkgRound2P2PMessage {
    /// Who sent it.
    pub sender_id: ParticipantId,
    /// Who it is for.
    pub recipient_id: ParticipantId,
    /// `f_sender(recipient)`.
    pub secret_share: SecretScalar,
    /// `g_sender(recipient)`.
    pub blinding_share: SecretScalar,
}

impl DkgRound2P2PMessage {
    /// A copy owned by the caller.
    pub fn duplicate(&self) -> (r: DkgRound2P2PMessage)
        ensures
            r.sender_id == self.sender_id,
            r.recipient_id == self.recipient_id,
            r.secret_share@ == self.secret_share@,
            r.blinding_share@ == self.blinding_share@,
    {
        DkgRound2P2PMessage {
            sender_id: self.sender_id,
            recipient_id: self.recipient_id,
            secret_share: self.secret_share.duplicate(),
            blinding_share: self.blinding_share.duplicate(),
        }
    }
}

/// The result of a successful ceremony for one participant.
pub struct DkgOutput {
    /// Whose output this is.
    pub participant_id: ParticipantId,
    /// The participant's share of the group secret.
    pub secret_share: SecretShare,
    /// The group key and all verification shares.
    pub group_public_key: GroupPublicKey,
}

/// The Pedersen commitment of an honest dealer with polynomials `f` and `g`.
pub open spec fn pedersen_commitment_of(f: Seq<nat>, g: Seq<nat>) -> Seq<Seq<u8>> {
    Seq::new(f.len(), |k: int| pedersen_entry(f[k], g[k], basepoint_encoding(), pedersen_h()))
}

/// The public commitment `a_k*G` of an honest dealer with polynomial `f`.
pub open spec fn public_commitment_of(f: Seq<nat>) -> Seq<Seq<u8>> {
    Seq::new(f.len(), |k: int| point_scale_of(f[k], basepoint_encoding()))
}

/// The two share checks an honest dealer's share at `x` passes in the group: the
/// Pedersen check with blinding and the check against `a_k*G`.
pub open spec fn honest_share_checks(f: Seq<nat>, g: Seq<nat>, x: nat) -> bool {
    let s = (poly_value(f, x as int) % (group_order() as int)) as nat;
    let t = (poly_value(g, x as int) % (group_order() as int)) as nat;
    &&& all_points(pedersen_commitment_of(f, g))
    &&& pedersen_entry(s, t, basepoint_encoding(), pedersen_h()) == commitment_eval(
        pedersen_commitment_of(f, g),
        x,
    )
    &&& all_points(public_commitment_of(f))
    &&& point_scale_of(s, basepoint_encoding()) == commitment_eval(public_commitment_of(f), x)
}

/// The sum of the participants' polynomials `0..upto` at `x`.
pub open spec fn share_sum(fs: Seq<Seq<nat>>, x: int, upto: int) -> int
    decreases upto,
{
    if upto <= 0 {
        0
    } else {
        share_sum(fs, x, upto - 1) + poly_value(fs[upto - 1], x)
    }
}

/// The same sum, leaving participant `skip` out.
pub open spec fn share_sum_except(fs: Seq<Seq<nat>>, x: int, upto: int, skip: int) -> int
    decreases upto,
{
    if upto <= 0 {
        0
    } else {
        share_sum_except(fs, x, upto - 1, skip) + if upto - 1 == skip {
            0
        } else {
            poly_value(fs[upto - 1], x)
        }
    }
}

/// Adding the skipped participant back gives the whole sum.
pub proof fn lemma_share_sum_split(fs: Seq<Seq<nat>>, x: int, upto: int, skip: int)
    requires
        0 <= skip < upto,
    ensures
        share_sum(fs, x, upto) == share_sum_except(fs, x, upto, skip) + poly_value(fs[skip], x),
    decreases upto,
{
    if upto - 1 > skip {
        lemma_share_sum_split(fs, x, upto - 1, skip);
    } else {
        lemma_share_sum_except_below(fs, x, upto - 1, skip);
    }
}

/// Leaving out a participant at or beyond `upto` changes nothing.
proof fn lemma_share_sum_except_below(fs: Seq<Seq<nat>>, x: int, upto: int, skip: int)
    requires
        upto <= skip,
    ensures
        share_sum_except(fs, x, upto, skip) == share_sum(fs, x, upto),
    decreases upto,
{
    if upto > 0 {
        lemma_share_sum_except_below(fs, x, upto - 1, skip);
    }
}

/// Congruence of sums modulo the group order.
pub proof fn lemma_mod_add_cong(r: int, e: int, v: int)
    requires
        r % (group_order() as int) == e % (group_order() as int),
    ensures
        (r + v % (group_order() as int)) % (group_order() as int) == (e + v) % (
        group_order() as int),
        (v + r) % (group_order() as int) == (v + e) % (group_order() as int),
{
    let m = group_order() as int;
    vstd::arithmetic::div_mod::lemma_add_mod_noop(r, v % m, m);
    vstd::arithmetic::div_mod::lemma_mod_twice(v, m);
    vstd::arithmetic::div_mod::lemma_add_mod_noop(e, v, m);
    vstd::arithmetic::div_mod::lemma_add_mod_noop(v, r, m);
    vstd::arithmetic::div_mod::lemma_add_mod_noop(v, e, m);
}

/// Runs a whole ceremony among simulated participants, for tests and tooling.
pub struct DkgCoordinator {
    threshold: u32,
    num_participants: u32,
}

impl DkgCoordinator {
    /// The threshold `t`.
    pub closed spec fn threshold_spec(&self) -> u32 {
        self.threshold
    }

    /// The number of participants `n`.
    pub closed spec fn count_spec(&self) -> u32 {
        self.num_participants
    }

    /// `1 <= t <= n`.
    pub closed spec fn wf(&self) -> bool {
        1 <= self.threshold <= self.num_participants
    }

    /// A coordinator for `t`-of-`n`; refused unless `1 <= t <= n`.
    pub fn new(threshold: u32, num_participants: u32) -> (r: FrostResult<DkgCoordinator>)
        ensures
            (threshold == 0 || threshold > num_participants) <==> r is Err,
            r is Err ==> r == Err::<DkgCoordinator, FrostError>(
                FrostError::InvalidThreshold(threshold, num_participants),
            ),
            r matches Ok(c) ==> c.wf() && c.threshold_spec() == threshold && c.count_spec()
                == num_participants,
    {
        if threshold == 0 || threshold > num_participants {
            return Err(FrostError::InvalidThreshold(threshold, num_participants));
        }
        Ok(DkgCoordinator { threshold, num_participants })
    }

    /// Run every participant through both rounds and finalization; every output
    /// carries the same group key and verification shares.
    pub fn run_dkg(&self, rng: &mut rand::rngs::StdRng) -> (r: FrostResult<Vec<DkgOutput>>)
        requires
            self.wf(),
        ensures
            r matches Err(e) ==> e is CommitmentVerificationFailed,
            r is Err ==> exists|fp: Seq<nat>, gp: Seq<nat>, x: nat|
                fp.len() == self.threshold_spec() && gp.len() == self.threshold_spec() && 1 <= x
                    <= self.count_spec() && !honest_share_checks(fp, gp, x),
            r matches Ok(outs) ==> exists|fs: Seq<Seq<nat>>|
                fs.len() == self.count_spec() && (forall|j: int|
                    0 <= j < fs.len() ==> (#[trigger] fs[j]).len() == self.threshold_spec()) && (
                forall|i: int|
                    0 <= i < outs@.len() ==> (#[trigger] outs@[i]).secret_share.value@ == share_sum(
                        fs,
                        i + 1,
                        self.count_spec() as int,
                    ) % (group_order() as int)),
            r matches Ok(outs) ==> {
                &&& outs@.len() == self.count_spec()
                &&& forall|i: int|
                    0 <= i < outs@.len() ==> {
                        &&& (#[trigger] outs@[i]).participant_id.0 == i + 1
                        &&& outs@[i].secret_share.participant_id.0 == i + 1
                        &&& outs@[i].group_public_key.public_key@
                            == outs@[0].group_public_key.public_key@
                        &&& outs@[i].group_public_key.threshold == self.threshold_spec()
                        &&& outs@[i].group_public_key.num_participants == self.count_spec()
                        &&& outs@[i].group_public_key.participant_shares@.len() == self.count_spec()
                        &&& forall|q: int|
                            0 <= q < self.count_spec() ==> (
                            #[trigger] outs@[i].group_public_key.participant_shares@[q]).public_key@
                                == outs@[0].group_public_key.participant_shares@[q].public_key@
                                && outs@[i].group_public_key.participant_shares@[q].participant_id.0
                                == q + 1
                    }
            },
    {
        let t = self.threshold;
        let n = self.num_participants;
        let mut participants: Vec<DkgParticipant> = Vec::new();
        let mut i: u64 = 1;
        while i <= n as u64
            invariant
                1 <= t <= n,
                1 <= i <= n + 1,
                participants@.len() == i - 1,
                forall|q: int|
                    0 <= q < participants@.len() ==> (#[trigger] participants@[q]).wf()
                        && participants@[q].id().0 == q + 1 && participants@[q].threshold_spec()
                        == t && participants@[q].count_spec() == n,
            decreases n + 1 - i,
        {
            match DkgParticipant::new(ParticipantId(i as u32), t, n, rng) {
                Ok(p) => participants.push(p),
                Err(e) => {
                    return Err(e);
                },
            }
            i = i + 1;
        }
        let mut broadcasts: Vec<DkgRound1Broadcast> = Vec::new();
        let mut messages: Vec<Vec<DkgRound2P2PMessage>> = Vec::new();
        let mut k: usize = 0;
        while k < participants.len()
            invariant
                1 <= t <= n,
                participants@.len() == n,
                k <= n,
                forall|q: int|
                    0 <= q < participants@.len() ==> (#[trigger] participants@[q]).wf()
                        && participants@[q].id().0 == q + 1 && participants@[q].threshold_spec()
                        == t && participants@[q].count_spec() == n,
                broadcasts@.len() == k,
                messages@.len() == k,
                forall|q: int|
                    0 <= q < k ==> (#[trigger] broadcasts@[q]).sender_id.0 == q + 1 && all_points(
                        broadcasts@[q].public_commitment@,
                    ),
                forall|q: int| 0 <= q < k ==> (#[trigger] messages@[q])@.len() == n - 1,
                forall|q: int, x: int|
                    0 <= q < k && 0 <= x < n - 1 ==> (#[trigger] messages@[q]@[x]).sender_id.0 == q
                        + 1 && messages@[q]@[x].recipient_id.0 == recipient_at((q + 1) as u32, x)
                        && messages@[q]@[x].secret_share@ == poly_value(
                        participants@[q].secret_coeffs(),
                        recipient_at((q + 1) as u32, x),
                    ) % (group_order() as int) && messages@[q]@[x].blinding_share@ == poly_value(
                        participants@[q].blinding_coeffs(),
                        recipient_at((q + 1) as u32, x),
                    ) % (group_order() as int),
                forall|q: int|
                    0 <= q < k ==> (#[trigger] broadcasts@[q]).commitment@ == pedersen_commitment_of(
                        participants@[q].secret_coeffs(),
                        participants@[q].blinding_coeffs(),
                    ) && broadcasts@[q].public_commitment@ == public_commitment_of(
                        participants@[q].secret_coeffs(),
                    ),
            decreases n - k,
        {
            let bc = participants[k].round1_broadcast();
            assert(bc.commitment@ =~= pedersen_commitment_of(
                participants@[k as int].secret_coeffs(),
                participants@[k as int].blinding_coeffs(),
            ));
            assert(bc.public_commitment@ =~= public_commitment_of(
                participants@[k as int].secret_coeffs(),
            ));
            broadcasts.push(bc);
            messages.push(participants[k].round2_secret_shares());
            k = k + 1;
        }
        let ghost bs = broadcasts@;
        let ghost fs = Seq::new(n as nat, |q: int| participants@[q].secret_coeffs());
        let ghost gs = Seq::new(n as nat, |q: int| participants@[q].blinding_coeffs());
        let ghost l = group_order() as int;
        let mut outputs: Vec<DkgOutput> = Vec::new();
        let mut k: usize = 0;
        while k < participants.len()
            invariant
                bs == broadcasts@,
                participants@.len() == n,
                1 <= t <= n,
                t == self.threshold,
                n == self.num_participants,
                k <= n,
                outputs@.len() == k,
                bs.len() == n,
                messages@.len() == n,
                forall|q: int|
                    0 <= q < participants@.len() ==> (#[trigger] participants@[q]).wf()
                        && participants@[q].id().0 == q + 1 && participants@[q].threshold_spec()
                        == t && participants@[q].count_spec() == n,
                forall|q: int|
                    0 <= q < n ==> (#[trigger] bs[q]).sender_id.0 == q + 1 && all_points(
                        bs[q].public_commitment@,
                    ),
                forall|q: int| 0 <= q < n ==> (#[trigger] messages@[q])@.len() == n - 1,
                forall|q: int, x: int|
                    0 <= q < n && 0 <= x < n - 1 ==> (#[trigger] messages@[q]@[x]).sender_id.0 == q
                        + 1 && messages@[q]@[x].recipient_id.0 == recipient_at((q + 1) as u32, x)
                        && messages@[q]@[x].secret_share@ == poly_value(
                        fs[q],
                        recipient_at((q + 1) as u32, x),
                    ) % l && messages@[q]@[x].blinding_share@ == poly_value(
                        gs[q],
                        recipient_at((q + 1) as u32, x),
                    ) % l,
                fs.len() == n,
                gs.len() == n,
                l == group_order() as int,
                forall|q: int| 0 <= q < n ==> (#[trigger] fs[q]) == participants@[q].secret_coeffs(),
                forall|q: int| 0 <= q < n ==> (#[trigger] gs[q]) == participants@[q].blinding_coeffs(),
                forall|q: int|
                    0 <= q < n ==> (#[trigger] bs[q]).commitment@ == pedersen_commitment_of(fs[q], gs[q])
                        && bs[q].public_commitment@ == public_commitment_of(fs[q]),
                forall|q: int| 0 <= q < k ==> (#[trigger] outputs@[q]).secret_share.value@ == share_sum(
                    fs,
                    q + 1,
                    n as int,
                ) % l,
                forall|q: int|
                    0 <= q < k ==> {
                        &&& (#[trigger] outputs@[q]).participant_id.0 == q + 1
                        &&& outputs@[q].secret_share.participant_id.0 == q + 1
                        &&& outputs@[q].group_public_key.public_key@ == group_key_sum(bs)
                        &&& outputs@[q].group_public_key.threshold == t
                        &&& outputs@[q].group_public_key.num_participants == n
                        &&& outputs@[q].group_public_key.participant_shares@.len() == n
                        &&& forall|x: int|
                            0 <= x < n ==> (
                            #[trigger] outputs@[q].group_public_key.participant_shares@[x]).public_key@
                                == verification_share(bs, (x + 1) as nat)
                                && outputs@[q].group_public_key.participant_shares@[x].participant_id.0
                                == x + 1
                    },
            decreases n - k,
        {
            let me = participants[k].my_id;
            let ghost m = me.0 as int;
            let mut mine: Vec<DkgRound2P2PMessage> = Vec::new();
            let mut a: usize = 0;
            while a < messages.len()
                invariant
                    messages@.len() == n,
                    1 <= m <= n,
                    me.0 == m,
                    forall|q: int| 0 <= q < n ==> (#[trigger] messages@[q])@.len() == n - 1,
                    forall|q: int, x: int|
                        0 <= q < n && 0 <= x < n - 1 ==> (#[trigger] messages@[q]@[x]).sender_id.0
                            == q + 1 && messages@[q]@[x].recipient_id.0 == recipient_at(
                            (q + 1) as u32,
                            x,
                        ) && messages@[q]@[x].secret_share@ == poly_value(
                            fs[q],
                            recipient_at((q + 1) as u32, x),
                        ) % l && messages@[q]@[x].blinding_share@ == poly_value(
                            gs[q],
                            recipient_at((q + 1) as u32, x),
                        ) % l,
                    l == group_order() as int,
                    forall|x: int|
                        0 <= x < mine@.len() ==> (#[trigger] mine@[x]).secret_share@ == poly_value(
                            fs[mine@[x].sender_id.0 - 1],
                            m,
                        ) % l && mine@[x].blinding_share@ == poly_value(
                            gs[mine@[x].sender_id.0 - 1],
                            m,
                        ) % l,
                    received_sum(mine@) % l == share_sum_except(fs, m, a as int, m - 1) % l,
                    a <= n,
                    mine@.len() == a - (if m <= a { 1int } else { 0int }),
                    forall|x: int|
                        0 <= x < mine@.len() ==> 1 <= (#[trigger] mine@[x]).sender_id.0 <= n,
                decreases n - a,
            {
                let batch = &messages[a];
                let ghost s = (a + 1) as int;
                let ghost kstar = if m < s { m - 1 } else { m - 2 };
                let ghost base = mine@.len() as int;
                let ghost base_sum = share_sum_except(fs, m, a as int, m - 1);
                let mut b: usize = 0;
                while b < batch.len()
                    invariant
                        batch@ == messages@[a as int]@,
                        batch@.len() == n - 1,
                        a < n,
                        s == a + 1,
                        1 <= m <= n,
                        me.0 == m,
                        kstar == if m < s { m - 1 } else { m - 2 },
                        forall|x: int|
                            0 <= x < n - 1 ==> (#[trigger] batch@[x]).sender_id.0 == s
                                && batch@[x].recipient_id.0 == recipient_at(s as u32, x)
                                && batch@[x].secret_share@ == poly_value(fs[a as int], recipient_at(s as u32, x)) % l
                                && batch@[x].blinding_share@ == poly_value(gs[a as int], recipient_at(s as u32, x)) % l,
                        l == group_order() as int,
                        forall|x: int|
                            0 <= x < mine@.len() ==> (#[trigger] mine@[x]).secret_share@ == poly_value(
                                fs[mine@[x].sender_id.0 - 1],
                                m,
                            ) % l && mine@[x].blinding_share@ == poly_value(
                                gs[mine@[x].sender_id.0 - 1],
                                m,
                            ) % l,
                        received_sum(mine@) % l == (base_sum + (if s != m && kstar < b {
                            poly_value(fs[a as int], m)
                        } else {
                            0
                        })) % l,
                        b <= batch@.len(),
                        mine@.len() == base + (if s != m && kstar < b { 1int } else { 0int }),
                        forall|x: int|
                            0 <= x < mine@.len() ==> 1 <= (#[trigger] mine@[x]).sender_id.0 <= n,
                    decreases batch@.len() - b,
                {
                    assert(batch@[b as int].recipient_id.0 == recipient_at(s as u32, b as int));
                    if batch[b].recipient_id == me {
                        assert(s != m && b == kstar);
                        let ghost before = mine@;
                        mine.push(batch[b].duplicate());
                        proof {
                            assert(mine@.last().sender_id.0 - 1 == a);
                            assert(mine@.drop_last() =~= before);
                            let v = poly_value(fs[a as int], m);
                            assert(received_sum(mine@) == received_sum(before) + v % l);
                            lemma_mod_add_cong(received_sum(before), base_sum, v);
                        }
                    } else {
                        assert(!(s != m && b == kstar));
                    }
                    b = b + 1;
                }
                proof {
                    assert(share_sum_except(fs, m, a + 1, m - 1) == base_sum + if a == m - 1 {
                        0
                    } else {
                        poly_value(fs[a as int], m)
                    });
                }
                a = a + 1;
            }
            proof {
                assert forall|x: int| 0 <= x < mine@.len() implies has_sender(
                    bs,
                    (#[trigger] mine@[x]).sender_id,
                ) by {
                    let q = mine@[x].sender_id.0 - 1;
                    assert(bs[q].sender_id.0 == mine@[x].sender_id.0);
                    assert(bs[q].sender_id == mine@[x].sender_id);
                }
                assert(broadcasts_decode(bs));
            }
            proof {
                lemma_share_sum_split(fs, m, n as int, m - 1);
                lemma_mod_add_cong(
                    received_sum(mine@),
                    share_sum_except(fs, m, n as int, m - 1),
                    poly_value(fs[m - 1], m),
                );
            }
            match participants[k].finalize(broadcasts.as_slice(), mine.as_slice()) {
                Ok(out) => outputs.push(out),
                Err(e) => {
                    proof {
                        let ss = mine@;
                        let kk = choose|kk: int|
                            0 <= kk < ss.len() && accepted_before(bs, ss, me, kk) && has_sender(
                                bs,
                                #[trigger] ss[kk].sender_id,
                            ) && !dkg_share_accepted(bs, ss[kk], me) && e
                                == FrostError::CommitmentVerificationFailed(ss[kk].sender_id.0);
                        let q = ss[kk].sender_id.0 - 1;
                        assert(bs[q].sender_id.0 == q + 1);
                        assert(bs[q].sender_id == ss[kk].sender_id);
                        assert forall|j: int| 0 <= j < q implies bs[j].sender_id != ss[kk].sender_id by {
                            assert(bs[j].sender_id.0 == j + 1);
                        }
                        assert(first_with_sender(bs, q, ss[kk].sender_id));
                        assert(!honest_share_checks(fs[q], gs[q], m as nat));
                        assert(fs[q].len() == t && gs[q].len() == t);
                        let fp = fs[q];
                        let gp = gs[q];
                        let x = m as nat;
                        assert(fp.len() == self.threshold_spec() && gp.len() == self.threshold_spec()
                            && 1 <= x <= self.count_spec() && !honest_share_checks(fp, gp, x));
                    }
                    return Err(e);
                },
            }
            k = k + 1;
        }
        assert(forall|j: int| 0 <= j < fs.len() ==> (#[trigger] fs[j]).len() == t);
        Ok(outputs)
    }
}

} // verus!
