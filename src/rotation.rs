//! Proactive share rotation: every participant deals a random polynomial with a zero
//! constant term, so every share changes while the group secret, the group key and the
//! verification shares stay as they were.

use vstd::prelude::*;
use crate::arith::group_order;
use crate::backend::{basepoint_encoding, is_point_encoding};
use crate::dkg::{
    lemma_mod_add_cong, lemma_share_sum_split, pedersen_h, pedersen_h_generator, recipient_at,
    share_sum, share_sum_except,
};
use crate::point::CompressedPoint;
use crate::scalar::{Scalar, SecretScalar};
use crate::types::{
    all_points, commitment_eval, pedersen_entry, poly_value, ParticipantId, PedersenCommitment,
    Polynomial, SecretShare,
};
use crate::{FrostError, FrostResult};

verus! {

/// Whether `i` is the first rotation commitment of sender `id`.
pub open spec fn first_commitment_of(cs: Seq<RotationCommitment>, i: int, id: ParticipantId) -> bool {
    &&& 0 <= i < cs.len()
    &&& cs[i].sender_id == id
    &&& forall|j: int| 0 <= j < i ==> cs[j].sender_id != id
}

/// Whether some rotation commitment comes from `id`.
pub open spec fn has_committer(cs: Seq<RotationCommitment>, id: ParticipantId) -> bool {
    exists|i: int| 0 <= i < cs.len() && cs[i].sender_id == id
}

/// Whether a received delta share passes the Pedersen check, with zero blinding,
/// against the first commitment of its sender, at participant `me`.
pub open spec fn delta_accepted(
    cs: Seq<RotationCommitment>,
    share: RotationShare,
    me: ParticipantId,
) -> bool {
    exists|i: int|
        first_commitment_of(cs, i, share.sender_id) && all_points(#[trigger] cs[i].commitment@)
            && pedersen_entry(share.delta_share@, 0, basepoint_encoding(), pedersen_h())
            == commitment_eval(cs[i].commitment@, me.0 as nat)
}

/// Whether the delta shares before position `k` all pass their check.
pub open spec fn deltas_accepted_before(
    cs: Seq<RotationCommitment>,
    ss: Seq<RotationShare>,
    me: ParticipantId,
    k: int,
) -> bool {
    forall|j: int| 0 <= j < k ==> delta_accepted(cs, #[trigger] ss[j], me)
}

/// The rotation commitment of an honest dealer with delta polynomial `f`: each entry
/// `f_k*G + 0*H`.
pub open spec fn zero_blinded_commitment_of(f: Seq<nat>) -> Seq<Seq<u8>> {
    Seq::new(f.len(), |k: int| pedersen_entry(f[k], 0, basepoint_encoding(), pedersen_h()))
}

/// The check an honest dealer's delta share at `x` passes in the group.
pub open spec fn honest_delta_check(f: Seq<nat>, x: nat) -> bool {
    &&& all_points(zero_blinded_commitment_of(f))
    &&& pedersen_entry(
        (poly_value(f, x as int) % (group_order() as int)) as nat,
        0,
        basepoint_encoding(),
        pedersen_h(),
    ) == commitment_eval(zero_blinded_commitment_of(f), x)
}

/// The sum of the received delta shares, as an integer.
pub open spec fn delta_sum(ss: Seq<RotationShare>) -> int
    decreases ss.len(),
{
    if ss.len() == 0 {
        0
    } else {
        delta_sum(ss.drop_last()) + ss.last().delta_share@
    }
}

/// The first rotation commitment of `id`, if any.
fn find_commitment(cs: &[RotationCommitment], id: ParticipantId) -> (r: Option<usize>)
    ensures
        r is None ==> !has_committer(cs@, id),
        r matches Some(i) ==> first_commitment_of(cs@, i as int, id),
{
    let mut i: usize = 0;
    while i < cs.len()
        invariant
            i <= cs.len(),
            forall|j: int| 0 <= j < i ==> cs@[j].sender_id != id,
        decreases cs.len() - i,
    {
        if cs[i].sender_id == id {
            return Some(i);
        }
        i = i + 1;
    }
    None
}

/// One participant's state in a share rotation.
pub struct ShareRotation {
    my_id: ParticipantId,
    current_share: SecretScalar,
    threshold: u32,
    num_participants: u32,
    delta_poly: Polynomial,
}

impl ShareRotation {
    /// This participant's identifier.
    pub closed spec fn id(&self) -> ParticipantId {
        self.my_id
    }

    /// The share before rotation.
    pub closed spec fn old_share(&self) -> nat {
        self.current_share@
    }

    /// The threshold `t`.
    pub closed spec fn threshold_spec(&self) -> u32 {
        self.threshold
    }

    /// The number of participants `n`.
    pub closed spec fn count_spec(&self) -> u32 {
        self.num_participants
    }

    /// The coefficients of the delta polynomial.
    pub closed spec fn delta_coeffs(&self) -> Seq<nat> {
        self.delta_poly@
    }

    /// The state is consistent: `1 <= t <= n`, `1 <= id <= n`, and the delta polynomial
    /// has `t` coefficients, the first of them zero.
    pub closed spec fn wf(&self) -> bool {
        &&& 1 <= self.threshold <= self.num_participants
        &&& 1 <= self.my_id.0 <= self.num_participants
        &&& self.delta_poly@.len() == self.threshold
        &&& self.delta_poly@[0] == 0
    }

    /// Start a rotation from the current share, drawing a delta polynomial of degree
    /// `t - 1` whose constant term is zero.
    pub fn new(
        my_id: ParticipantId,
        current_share: &SecretShare,
        threshold: u32,
        num_participants: u32,
        rng: &mut rand::rngs::StdRng,
    ) -> (r: FrostResult<ShareRotation>)
        ensures
            (threshold == 0 || threshold > num_participants) ==> r == Err::<ShareRotation, FrostError>(
                FrostError::InvalidThreshold(threshold, num_participants),
            ),
            !(threshold == 0 || threshold > num_participants) && (my_id.0 == 0 || my_id.0
                > num_participants) ==> r == Err::<ShareRotation, FrostError>(
                FrostError::InvalidParticipantIndex(my_id.0),
            ),
            1 <= threshold <= num_participants && 1 <= my_id.0 <= num_participants ==> r is Ok,
            r matches Ok(s) ==> s.delta_coeffs().len() == threshold && s.delta_coeffs()[0] == 0,
            r matches Ok(s) ==> s.wf() && s.id() == my_id && s.old_share() == current_share.value@
                && s.threshold_spec() == threshold && s.count_spec() == num_participants,
    {
        if threshold == 0 || threshold > num_participants {
            return Err(FrostError::InvalidThreshold(threshold, num_participants));
        }
        if my_id.as_u32() == 0 || my_id.as_u32() > num_participants {
            return Err(FrostError::InvalidParticipantIndex(my_id.as_u32()));
        }
        let delta_poly = Polynomial::random(threshold - 1, Scalar::zero(), rng);
        Ok(ShareRotation {
            my_id,
            current_share: current_share.value.duplicate(),
            threshold,
            num_participants,
            delta_poly,
        })
    }

    /// The commitment to the delta polynomial, with an all-zero blinding polynomial.
    pub fn generate_commitments(&self) -> (r: RotationCommitment)
        requires
            self.wf(),
        ensures
            r.sender_id == self.id(),
            r.commitment@.len() == self.threshold_spec(),
            all_points(r.commitment@),
            forall|k: int|
                0 <= k < r.commitment@.len() ==> #[trigger] r.commitment@[k] == pedersen_entry(
                    self.delta_coeffs()[k],
                    0,
                    basepoint_encoding(),
                    pedersen_h(),
                ),
    {
        let g = CompressedPoint::basepoint();
        let h = pedersen_h_generator();
        let n = self.delta_poly.len();
        let mut zeros: Vec<Scalar> = Vec::new();
        let mut i: usize = 0;
        while i < n
            invariant
                i <= n,
                zeros@.len() == i,
                forall|j: int| 0 <= j < i ==> (#[trigger] zeros@[j])@ == 0,
            decreases n - i,
        {
            zeros.push(Scalar::zero());
            i = i + 1;
        }
        let blinding_poly = Polynomial::new(zeros);
        RotationCommitment {
            sender_id: self.my_id,
            commitment: PedersenCommitment::new(&self.delta_poly, &blinding_poly, &g, &h),
        }
    }

    /// The delta share `delta(j)` for every other participant `j`, in increasing order.
    pub fn generate_delta_shares(&self) -> (r: Vec<RotationShare>)
        requires
            self.wf(),
        ensures
            r@.len() == self.count_spec() - 1,
            forall|k: int|
                0 <= k < r@.len() ==> {
                    let m = #[trigger] r@[k];
                    let j = recipient_at(self.id().0, k);
                    &&& m.sender_id == self.id()
                    &&& m.recipient_id.0 == j
                    &&& m.delta_share@ == poly_value(self.delta_coeffs(), j) % (group_order() as int)
                },
    {
        let mut shares: Vec<RotationShare> = Vec::new();
        let me = self.my_id.as_u32();
        let n = self.num_participants;
        let mut j: u64 = 1;
        while j <= n as u64
            invariant
                self.wf(),
                me == self.my_id.0,
                n == self.num_participants,
                1 <= j <= n + 1,
                shares@.len() == if j <= me { j - 1 } else { j - 2 },
                forall|k: int|
                    0 <= k < shares@.len() ==> {
                        let m = #[trigger] shares@[k];
                        let x = recipient_at(me, k);
                        &&& m.sender_id == self.my_id
                        &&& m.recipient_id.0 == x
                        &&& m.delta_share@ == poly_value(self.delta_poly@, x) % (group_order() as int)
                    },
            decreases n + 1 - j,
        {
            if j != me as u64 {
                let recipient_id = ParticipantId(j as u32);
                let x = recipient_id.as_scalar();
                let delta = self.delta_poly.evaluate(&x);
                assert(recipient_at(me, shares@.len() as int) == j);
                shares.push(
                    RotationShare {
                        sender_id: self.my_id,
                        recipient_id,
                        delta_share: SecretScalar::new(delta),
                    },
                );
            }
            j = j + 1;
        }
        shares
    }

    /// Check every received delta share against its sender's commitment (blinding zero)
    /// and return the new share `s + delta_me(me) + sum of delta_j(me)`.
    pub fn finalize(self, received_shares: &[RotationShare], commitments: &[RotationCommitment]) -> (r:
        FrostResult<SecretShare>)
        requires
            self.wf(),
        ensures
            commitments@.len() != self.count_spec() ==> r == Err::<SecretShare, FrostError>(
                FrostError::InsufficientParticipants(commitments@.len() as usize, self.count_spec()),
            ),
            commitments@.len() == self.count_spec() && received_shares@.len() != self.count_spec()
                - 1 ==> r == Err::<SecretShare, FrostError>(
                FrostError::InsufficientParticipants(
                    received_shares@.len() as usize,
                    (self.count_spec() - 1) as u32,
                ),
            ),
            r is Ok <==> commitments@.len() == self.count_spec() && received_shares@.len()
                == self.count_spec() - 1 && deltas_accepted_before(
                commitments@,
                received_shares@,
                self.id(),
                received_shares@.len() as int,
            ),
            r matches Err(FrostError::InvalidParticipantIndex(id)) ==> exists|k: int|
                0 <= k < received_shares@.len() && deltas_accepted_before(
                    commitments@,
                    received_shares@,
                    self.id(),
                    k,
                ) && !has_committer(commitments@, #[trigger] received_shares@[k].sender_id) && id
                    == received_shares@[k].sender_id.0,
            r matches Err(FrostError::CommitmentVerificationFailed(id)) ==> exists|k: int|
                0 <= k < received_shares@.len() && deltas_accepted_before(
                    commitments@,
                    received_shares@,
                    self.id(),
                    k,
                ) && has_committer(commitments@, #[trigger] received_shares@[k].sender_id)
                    && !delta_accepted(commitments@, received_shares@[k], self.id()) && id
                    == received_shares@[k].sender_id.0,
            r matches Err(e) ==> e is InsufficientParticipants || e is InvalidParticipantIndex
                || e is CommitmentVerificationFailed,
            r matches Err(FrostError::InsufficientParticipants(_, _)) ==> commitments@.len()
                != self.count_spec() || received_shares@.len() != self.count_spec() - 1,
            r matches Ok(share) ==> {
                &&& share.participant_id == self.id()
                &&& share.value@ == (self.old_share() + poly_value(
                    self.delta_coeffs(),
                    self.id().0 as int,
                ) + delta_sum(received_shares@)) % (group_order() as int)
                &&& share.blinding@ == 0
            },
    {
        let n = self.num_participants;
        let ghost cs = commitments@;
        let ghost ss = received_shares@;
        let ghost me = self.my_id;
        let ghost m = group_order() as int;
        if commitments.len() != n as usize {
            return Err(FrostError::InsufficientParticipants(commitments.len(), n));
        }
        if received_shares.len() != (n - 1) as usize {
            return Err(FrostError::InsufficientParticipants(received_shares.len(), n - 1));
        }
        let g = CompressedPoint::basepoint();
        let h = pedersen_h_generator();
        let zero = Scalar::zero();
        let mut k: usize = 0;
        while k < received_shares.len()
            invariant
                cs == commitments@,
                ss == received_shares@,
                me == self.my_id,
                k <= ss.len(),
                cs.len() == n,
                n == self.num_participants,
                ss.len() == n - 1,
                g@ == basepoint_encoding(),
                h@ == pedersen_h(),
                is_point_encoding(g@),
                is_point_encoding(h@),
                zero@ == 0,
                deltas_accepted_before(cs, ss, me, k as int),
            decreases ss.len() - k,
        {
            let share = &received_shares[k];
            match find_commitment(commitments, share.sender_id) {
                None => {
                    assert forall|i2: int| !first_commitment_of(cs, i2, ss[k as int].sender_id) by {
                        if first_commitment_of(cs, i2, ss[k as int].sender_id) {
                            assert(cs[i2].sender_id == ss[k as int].sender_id);
                        }
                    }
                    assert(!delta_accepted(cs, ss[k as int], me));
                    assert(!deltas_accepted_before(cs, ss, me, ss.len() as int));
                    return Err(FrostError::InvalidParticipantIndex(share.sender_id.as_u32()));
                },
                Some(i) => {
                    let ok = commitments[i].commitment.verify_share(
                        self.my_id,
                        share.delta_share.as_scalar(),
                        &zero,
                        &g,
                        &h,
                    );
                    proof {
                        assert(has_committer(cs, share.sender_id));
                        assert forall|i2: int| first_commitment_of(cs, i2, share.sender_id) implies i2
                            == i as int by {
                            if i2 < i as int {
                                assert(cs[i2].sender_id != share.sender_id);
                            } else if i2 > i as int {
                                assert(cs[i as int].sender_id != share.sender_id);
                            }
                        }
                    }
                    if !ok {
                        assert(!delta_accepted(cs, ss[k as int], me));
                        assert(!deltas_accepted_before(cs, ss, me, ss.len() as int));
                        return Err(FrostError::CommitmentVerificationFailed(share.sender_id.as_u32()));
                    }
                    assert(delta_accepted(cs, ss[k as int], me));
                },
            }
            k = k + 1;
        }
        let my_x = self.my_id.as_scalar();
        let own = self.delta_poly.evaluate(&my_x);
        let mut new_share = self.current_share.as_scalar().add(&own);
        proof {
            let a = self.current_share@ as int;
            let b = poly_value(self.delta_poly@, me.0 as int);
            self.current_share.lemma_bound();
            vstd::arithmetic::div_mod::lemma_small_mod(self.current_share@, group_order());
            vstd::arithmetic::div_mod::lemma_add_mod_noop(a, b, m);
            vstd::arithmetic::div_mod::lemma_mod_twice(b, m);
            assert(ss.subrange(0, 0).len() == 0);
        }
        let mut k: usize = 0;
        while k < received_shares.len()
            invariant
                ss == received_shares@,
                me == self.my_id,
                m == group_order() as int,
                k <= ss.len(),
                new_share@ == (self.current_share@ + poly_value(self.delta_poly@, me.0 as int)
                    + delta_sum(ss.subrange(0, k as int))) % m,
            decreases ss.len() - k,
        {
            let ghost a = self.current_share@ + poly_value(self.delta_poly@, me.0 as int) + delta_sum(
                ss.subrange(0, k as int),
            );
            let ghost v = ss[k as int].delta_share@;
            new_share = new_share.add(received_shares[k].delta_share.as_scalar());
            proof {
                assert(ss.subrange(0, k + 1).drop_last() =~= ss.subrange(0, k as int));
                ss[k as int].delta_share.lemma_bound();
                vstd::arithmetic::div_mod::lemma_small_mod(v, m as nat);
                vstd::arithmetic::div_mod::lemma_add_mod_noop(a, v as int, m);
                vstd::arithmetic::div_mod::lemma_mod_twice(a, m);
            }
            k = k + 1;
        }
        assert(ss.subrange(0, ss.len() as int) =~= ss);
        Ok(SecretShare {
            participant_id: self.my_id,
            value: SecretScalar::new(new_share),
            blinding: SecretScalar::new(Scalar::zero()),
        })
    }
}

/// A participant's commitment to its delta polynomial.
#[derive(Debug, Clone)]
pub struct RotationCommitment {
    /// Who sent it.
    pub sender_id: ParticipantId,
    /// The commitment, with zero blinding.
    pub commitment: PedersenCommitment,
}

/// A delta share `delta_sender(recipient)`.
pub struct RotationShare {
    /// Who sent it.
    pub sender_id: ParticipantId,
    /// Who it is for.
    pub recipient_id: ParticipantId,
    /// The delta value.
    pub delta_share: SecretScalar,
}

impl RotationShare {
    /// A copy owned by the caller.
    pub fn duplicate(&self) -> (r: RotationShare)
        ensures
            r.sender_id == self.sender_id,
            r.recipient_id == self.recipient_id,
            r.delta_share@ == self.delta_share@,
    {
        RotationShare {
            sender_id: self.sender_id,
            recipient_id: self.recipient_id,
            delta_share: self.delta_share.duplicate(),
        }
    }
}

/// Runs a whole rotation among simulated participants, for tests and tooling.
pub struct RotationCoordinator {
    threshold: u32,
    num_participants: u32,
}

impl RotationCoordinator {
    /// The threshold `t`.
    pub closed spec fn threshold_spec(&self) -> u32 {
        self.threshold
    }

    /// The number of participants `n`.
    pub closed spec fn count_spec(&self) -> u32 {
        self.num_participants
    }

    /// `1 <= t <= n`.
    pub closed spec fn wf(&self) -> bool {
        1 <= self.threshold <= self.num_participants
    }

    /// A coordinator for `t`-of-`n`; refused unless `1 <= t <= n`.
    pub fn new(threshold: u32, num_participants: u32) -> (r: FrostResult<RotationCoordinator>)
        ensures
            (threshold == 0 || threshold > num_participants) <==> r is Err,
            r is Err ==> r == Err::<RotationCoordinator, FrostError>(
                FrostError::InvalidThreshold(threshold, num_participants),
            ),
            r matches Ok(c) ==> c.wf() && c.threshold_spec() == threshold && c.count_spec()
                == num_participants,
    {
        if threshold == 0 || threshold > num_participants {
            return Err(FrostError::InvalidThreshold(threshold, num_participants));
        }
        Ok(RotationCoordinator { threshold, num_participants })
    }

    /// Rotate all `n` current shares at once; the i-th new share belongs to the holder
    /// of the i-th current share.
    pub fn run_rotation(&self, current_shares: &[SecretShare], rng: &mut rand::rngs::StdRng) -> (r:
        FrostResult<Vec<SecretShare>>)
        requires
            self.wf(),
        ensures
            current_shares@.len() != self.count_spec() ==> r == Err::<Vec<SecretShare>, FrostError>(
                FrostError::InsufficientParticipants(
                    current_shares@.len() as usize,
                    self.count_spec(),
                ),
            ),
            current_shares@.len() == self.count_spec() && (forall|i: int|
                0 <= i < current_shares@.len() ==> (#[trigger] current_shares@[i]).participant_id.0
                    == i + 1) ==> (r matches Err(e) ==> e is CommitmentVerificationFailed),
            current_shares@.len() == self.count_spec() && (forall|i: int|
                0 <= i < current_shares@.len() ==> (#[trigger] current_shares@[i]).participant_id.0
                    == i + 1) ==> (r is Err ==> exists|fp: Seq<nat>, x: nat|
                fp.len() == self.threshold_spec() && fp[0] == 0 && 1 <= x <= self.count_spec()
                    && !honest_delta_check(fp, x)),
            current_shares@.len() == self.count_spec() && (forall|i: int|
                0 <= i < current_shares@.len() ==> (#[trigger] current_shares@[i]).participant_id.0
                    == i + 1) ==> (r matches Ok(new_shares) ==> exists|ds: Seq<Seq<nat>>|
                ds.len() == self.count_spec() && (forall|j: int|
                    0 <= j < ds.len() ==> (#[trigger] ds[j]).len() == self.threshold_spec() && ds[j][0]
                        == 0) && (forall|i: int|
                    0 <= i < new_shares@.len() ==> (#[trigger] new_shares@[i]).value@ == (
                    current_shares@[i].value@ + share_sum(ds, i + 1, self.count_spec() as int)) % (
                    group_order() as int))),
            r matches Ok(new_shares) ==> new_shares@.len() == current_shares@.len() && forall|i: int|
                0 <= i < new_shares@.len() ==> (#[trigger] new_shares@[i]).participant_id
                    == current_shares@[i].participant_id,
    {
        let t = self.threshold;
        let n = self.num_participants;
        if current_shares.len() != n as usize {
            return Err(FrostError::InsufficientParticipants(current_shares.len(), n));
        }
        let ghost ordered = forall|i: int|
            0 <= i < current_shares@.len() ==> (#[trigger] current_shares@[i]).participant_id.0 == i
                + 1;
        let mut rotations: Vec<ShareRotation> = Vec::new();
        let mut k: usize = 0;
        while k < current_shares.len()
            invariant
                1 <= t <= n,
                n == self.count_spec(),
                current_shares@.len() == n,
                ordered == forall|i: int|
                    0 <= i < current_shares@.len() ==> (#[trigger] current_shares@[i]).participant_id.0
                        == i + 1,
                k <= current_shares@.len(),
                rotations@.len() == k,
                forall|q: int|
                    0 <= q < k ==> (#[trigger] rotations@[q]).wf() && rotations@[q].id()
                        == current_shares@[q].participant_id && rotations@[q].count_spec() == n
                        && rotations@[q].delta_coeffs().len() == t && rotations@[q].delta_coeffs()[0]
                        == 0 && rotations@[q].old_share() == current_shares@[q].value@,
            decreases current_shares@.len() - k,
        {
            let share = &current_shares[k];
            match ShareRotation::new(share.participant_id, share, t, n, rng) {
                Ok(rot) => rotations.push(rot),
                Err(e) => {
                    proof {
                        if ordered {
                            assert(current_shares@[k as int].participant_id.0 == k + 1);
                        }
                    }
                    return Err(e);
                },
            }
            k = k + 1;
        }
        let mut commitments: Vec<RotationCommitment> = Vec::new();
        let mut deltas: Vec<Vec<RotationShare>> = Vec::new();
        let mut k: usize = 0;
        while k < rotations.len()
            invariant
                k <= rotations@.len(),
                rotations@.len() == current_shares@.len(),
                current_shares@.len() == n,
                forall|q: int|
                    0 <= q < rotations@.len() ==> (#[trigger] rotations@[q]).wf() && rotations@[q].id()
                        == current_shares@[q].participant_id && rotations@[q].count_spec() == n
                        && rotations@[q].delta_coeffs().len() == t && rotations@[q].delta_coeffs()[0]
                        == 0 && rotations@[q].old_share() == current_shares@[q].value@,
                1 <= t <= n,
                commitments@.len() == k,
                deltas@.len() == k,
                forall|q: int|
                    0 <= q < k ==> (#[trigger] commitments@[q]).sender_id == current_shares@[q].participant_id
                        && commitments@[q].commitment@ == zero_blinded_commitment_of(
                        rotations@[q].delta_coeffs(),
                    ),
                forall|q: int| 0 <= q < k ==> (#[trigger] deltas@[q])@.len() == n - 1,
                forall|q: int, x: int|
                    0 <= q < k && 0 <= x < n - 1 ==> (#[trigger] deltas@[q]@[x]).sender_id
                        == current_shares@[q].participant_id && deltas@[q]@[x].recipient_id.0
                        == recipient_at(current_shares@[q].participant_id.0, x)
                        && deltas@[q]@[x].delta_share@ == poly_value(
                        rotations@[q].delta_coeffs(),
                        recipient_at(current_shares@[q].participant_id.0, x),
                    ) % (group_order() as int),
            decreases rotations@.len() - k,
        {
            let c = rotations[k].generate_commitments();
            assert(c.commitment@ =~= zero_blinded_commitment_of(rotations@[k as int].delta_coeffs()));
            commitments.push(c);
            deltas.push(rotations[k].generate_delta_shares());
            k = k + 1;
        }
        let mut new_shares: Vec<SecretShare> = Vec::new();
        let mut remaining = rotations;
        let ghost all = remaining@;
        let ghost total = remaining@.len();
        let ghost ds = Seq::new(n as nat, |q: int| all[q].delta_coeffs());
        let ghost l = group_order() as int;
        let mut taken: usize = 0;
        assert(all.subrange(0, total as int) =~= all);
        while remaining.len() > 0
            invariant
                n == self.count_spec(),
                current_shares@.len() == n,
                ordered == forall|i: int|
                    0 <= i < current_shares@.len() ==> (#[trigger] current_shares@[i]).participant_id.0
                        == i + 1,
                total == current_shares@.len(),
                all.len() == total,
                taken + remaining@.len() == total,
                new_shares@.len() == taken,
                remaining@ == all.subrange(taken as int, total as int),
                forall|q: int|
                    0 <= q < total ==> (#[trigger] all[q]).wf() && all[q].id()
                        == current_shares@[q].participant_id && all[q].count_spec() == n
                        && all[q].delta_coeffs().len() == self.threshold_spec() && all[q].delta_coeffs()[0]
                        == 0 && all[q].old_share() == current_shares@[q].value@,
                ds.len() == n,
                l == group_order() as int,
                forall|q: int| 0 <= q < n ==> (#[trigger] ds[q]) == all[q].delta_coeffs(),
                forall|q: int|
                    0 <= q < taken ==> (#[trigger] new_shares@[q]).participant_id
                        == current_shares@[q].participant_id,
                ordered ==> forall|q: int|
                    0 <= q < taken ==> (#[trigger] new_shares@[q]).value@ == (
                    current_shares@[q].value@ + share_sum(ds, q + 1, n as int)) % l,
                commitments@.len() == n,
                deltas@.len() == n,
                forall|q: int|
                    0 <= q < n ==> (#[trigger] commitments@[q]).sender_id == current_shares@[q].participant_id
                        && commitments@[q].commitment@ == zero_blinded_commitment_of(ds[q]),
                forall|q: int| 0 <= q < n ==> (#[trigger] deltas@[q])@.len() == n - 1,
                forall|q: int, x: int|
                    0 <= q < n && 0 <= x < n - 1 ==> (#[trigger] deltas@[q]@[x]).sender_id
                        == current_shares@[q].participant_id && deltas@[q]@[x].recipient_id.0
                        == recipient_at(current_shares@[q].participant_id.0, x)
                        && deltas@[q]@[x].delta_share@ == poly_value(
                        ds[q],
                        recipient_at(current_shares@[q].participant_id.0, x),
                    ) % l,
            decreases remaining@.len(),
        {
            let ghost before = remaining@;
            assert(before.len() > 0);
            assert(all.subrange(taken as int, total as int)[0] == all[taken as int]);
            let rotation = remaining.remove(0);
            assert(remaining@ == before.remove(0));
            assert(rotation == before[0]);
            let me = rotation.my_id;
            let ghost m = me.0 as int;
            assert(1 <= m <= n);
            let mut mine: Vec<RotationShare> = Vec::new();
            let mut a: usize = 0;
            while a < deltas.len()
                invariant
                    deltas@.len() == n,
                    current_shares@.len() == n,
                    ordered == forall|i: int|
                        0 <= i < current_shares@.len() ==> (#[trigger] current_shares@[i]).participant_id.0
                            == i + 1,
                    1 <= m <= n,
                    me.0 == m,
                    forall|q: int| 0 <= q < n ==> (#[trigger] deltas@[q])@.len() == n - 1,
                    forall|q: int, x: int|
                        0 <= q < n && 0 <= x < n - 1 ==> (#[trigger] deltas@[q]@[x]).sender_id
                            == current_shares@[q].participant_id && deltas@[q]@[x].recipient_id.0
                            == recipient_at(current_shares@[q].participant_id.0, x)
                            && deltas@[q]@[x].delta_share@ == poly_value(
                            ds[q],
                            recipient_at(current_shares@[q].participant_id.0, x),
                        ) % l,
                    l == group_order() as int,
                    ordered ==> delta_sum(mine@) % l == share_sum_except(ds, m, a as int, m - 1) % l,
                    ordered ==> forall|x: int|
                        0 <= x < mine@.len() ==> (#[trigger] mine@[x]).delta_share@ == poly_value(
                            ds[mine@[x].sender_id.0 - 1],
                            m,
                        ) % l,
                    a <= n,
                    ordered ==> mine@.len() == a - (if m <= a { 1int } else { 0int }),
                    ordered ==> forall|x: int|
                        0 <= x < mine@.len() ==> 1 <= (#[trigger] mine@[x]).sender_id.0 <= n,
                decreases n - a,
            {
                let batch = &deltas[a];
                let ghost s = (a + 1) as int;
                let ghost kstar = if m < s { m - 1 } else { m - 2 };
                let ghost base = mine@.len() as int;
                let ghost base_sum = share_sum_except(ds, m, a as int, m - 1);
                proof {
                    if ordered {
                        assert(current_shares@[a as int].participant_id.0 == s);
                    }
                }
                let mut b: usize = 0;
                while b < batch.len()
                    invariant
                        batch@ == deltas@[a as int]@,
                        batch@.len() == n - 1,
                        a < n,
                        s == a + 1,
                        1 <= m <= n,
                        me.0 == m,
                        kstar == if m < s { m - 1 } else { m - 2 },
                        ordered ==> forall|x: int|
                            0 <= x < n - 1 ==> (#[trigger] batch@[x]).sender_id.0 == s
                                && batch@[x].recipient_id.0 == recipient_at(s as u32, x)
                                && batch@[x].delta_share@ == poly_value(
                                ds[a as int],
                                recipient_at(s as u32, x),
                            ) % l,
                        l == group_order() as int,
                        ordered ==> forall|x: int|
                            0 <= x < mine@.len() ==> (#[trigger] mine@[x]).delta_share@ == poly_value(
                                ds[mine@[x].sender_id.0 - 1],
                                m,
                            ) % l,
                        ordered ==> delta_sum(mine@) % l == (base_sum + (if s != m && kstar < b {
                            poly_value(ds[a as int], m)
                        } else {
                            0
                        })) % l,
                        b <= batch@.len(),
                        ordered ==> mine@.len() == base + (if s != m && kstar < b { 1int } else { 0int }),
                        ordered ==> forall|x: int|
                            0 <= x < mine@.len() ==> 1 <= (#[trigger] mine@[x]).sender_id.0 <= n,
                    decreases batch@.len() - b,
                {
                    if batch[b].recipient_id == me {
                        let ghost before = mine@;
                        mine.push(batch[b].duplicate());
                        proof {
                            if ordered {
                                assert(batch@[b as int].recipient_id.0 == recipient_at(
                                    s as u32,
                                    b as int,
                                ));
                                assert(s != m && b == kstar);
                                assert(mine@.last().sender_id.0 - 1 == a);
                                assert(mine@.drop_last() =~= before);
                                let v = poly_value(ds[a as int], m);
                                assert(delta_sum(mine@) == delta_sum(before) + v % l);
                                lemma_mod_add_cong(delta_sum(before), base_sum, v);
                            }
                        }
                    } else {
                        proof {
                            if ordered {
                                assert(batch@[b as int].recipient_id.0 == recipient_at(
                                    s as u32,
                                    b as int,
                                ));
                                assert(!(s != m && b == kstar));
                            }
                        }
                    }
                    b = b + 1;
                }
                proof {
                    assert(share_sum_except(ds, m, a + 1, m - 1) == base_sum + if a == m - 1 {
                        0
                    } else {
                        poly_value(ds[a as int], m)
                    });
                }
                a = a + 1;
            }
            proof {
                if ordered {
                    assert forall|x: int| 0 <= x < mine@.len() implies has_committer(
                        commitments@,
                        (#[trigger] mine@[x]).sender_id,
                    ) by {
                        let q = mine@[x].sender_id.0 - 1;
                        assert(current_shares@[q].participant_id.0 == q + 1);
                        assert(commitments@[q].sender_id == mine@[x].sender_id);
                    }
                }
            }
            proof {
                if ordered {
                    assert(current_shares@[taken as int].participant_id.0 == taken + 1);
                    assert(m == taken + 1);
                    lemma_share_sum_split(ds, m, n as int, m - 1);
                    lemma_mod_add_cong(
                        delta_sum(mine@),
                        share_sum_except(ds, m, n as int, m - 1),
                        current_shares@[taken as int].value@ + poly_value(ds[m - 1], m),
                    );
                }
            }
            match rotation.finalize(mine.as_slice(), commitments.as_slice()) {
                Ok(share) => new_shares.push(share),
                Err(e) => {
                    proof {
                        if ordered {
                            let cs = commitments@;
                            let ss = mine@;
                            let kk = choose|kk: int|
                                0 <= kk < ss.len() && deltas_accepted_before(cs, ss, me, kk)
                                    && has_committer(cs, #[trigger] ss[kk].sender_id)
                                    && !delta_accepted(cs, ss[kk], me) && e
                                    == FrostError::CommitmentVerificationFailed(ss[kk].sender_id.0);
                            let q = ss[kk].sender_id.0 - 1;
                            assert(current_shares@[q].participant_id.0 == q + 1);
                            assert(cs[q].sender_id == ss[kk].sender_id);
                            assert forall|j: int| 0 <= j < q implies cs[j].sender_id
                                != ss[kk].sender_id by {
                                assert(current_shares@[j].participant_id.0 == j + 1);
                            }
                            assert(first_commitment_of(cs, q, ss[kk].sender_id));
                            let fp = ds[q];
                            let x = m as nat;
                            assert(fp.len() == self.threshold_spec() && fp[0] == 0 && 1 <= x
                                <= self.count_spec() && !honest_delta_check(fp, x));
                        }
                    }
                    return Err(e);
                },
            }
            taken = taken + 1;
            assert(remaining@ =~= all.subrange(taken as int, total as int));
        }
        assert(forall|j: int| 0 <= j < ds.len() ==> (#[trigger] ds[j]).len() == self.threshold_spec() && ds[j][0] == 0);
        Ok(new_shares)
    }
}

} // verus!
