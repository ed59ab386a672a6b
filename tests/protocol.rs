use frost_core::dkg::{DkgCoordinator, DkgOutput, DkgParticipant};
use frost_core::point::CompressedPoint;
use frost_core::rotation::{RotationCoordinator, ShareRotation};
use frost_core::scalar::{Scalar, SecretScalar};
use frost_core::signing::{
    aggregate_signatures, check_partial_signatures, compute_lagrange_coefficient, PartialSignature,
    SigningCommitment, SigningRound1,
};
use frost_core::types::{ParticipantId, PedersenCommitment, Polynomial, SchnorrSignature, SecretShare};
use frost_core::FrostError;
use rand::rngs::StdRng;
use rand::{RngCore, SeedableRng};

fn seeded(byte: u8) -> StdRng {
    StdRng::from_seed([byte; 32])
}

fn sign_with(
    outputs: &[DkgOutput],
    shares: &[&SecretShare],
    message: &[u8],
    rng: &mut StdRng,
) -> (SchnorrSignature, Vec<PartialSignature>, Vec<SigningCommitment>, CompressedPoint) {
    let pk = outputs[0].group_public_key.public_key;
    let mut round1 = Vec::new();
    let mut commitments = Vec::new();
    for share in shares {
        let r1 = SigningRound1::new(share.participant_id, share, rng);
        commitments.push(r1.commitment());
        round1.push(r1);
    }
    let mut partials = Vec::new();
    let mut group_commitment = None;
    for r1 in round1 {
        let r2 = r1.into_round2(message, &commitments, &pk).unwrap();
        if group_commitment.is_none() {
            group_commitment = Some(r2.group_commitment());
        }
        partials.push(r2.partial_signature());
    }
    let r = group_commitment.unwrap();
    let sig = aggregate_signatures(message, &r, &partials).unwrap();
    (sig, partials, commitments, r)
}

#[test]
fn test_participant_id() {
    assert!(ParticipantId::new(0).is_none());
    assert!(ParticipantId::new(1).is_some());
    assert_eq!(ParticipantId::new(5).unwrap().as_u32(), 5);
}

#[test]
fn test_polynomial_evaluation() {
    let poly = Polynomial::new(vec![Scalar::from_u64(3), Scalar::from_u64(2), Scalar::from_u64(1)]);
    assert_eq!(poly.evaluate(&Scalar::zero()), Scalar::from_u64(3));
    assert_eq!(poly.evaluate(&Scalar::one()), Scalar::from_u64(6));
    assert_eq!(poly.evaluate(&Scalar::from_u64(2)), Scalar::from_u64(11));
}

#[test]
fn polynomial_fixture_at_three() {
    let poly = Polynomial::new(vec![Scalar::from_u64(3), Scalar::from_u64(2), Scalar::from_u64(1)]);
    assert_eq!(poly.evaluate(&Scalar::from_u64(3)), Scalar::from_u64(18));
    let empty = Polynomial::new(vec![]);
    assert_eq!(empty.evaluate(&Scalar::from_u64(7)), Scalar::zero());
}

#[test]
fn test_polynomial_random() {
    let mut rng = seeded(42);
    let constant = Scalar::from_u64(42);
    let poly = Polynomial::random(2, constant, &mut rng);
    assert_eq!(poly.degree(), 2);
    assert_eq!(poly.evaluate(&Scalar::zero()), constant);
}

#[test]
fn test_pedersen_commitment() {
    let mut rng = seeded(42);
    let g = CompressedPoint::basepoint();
    let mut wide = [0u8; 64];
    rng.fill_bytes(&mut wide);
    let h = CompressedPoint::from_uniform_bytes(&wide);
    let f = Polynomial::random(1, Scalar::from_u64(42), &mut rng);
    let g_poly = Polynomial::random(1, Scalar::random(&mut rng), &mut rng);
    let commitment = PedersenCommitment::new(&f, &g_poly, &g, &h);
    let id = ParticipantId::new(1).unwrap();
    let share = f.evaluate(&id.as_scalar());
    let blinding = g_poly.evaluate(&id.as_scalar());
    assert!(commitment.verify_share(id, &share, &blinding, &g, &h));
}

#[test]
fn pedersen_share_with_flipped_bit_fails() {
    let mut rng = seeded(7);
    let g = CompressedPoint::basepoint();
    let h = frost_core::dkg::pedersen_h_generator();
    let f = Polynomial::random(2, Scalar::random(&mut rng), &mut rng);
    let b = Polynomial::random(2, Scalar::random(&mut rng), &mut rng);
    let commitment = PedersenCommitment::new(&f, &b, &g, &h);
    let id = ParticipantId::new(2).unwrap();
    let share = f.evaluate(&id.as_scalar());
    let blinding = b.evaluate(&id.as_scalar());
    assert!(commitment.verify_share(id, &share, &blinding, &g, &h));
    let mut bytes = share.to_bytes();
    bytes[0] ^= 1;
    let bad = Scalar::from_bytes_mod_order(bytes);
    assert!(!commitment.verify_share(id, &bad, &blinding, &g, &h));
    let mut bytes = blinding.to_bytes();
    bytes[5] ^= 0x10;
    let bad_blinding = Scalar::from_bytes_mod_order(bytes);
    assert!(!commitment.verify_share(id, &share, &bad_blinding, &g, &h));
    let mut altered = commitment.clone();
    let other = altered.commitments[1].add(&g);
    altered.commitments[1] = other;
    assert!(!altered.verify_share(id, &share, &blinding, &g, &h));
}

#[test]
fn test_dkg_simple() {
    let mut rng = seeded(1);
    let coordinator = DkgCoordinator::new(2, 3).unwrap();
    let outputs = coordinator.run_dkg(&mut rng).unwrap();
    assert_eq!(outputs.len(), 3);
    let pk = &outputs[0].group_public_key.public_key;
    assert!(outputs.iter().all(|o| &o.group_public_key.public_key == pk));
    assert!(outputs.iter().all(|o| o.group_public_key.threshold == 2));
}

#[test]
fn test_dkg_invalid_threshold() {
    assert!(DkgCoordinator::new(0, 3).is_err());
    assert!(DkgCoordinator::new(4, 3).is_err());
}

#[test]
fn test_full_signing_protocol() {
    let mut rng = seeded(3);
    let coordinator = DkgCoordinator::new(2, 3).unwrap();
    let outputs = coordinator.run_dkg(&mut rng).unwrap();
    let message = b"Hello, FROST!";
    let shares: Vec<&SecretShare> = outputs.iter().take(2).map(|o| &o.secret_share).collect();
    let (signature, _, _, _) = sign_with(&outputs, &shares, message, &mut rng);
    assert!(outputs[0].group_public_key.verify_signature(message, &signature));
}

#[test]
fn test_lagrange_coefficient() {
    let p1 = ParticipantId::new(1).unwrap();
    let p2 = ParticipantId::new(2).unwrap();
    let participants = vec![p1, p2];
    let lambda1 = compute_lagrange_coefficient(p1, &participants);
    assert_eq!(lambda1, Scalar::from_u64(2));
    let lambda2 = compute_lagrange_coefficient(p2, &participants);
    assert_eq!(lambda2, Scalar::one().neg());
}

#[test]
fn lagrange_over_one_and_three() {
    let p1 = ParticipantId::new(1).unwrap();
    let p3 = ParticipantId::new(3).unwrap();
    let set = vec![p1, p3];
    let half = Scalar::from_u64(2).invert();
    assert_eq!(compute_lagrange_coefficient(p1, &set), Scalar::from_u64(3).mul(&half));
    assert_eq!(compute_lagrange_coefficient(p3, &set), half.neg());
}

#[test]
fn test_share_rotation() {
    let mut rng = seeded(5);
    let dkg = DkgCoordinator::new(2, 3).unwrap();
    let outputs = dkg.run_dkg(&mut rng).unwrap();
    let initial_pk = outputs[0].group_public_key.public_key;
    let initial: Vec<SecretShare> = outputs.iter().map(|o| o.secret_share.duplicate()).collect();
    let message1 = b"Message before rotation";
    let first_two: Vec<&SecretShare> = initial.iter().take(2).collect();
    let (sig1, _, _, _) = sign_with(&outputs, &first_two, message1, &mut rng);
    assert!(sig1.verify(message1, &initial_pk));
    let rotation = RotationCoordinator::new(2, 3).unwrap();
    let new_shares = rotation.run_rotation(&initial, &mut rng).unwrap();
    assert_ne!(initial[0].value.as_scalar(), new_shares[0].value.as_scalar());
    let message2 = b"Message after rotation";
    let rotated: Vec<&SecretShare> = new_shares.iter().take(2).collect();
    let (sig2, _, _, _) = sign_with(&outputs, &rotated, message2, &mut rng);
    assert!(sig2.verify(message2, &initial_pk));
}

#[test]
fn cheater_is_identified() {
    let mut rng = seeded(9);
    let outputs = DkgCoordinator::new(2, 3).unwrap().run_dkg(&mut rng).unwrap();
    let message = b"Hello, FROST!";
    let shares: Vec<&SecretShare> = outputs.iter().take(2).map(|o| &o.secret_share).collect();
    let (_, mut partials, commitments, r) = sign_with(&outputs, &shares, message, &mut rng);
    let key = &outputs[0].group_public_key;
    assert!(check_partial_signatures(message, &commitments, &partials, key, &r).is_ok());
    let mut bytes = partials[0].z.to_bytes();
    bytes[3] ^= 0x01;
    partials[0].z = Scalar::from_bytes_mod_order(bytes);
    match check_partial_signatures(message, &commitments, &partials, key, &r) {
        Err(FrostError::InvalidSignatureShare(1)) => {}
        other => panic!("unexpected {:?}", other),
    }
}

#[test]
fn aggregation_rejects_duplicates_and_empty() {
    let r = CompressedPoint::basepoint();
    let p = PartialSignature { participant_id: ParticipantId(1), z: Scalar::one() };
    assert!(matches!(aggregate_signatures(b"m", &r, &[p, p]), Err(FrostError::AggregationFailed)));
    assert!(matches!(aggregate_signatures(b"m", &r, &[]), Err(FrostError::AggregationFailed)));
}

#[test]
fn noncanonical_scalar_is_rejected() {
    let bytes = [0xffu8; 32];
    assert!(Scalar::from_canonical_bytes(bytes).is_none());
    let sig = SchnorrSignature { z: bytes, commitment: CompressedPoint::basepoint() };
    assert!(!sig.verify(b"m", &CompressedPoint::basepoint()));
}

fn all_pairs_sign(outputs: &[DkgOutput], message: &[u8], rng: &mut StdRng) {
    let pairs = [(0usize, 1usize), (1, 2), (0, 2)];
    for (a, b) in pairs {
        let shares = vec![&outputs[a].secret_share, &outputs[b].secret_share];
        let (sig, _, _, _) = sign_with(outputs, &shares, message, rng);
        assert!(outputs[0].group_public_key.verify_signature(message, &sig));
    }
}

#[test]
fn dkg_two_of_three_seeded_is_reproducible_and_signs() {
    let run = |seed: u8| DkgCoordinator::new(2, 3).unwrap().run_dkg(&mut seeded(seed)).unwrap();
    let first = run(1);
    let second = run(1);
    for i in 0..3 {
        assert_eq!(first[i].group_public_key.public_key, second[i].group_public_key.public_key);
        for q in 0..3 {
            assert_eq!(
                first[i].group_public_key.participant_shares[q].public_key,
                second[0].group_public_key.participant_shares[q].public_key
            );
        }
    }
    let mut rng = seeded(2);
    all_pairs_sign(&first, b"Hello, FROST!", &mut rng);
}

#[test]
fn verification_shares_match_secret_shares() {
    let outputs = DkgCoordinator::new(2, 3).unwrap().run_dkg(&mut seeded(11)).unwrap();
    let g = CompressedPoint::basepoint();
    for (i, o) in outputs.iter().enumerate() {
        let y = g.scale(o.secret_share.value.as_scalar());
        assert_eq!(o.group_public_key.participant_shares[i].public_key, y);
    }
}

#[test]
fn threshold_one_signs() {
    let outputs = DkgCoordinator::new(1, 3).unwrap().run_dkg(&mut seeded(12)).unwrap();
    let mut rng = seeded(13);
    for o in &outputs {
        let (sig, _, _, _) = sign_with(&outputs, &[&o.secret_share], b"solo", &mut rng);
        assert!(outputs[0].group_public_key.verify_signature(b"solo", &sig));
    }
}

#[test]
fn threshold_equal_to_count_signs() {
    let outputs = DkgCoordinator::new(3, 3).unwrap().run_dkg(&mut seeded(14)).unwrap();
    let mut rng = seeded(15);
    let shares: Vec<&SecretShare> = outputs.iter().map(|o| &o.secret_share).collect();
    let (sig, _, _, _) = sign_with(&outputs, &shares, b"all three", &mut rng);
    assert!(outputs[0].group_public_key.verify_signature(b"all three", &sig));
    let two: Vec<&SecretShare> = outputs.iter().take(2).map(|o| &o.secret_share).collect();
    let (bad, _, _, _) = sign_with(&outputs, &two, b"all three", &mut rng);
    assert!(!outputs[0].group_public_key.verify_signature(b"all three", &bad));
}

#[test]
fn rotation_preserves_key_and_changes_shares() {
    let mut rng = seeded(21);
    let outputs = DkgCoordinator::new(2, 3).unwrap().run_dkg(&mut rng).unwrap();
    let pk = outputs[0].group_public_key.public_key;
    let old: Vec<SecretShare> = outputs.iter().map(|o| o.secret_share.duplicate()).collect();
    let new = RotationCoordinator::new(2, 3).unwrap().run_rotation(&old, &mut seeded(22)).unwrap();
    for i in 0..3 {
        assert_ne!(old[i].value.as_scalar(), new[i].value.as_scalar());
    }
    assert_eq!(outputs[0].group_public_key.public_key, pk);
    let pair = vec![&new[0], &new[2]];
    let (sig, _, _, _) = sign_with(&outputs, &pair, b"Message after rotation", &mut rng);
    assert!(sig.verify(b"Message after rotation", &pk));
    let mixed = vec![&old[0], &new[1]];
    let (bad, _, _, _) = sign_with(&outputs, &mixed, b"mixed", &mut rng);
    assert!(!bad.verify(b"mixed", &pk));
}

#[test]
fn aggregation_ignores_order() {
    let mut rng = seeded(31);
    let outputs = DkgCoordinator::new(3, 3).unwrap().run_dkg(&mut rng).unwrap();
    let shares: Vec<&SecretShare> = outputs.iter().map(|o| &o.secret_share).collect();
    let (sig, partials, _, r) = sign_with(&outputs, &shares, b"order", &mut rng);
    let reversed: Vec<PartialSignature> = partials.iter().rev().cloned().collect();
    let again = aggregate_signatures(b"order", &r, &reversed).unwrap();
    assert_eq!(sig.z, again.z);
    assert_eq!(sig.commitment, again.commitment);
}

#[test]
fn zero_share_is_accepted() {
    let g = CompressedPoint::basepoint();
    let h = frost_core::dkg::pedersen_h_generator();
    let f = Polynomial::new(vec![Scalar::zero(), Scalar::zero()]);
    let b = Polynomial::new(vec![Scalar::zero(), Scalar::zero()]);
    let c = PedersenCommitment::new(&f, &b, &g, &h);
    assert!(c.verify_share(ParticipantId(1), &Scalar::zero(), &Scalar::zero(), &g, &h));
}

#[test]
fn dkg_participant_rejects_bad_parameters() {
    let mut rng = seeded(41);
    assert!(matches!(
        DkgParticipant::new(ParticipantId(1), 0, 3, &mut rng),
        Err(FrostError::InvalidThreshold(0, 3))
    ));
    assert!(matches!(
        DkgParticipant::new(ParticipantId(4), 2, 3, &mut rng),
        Err(FrostError::InvalidParticipantIndex(4))
    ));
    let p = DkgParticipant::new(ParticipantId(1), 2, 3, &mut rng).unwrap();
    assert!(matches!(p.finalize(&[], &[]), Err(FrostError::InsufficientParticipants(0, 3))));
}

#[test]
fn dkg_detects_tampered_share() {
    let mut rng = seeded(42);
    let ps: Vec<DkgParticipant> =
        (1..=3).map(|i| DkgParticipant::new(ParticipantId(i), 2, 3, &mut rng).unwrap()).collect();
    let bs: Vec<_> = ps.iter().map(|p| p.round1_broadcast()).collect();
    let mut to_one = Vec::new();
    for p in &ps[1..] {
        for m in p.round2_secret_shares() {
            if m.recipient_id == ParticipantId(1) {
                to_one.push(m);
            }
        }
    }
    assert!(ps[0].finalize(&bs, &to_one).is_ok());
    let bumped = to_one[1].secret_share.as_scalar().add(&Scalar::one());
    to_one[1].secret_share = SecretScalar::new(bumped);
    assert!(matches!(
        ps[0].finalize(&bs, &to_one),
        Err(FrostError::CommitmentVerificationFailed(3))
    ));
}

#[test]
fn undecodable_nonce_commitment_is_a_crypto_error() {
    let p = ParticipantId(1);
    let bad = SigningCommitment {
        participant_id: p,
        hiding: CompressedPoint::from_bytes([0xff; 32]),
        binding: CompressedPoint::basepoint(),
    };
    assert!(matches!(
        frost_core::signing::compute_group_commitment(b"m", &[bad]),
        Err(FrostError::CryptoError(_))
    ));
}

fn interpolate_at_zero(coeffs: &[u64], ids: &[u32]) -> Scalar {
    let poly = Polynomial::new(coeffs.iter().map(|c| Scalar::from_u64(*c)).collect());
    let set: Vec<ParticipantId> = ids.iter().map(|i| ParticipantId(*i)).collect();
    let mut acc = Scalar::zero();
    for p in &set {
        let lambda = compute_lagrange_coefficient(*p, &set);
        acc = acc.add(&lambda.mul(&poly.evaluate(&p.as_scalar())));
    }
    acc
}

#[test]
fn lagrange_recovers_constant_term() {
    assert_eq!(interpolate_at_zero(&[3, 2, 1], &[1, 2, 3]), Scalar::from_u64(3));
    assert_eq!(interpolate_at_zero(&[7, 4], &[2, 5]), Scalar::from_u64(7));
    assert_eq!(interpolate_at_zero(&[11, 0, 5, 9], &[1, 4, 6, 9]), Scalar::from_u64(11));
    assert_eq!(interpolate_at_zero(&[42], &[8]), Scalar::from_u64(42));
}

#[test]
fn noncanonical_share_encoding_is_a_crypto_error() {
    let mut bytes = vec![1u8, 0, 0, 0];
    bytes.extend_from_slice(&[0xff; 32]);
    bytes.extend_from_slice(&[0u8; 32]);
    assert!(matches!(SecretShare::from_bytes(&bytes), Err(FrostError::CryptoError(_))));
    assert!(matches!(SecretShare::from_bytes(&bytes[..10]), Err(FrostError::SerializationError(_))));
}

#[test]
fn rotation_detects_tampered_delta() {
    let mut rng = seeded(51);
    let outputs = DkgCoordinator::new(2, 3).unwrap().run_dkg(&mut rng).unwrap();
    let make = |rng: &mut StdRng| -> Vec<ShareRotation> {
        outputs
            .iter()
            .map(|o| ShareRotation::new(o.participant_id, &o.secret_share, 2, 3, rng).unwrap())
            .collect()
    };
    let rotations = make(&mut rng);
    let commitments: Vec<_> = rotations.iter().map(|r| r.generate_commitments()).collect();
    let mut to_one = Vec::new();
    for r in &rotations[1..] {
        for s in r.generate_delta_shares() {
            if s.recipient_id == ParticipantId(1) {
                to_one.push(s);
            }
        }
    }
    let bumped = to_one[0].delta_share.as_scalar().add(&Scalar::one());
    to_one[0].delta_share = SecretScalar::new(bumped);
    let mut it = rotations.into_iter();
    let first = it.next().unwrap();
    assert!(matches!(
        first.finalize(&to_one, &commitments),
        Err(FrostError::CommitmentVerificationFailed(2))
    ));
    let again = make(&mut rng).into_iter().next().unwrap();
    assert!(matches!(again.finalize(&[], &commitments), Err(FrostError::InsufficientParticipants(0, 2))));
    assert!(matches!(
        ShareRotation::new(ParticipantId(1), &outputs[0].secret_share, 4, 3, &mut rng),
        Err(FrostError::InvalidThreshold(4, 3))
    ));
}
