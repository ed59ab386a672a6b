use frost_core::derived_key::{DerivedDeviceKey, DeviceAttestation, ManufacturingProvisioner};
use frost_core::dkg::DkgCoordinator;
use frost_core::session_token::{
    Capabilities, KeychainAccessLevel, SessionToken, SessionTokenCache, TokenRequest,
};
use frost_core::transcript::{verify_chain, DkgTranscript, RotationTranscript};
use frost_core::point::CompressedPoint;
use frost_core::scalar::Scalar;
use frost_core::hybrid::{finish_hybrid, HybridFROSTDevice};
use frost_core::signing::{check_partial_signatures, PartialSignature, SigningCommitment, SigningRound1};
use frost_core::types::{ParticipantId, SchnorrSignature};
use frost_core::wire;
use rand::rngs::StdRng;
use rand::SeedableRng;

const NOW: u64 = 1_704_196_800;

#[test]
fn test_dkg_transcript() {
    let transcript = DkgTranscript::new(1704196800, 2, 3, vec![]);
    assert!(transcript.verify());
}

#[test]
fn test_rotation_transcript() {
    let transcript = RotationTranscript::new(1704196800, [0u8; 32], vec![]);
    assert!(transcript.verify());
}

#[test]
fn altered_transcript_fails_and_breaks_chain() {
    let t0 = DkgTranscript::new(NOW, 2, 3, vec![vec![1, 2, 3], vec![4, 5]]);
    let t1 = RotationTranscript::new(NOW + 60, t0.transcript_hash, vec![vec![9; 40]]);
    let t2 = RotationTranscript::new(NOW + 120, t1.transcript_hash, vec![]);
    assert!(verify_chain(&t0, &[t1.clone(), t2.clone()]));

    let mut tampered = t1.clone();
    tampered.timestamp += 1;
    assert!(!tampered.verify());
    assert!(!verify_chain(&t0, &[tampered, t2.clone()]));

    let mut moved = t1.clone();
    moved.commitments = vec![vec![9; 39], vec![9]];
    assert!(!moved.verify());

    let altered_t0 = DkgTranscript::new(NOW, 2, 4, vec![vec![1, 2, 3], vec![4, 5]]);
    assert!(altered_t0.verify());
    assert_ne!(altered_t0.transcript_hash, t0.transcript_hash);
    assert!(!verify_chain(&altered_t0, &[t1, t2]));
}

#[test]
fn test_session_token_creation() {
    let token = SessionToken::new([1u8; 32], Capabilities::default(), 3600, NOW, [7u8; 16]);
    assert!(token.is_valid(NOW));
    assert!(token.time_until_expiry(NOW).is_some());
    assert_eq!(token.time_until_expiry(NOW + 600), Some(3000));
    assert_eq!(token.usage.use_count, 0);
    assert!(!token.is_valid(NOW + 3600));
    assert!(!token.is_valid(NOW - 1));
}

#[test]
fn test_token_capabilities() {
    let token = SessionToken::new([1u8; 32], Capabilities::default(), 3600, NOW, [7u8; 16]);
    assert!(token.allows_operation(&TokenRequest::DeviceUnlock, NOW));
    assert!(token.allows_operation(&TokenRequest::Payment { amount: 5000 }, NOW));
    assert!(!token.allows_operation(&TokenRequest::Payment { amount: 100_000 }, NOW));
    assert!(!token.allows_operation(&TokenRequest::CodeSigning, NOW));
}

#[test]
fn keychain_levels() {
    let mut caps = Capabilities::default();
    caps.keychain_access = KeychainAccessLevel::MediumSecurity;
    let token = SessionToken::new([1u8; 32], caps, 3600, NOW, [7u8; 16]);
    let low = TokenRequest::KeychainAccess { level: KeychainAccessLevel::LowSecurity };
    let high = TokenRequest::KeychainAccess { level: KeychainAccessLevel::HighSecurity };
    assert!(token.allows_operation(&low, NOW));
    assert!(!token.allows_operation(&high, NOW));
    assert_eq!(low.describe(), "KeychainAccess { level: LowSecurity }");
    assert_eq!(TokenRequest::Payment { amount: 5000 }.describe(), "Payment { amount: 5000 }");
}

#[test]
fn test_token_cache() {
    let mut cache = SessionTokenCache::new(10);
    for i in 0..5u8 {
        let token = SessionToken::new([1u8; 32], Capabilities::default(), 3600, NOW, [i; 16]);
        cache.add_token(token, NOW).unwrap();
    }
    assert_eq!(cache.token_count(), 5);
    let token = cache.get_valid_token(&TokenRequest::DeviceUnlock, NOW);
    assert!(token.is_some());
}

#[test]
fn cache_evicts_oldest_and_expired() {
    let mut cache = SessionTokenCache::new(2);
    cache.add_token(SessionToken::new([1u8; 32], Capabilities::default(), 100, NOW, [1; 16]), NOW).unwrap();
    cache.add_token(SessionToken::new([1u8; 32], Capabilities::default(), 900, NOW + 1, [2; 16]), NOW + 1).unwrap();
    cache.add_token(SessionToken::new([1u8; 32], Capabilities::default(), 500, NOW + 2, [3; 16]), NOW + 2).unwrap();
    assert_eq!(cache.token_count(), 2);
    assert_eq!(cache.token(0).token_id, [2; 16]);
    let best = cache.get_valid_token(&TokenRequest::DeviceUnlock, NOW + 3).unwrap();
    assert_eq!(cache.token(best).token_id, [2; 16]);
    assert!(cache.needs_refresh(NOW + 3));
    assert!(cache.get_valid_token(&TokenRequest::DeviceUnlock, NOW + 10_000).is_none());
    assert_eq!(cache.token_count(), 0);
}

#[test]
fn test_payment_limits() {
    let mut token = SessionToken::new([1u8; 32], Capabilities::default(), 3600, NOW, [7u8; 16]);
    assert!(token.allows_operation(&TokenRequest::Payment { amount: 5000 }, NOW));
    let _ = token.use_for_operation(TokenRequest::Payment { amount: 5000 }, NOW);
    if let Some(limits) = &token.capabilities.payment_limits {
        assert_eq!(limits.remaining_today, 45_000);
    }
    assert_eq!(token.usage.use_count, 1);
    assert_eq!(token.usage.operations[0].operation, "Payment { amount: 5000 }");
    assert!(token.use_for_operation(TokenRequest::CodeSigning, NOW).is_err());
}

fn attestation(id: [u8; 32]) -> DeviceAttestation {
    DeviceAttestation { firmware_hash: [0u8; 32], hardware_id: id, tamper_status: 0, boot_measurements: vec![] }
}

#[test]
fn test_derived_key_signing() {
    let mut rng = StdRng::from_seed([42u8; 32]);
    let outputs = DkgCoordinator::new(2, 3).unwrap().run_dkg(&mut rng).unwrap();
    let device_id = [42u8; 32];
    let key = DerivedDeviceKey::derive_from_dkg(device_id, &outputs[0], vec![], attestation(device_id), NOW).unwrap();
    let message = b"Test message for derived key signing";
    let signature = key.sign(message, &mut rng).unwrap();
    assert!(key.verify(message, &signature));
    assert!(!key.verify(b"another message", &signature));
}

#[test]
fn test_unique_keys_per_device() {
    let mut rng = StdRng::from_seed([32u8; 32]);
    let outputs = DkgCoordinator::new(2, 3).unwrap().run_dkg(&mut rng).unwrap();
    let k1 = DerivedDeviceKey::derive_from_dkg([1u8; 32], &outputs[0], vec![], attestation([1u8; 32]), NOW).unwrap();
    let k2 = DerivedDeviceKey::derive_from_dkg([2u8; 32], &outputs[0], vec![], attestation([2u8; 32]), NOW).unwrap();
    assert_ne!(k1.master_public.public_key, k2.master_public.public_key);
}

#[test]
fn test_rekey() {
    let mut rng = StdRng::from_seed([42u8; 32]);
    let outputs1 = DkgCoordinator::new(2, 3).unwrap().run_dkg(&mut rng).unwrap();
    let device_id = [42u8; 32];
    let mut key = DerivedDeviceKey::derive_from_dkg(device_id, &outputs1[0], vec![], attestation(device_id), NOW).unwrap();
    let old_public = key.master_public.public_key;
    assert_eq!(key.version, 1);
    let outputs2 = DkgCoordinator::new(2, 3).unwrap().run_dkg(&mut rng).unwrap();
    key.rekey(&outputs2[0], vec![], attestation(device_id), NOW + 5).unwrap();
    assert_eq!(key.version, 2);
    assert_ne!(old_public, key.master_public.public_key);
}

#[test]
fn provisioning_yields_version_one() {
    let p = ManufacturingProvisioner::new([5u8; 32], vec![]);
    let key = p.provision_device(&mut StdRng::from_seed([6u8; 32]), NOW).unwrap();
    assert_eq!(key.version, 1);
    assert!(!key.verify_derivation_proof());
}

#[test]
fn wire_encodings_round_trip() {





    let p = PartialSignature { participant_id: ParticipantId(258), z: Scalar::from_u64(7) };
    let bytes = wire::encode_partial_signature(&p);
    assert_eq!(bytes.len(), 36);
    assert_eq!(&bytes[..5], &[2, 1, 0, 0, 7]);
    let back = wire::decode_partial_signature(&bytes).unwrap();
    assert_eq!(back.participant_id, ParticipantId(258));
    assert_eq!(back.z, Scalar::from_u64(7));
    let sig = SchnorrSignature { z: Scalar::from_u64(9).to_bytes(), commitment: CompressedPoint::basepoint() };
    let enc = wire::encode_signature(&sig);
    assert_eq!(&enc[..32], &CompressedPoint::basepoint().to_bytes());
    assert_eq!(wire::decode_signature(&enc).unwrap().z, sig.z);
    let mut bad = enc.clone();
    for b in bad[32..].iter_mut() {
        *b = 0xff;
    }
    assert!(matches!(wire::decode_signature(&bad), Err(frost_core::FrostError::CryptoError(_))));
    assert!(matches!(wire::decode_signature(&enc[..10]), Err(frost_core::FrostError::SerializationError(_))));
    let c = SigningCommitment {
        participant_id: ParticipantId(1),
        hiding: CompressedPoint::basepoint(),
        binding: CompressedPoint::identity(),
    };
    assert_eq!(wire::encode_signing_commitment(&c).len(), 68);
}

#[test]
fn decimal_digits() {
    assert_eq!(TokenRequest::Payment { amount: 0 }.describe(), "Payment { amount: 0 }");
    assert_eq!(
        TokenRequest::Payment { amount: u64::MAX }.describe(),
        "Payment { amount: 18446744073709551615 }"
    );
}

#[test]
fn hybrid_finish_and_offline_paths() {
    let mut rng = StdRng::from_seed([77u8; 32]);
    let outs = DkgCoordinator::new(2, 3).unwrap().run_dkg(&mut rng).unwrap();
    let gpk = outs[0].group_public_key.clone();
    let message = b"hybrid message";
    let local = SigningRound1::new(outs[0].participant_id, &outs[0].secret_share, &mut rng);
    let remote = SigningRound1::new(outs[1].participant_id, &outs[1].secret_share, &mut rng);
    let commitments = vec![local.commitment(), remote.commitment()];
    let remote_c = remote.commitment();
    let remote_partial = remote
        .into_round2(message, &commitments, &gpk.public_key)
        .unwrap()
        .partial_signature();
    let sig = finish_hybrid(local, remote_c, remote_partial, message, &gpk).unwrap();
    assert!(gpk.verify_signature(message, &sig));

    let local = SigningRound1::new(outs[0].participant_id, &outs[0].secret_share, &mut rng);
    let mut same_id = remote_partial;
    same_id.participant_id = outs[0].participant_id;
    assert!(matches!(
        finish_hybrid(local, remote_c, same_id, message, &gpk),
        Err(frost_core::FrostError::AggregationFailed)
    ));

    let mut device = HybridFROSTDevice::new(Some(outs[0].secret_share.duplicate()), gpk.clone(), vec![]);
    assert!(device.sign_offline(message, NOW, &mut rng).is_err());
    device.set_allow_degraded(true);
    let degraded = device.sign_offline(message, NOW, &mut rng).unwrap();
    assert!(!gpk.verify_signature(message, &degraded));
    device.add_token(SessionToken::new([1u8; 32], Capabilities::default(), 3600, NOW, [3; 16]), NOW).unwrap();
    let via_token = device.sign_offline(message, NOW, &mut rng).unwrap();
    assert_eq!(via_token.commitment.to_bytes(), [0u8; 32]);
}

#[test]
fn partial_check_errors() {
    let mut rng = StdRng::from_seed([78u8; 32]);
    let outs = DkgCoordinator::new(2, 3).unwrap().run_dkg(&mut rng).unwrap();
    let gpk = &outs[0].group_public_key;
    let r1 = SigningRound1::new(outs[0].participant_id, &outs[0].secret_share, &mut rng);
    let c = r1.commitment();
    let r2 = r1.into_round2(b"m", &[c], &gpk.public_key).unwrap();
    let p = r2.partial_signature();
    let stranger = PartialSignature { participant_id: ParticipantId(9), z: Scalar::one() };
    assert!(matches!(
        check_partial_signatures(b"m", &[c], &[stranger], gpk, &r2.group_commitment()),
        Err(frost_core::FrostError::InvalidParticipantIndex(9))
    ));
    let mut broken = c;
    broken.hiding = CompressedPoint::from_bytes([0xff; 32]);
    assert!(matches!(
        check_partial_signatures(b"m", &[broken], &[p], gpk, &r2.group_commitment()),
        Err(frost_core::FrostError::CryptoError(_))
    ));
}

#[test]
fn puf_placeholders() {
    let mut rng = StdRng::from_seed([79u8; 32]);
    let outs = DkgCoordinator::new(2, 3).unwrap().run_dkg(&mut rng).unwrap();
    let key = DerivedDeviceKey::derive_from_dkg([4u8; 32], &outs[0], vec![], attestation([4u8; 32]), NOW).unwrap();
    assert_eq!(key.encrypt_to_puf(&[0u8; 32]).len(), 32);
    assert!(DerivedDeviceKey::decrypt_from_puf(&[], &[0u8; 32], [4u8; 32]).is_err());
}
