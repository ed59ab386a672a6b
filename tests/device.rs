use frost_core::hardware::{FeitianHSM, FeitianInterface, GigaDeviceGD32, HardwareError, SecureMemory};
use frost_core::hybrid::{HybridFROSTDevice, RemoteShareEndpoint, SigningMode};
use frost_core::memory::MemoryGuard;
use frost_core::scalar::{Scalar, SecretScalar};
use frost_core::dkg::DkgCoordinator;
use frost_core::types::{ParticipantId, SecretShare};
use rand::SeedableRng;
use frost_core::point::CompressedPoint;
use frost_core::FrostError;

#[test]
fn test_basic_imports() {
    let _ = FrostError::InvalidThreshold(2, 3);
}

#[test]
fn test_errors() {
    let err = HardwareError::NotInitialized;
    assert_eq!(err.message(), "Hardware not initialized");
}

#[test]
fn test_constant_time_eq() {
    let a = b"secret";
    let b = b"secret";
    let c = b"public";
    assert!(MemoryGuard::constant_time_eq(a, b));
    assert!(!MemoryGuard::constant_time_eq(a, c));
}

#[test]
fn constant_time_eq_length_mismatch() {
    assert!(!MemoryGuard::constant_time_eq(b"abc", b"abcd"));
    assert!(MemoryGuard::constant_time_eq(b"", b""));
}

#[test]
fn sanitize_hides_hex_digits() {
    assert_eq!(MemoryGuard::sanitize_debug_output("key=0xDEADbeef, zz"), "k*y=*x********, zz");
}

#[test]
fn test_signing_mode_security() {
    assert_eq!(SigningMode::FullDistributed.security_level(), 5);
    assert_eq!(SigningMode::Hybrid.security_level(), 4);
    assert_eq!(SigningMode::SessionToken.security_level(), 4);
    assert_eq!(SigningMode::DegradedLocal.security_level(), 2);
}

#[test]
fn signing_mode_latency() {
    assert_eq!(SigningMode::FullDistributed.typical_latency_ms(), 500);
    assert_eq!(SigningMode::DegradedLocal.typical_latency_ms(), 50);
    assert_eq!(SigningMode::SessionToken.description(), "Offline with pre-signed token");
}

#[test]
fn test_secure_memory() {
    let mut mem = SecureMemory::new(32);
    let data = b"secret data";
    mem.copy_from(data).unwrap();
    assert_eq!(&mem.as_ref()[..data.len()], data);
}

#[test]
fn secure_memory_refuses_oversized_data() {
    let mut mem = SecureMemory::new(4);
    assert!(matches!(mem.copy_from(b"too long"), Err(HardwareError::InvalidParameter(_))));
}

fn sample_share(id: u32) -> SecretShare {
    SecretShare {
        participant_id: ParticipantId(id),
        value: SecretScalar::new(Scalar::from_u64(1234)),
        blinding: SecretScalar::new(Scalar::zero()),
    }
}

#[test]
fn test_feitian_init() {
    let mut hsm = FeitianHSM::new(FeitianInterface::USB);
    assert!(hsm.element.initialize().is_ok());
    let info = hsm.get_info();
    assert_eq!(info.manufacturer, "Feitian Technologies");
}

#[test]
fn test_gd32_init() {
    let mut se = GigaDeviceGD32::new();
    assert!(se.element.initialize().is_ok());
    let info = se.get_info();
    assert_eq!(info.manufacturer, "GigaDevice");
    assert!(info.features.has_trustzone);
}

#[test]
fn element_store_load_delete() {
    let mut se = GigaDeviceGD32::new();
    let share = sample_share(2);
    assert!(matches!(se.element.store_share("s", &share), Err(HardwareError::NotInitialized)));
    se.element.initialize().unwrap();
    se.element.store_share("s", &share).unwrap();
    let back = se.element.load_share("s").unwrap();
    assert_eq!(back.participant_id, ParticipantId(2));
    assert_eq!(*back.value.as_scalar(), Scalar::from_u64(1234));
    se.element.delete_share("s").unwrap();
    assert!(matches!(se.element.load_share("s"), Err(HardwareError::StorageError(_))));
}

#[test]
fn test_hybrid_device_creation() {
    let mut rng = rand::rngs::StdRng::from_seed([0u8; 32]);
    let coordinator = DkgCoordinator::new(2, 3).unwrap();
    let dkg_outputs = coordinator.run_dkg(&mut rng).unwrap();
    let local_share = dkg_outputs[0].secret_share.duplicate();
    let group_pk = dkg_outputs[0].group_public_key.clone();
    let remote_shares = vec![RemoteShareEndpoint {
        participant_id: ParticipantId::new(2).unwrap(),
        location: "Zürich, CH".to_string(),
        operator: "Securosys".to_string(),
        endpoint_url: "https://frost.securosys.ch:8443".to_string(),
        cert_fingerprint: [0u8; 32],
        available: true,
        avg_response_time: 200,
    }];
    let device = HybridFROSTDevice::new(Some(local_share), group_pk, remote_shares);
    assert_eq!(device.get_current_mode(0), SigningMode::Hybrid);
}

#[test]
fn secure_memory_wipe_empties_buffer() {
    let mut mem = SecureMemory::new(8);
    mem.copy_from(b"abc").unwrap();
    mem.wipe();
    assert!(mem.as_ref().is_empty());
}

#[test]
fn hardware_messages() {
    assert_eq!(HardwareError::StorageError("x".to_string()).message(), "Secure storage error: x");
    assert_eq!(HardwareError::AttestationFailed.message(), "Attestation failed");
}

#[test]
fn degraded_description() {
    assert_eq!(SigningMode::DegradedLocal.description(), "\u{26a0}\u{fe0f}  Local-only (reduced security)");
}

#[test]
fn scalar_arithmetic_values() {
    let five = Scalar::from_u64(5);
    let seven = Scalar::from_u64(7);
    assert_eq!(five.add(&seven), Scalar::from_u64(12));
    assert_eq!(seven.mul(&five), Scalar::from_u64(35));
    assert_eq!(five.sub(&seven), Scalar::from_u64(2).neg());
    assert_eq!(Scalar::from_u64(2).invert().mul(&Scalar::from_u64(2)), Scalar::one());
    assert_eq!(Scalar::zero().invert(), Scalar::zero());
    let mut wide = [0u8; 64];
    wide[0] = 9;
    assert_eq!(Scalar::from_bytes_mod_order_wide(&wide), Scalar::from_u64(9));
    let ell: [u8; 32] = [
        0xed, 0xd3, 0xf5, 0x5c, 0x1a, 0x63, 0x12, 0x58, 0xd6, 0x9c, 0xf7, 0xa2, 0xde, 0xf9, 0xde, 0x14,
        0, 0, 0, 0, 0, 0, 0, 0, 0, 0, 0, 0, 0, 0, 0, 0x10,
    ];
    assert!(Scalar::from_canonical_bytes(ell).is_none());
    assert_eq!(Scalar::from_bytes_mod_order(ell), Scalar::zero());
}

#[test]
fn point_operations() {
    let g = CompressedPoint::basepoint();
    assert!(g.is_valid());
    assert!(!CompressedPoint::from_bytes([0xff; 32]).is_valid());
    assert_eq!(g.scale(&Scalar::from_u64(2)), g.add(&g));
    assert_eq!(g.scale(&Scalar::one()), g);
    assert_eq!(g.add(&CompressedPoint::identity()), g);
    assert_ne!(g.scale(&Scalar::from_u64(3)), g);
}
