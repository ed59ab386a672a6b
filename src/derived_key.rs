//! Single-device keys derived from a key-generation result: a key-derivation function
//! over the participant's share and the device identifier gives an ordinary Schnorr key
//! that the device uses alone, offline, and can replace by a new derivation.

use vstd::prelude::*;
use vstd::string::StringSliceAdditionalSpecFns;
use crate::arith::{group_order, le_nat};
use crate::backend::{basepoint_encoding, point_scale_of, sha512_of};
use crate::dkg::{honest_share_checks, DkgCoordinator, DkgOutput};
use crate::encoding::append_bytes;
use crate::point::CompressedPoint;
use crate::scalar::{Scalar, SecretScalar};
use crate::types::{hash_to_scalar, GroupPublicKey, SchnorrSignature};
use crate::FrostResult;

verus! {

/// The derived device secret: `H("FROST-DEVICE-KEY-DERIVATION-v1" || s || device_id)`.
pub open spec fn derived_secret(s: Seq<u8>, device_id: Seq<u8>) -> nat {
    le_nat(sha512_of("FROST-DEVICE-KEY-DERIVATION-v1".spec_bytes() + s + device_id)) % group_order()
}

/// The challenge of a derived-key signature: `H("FROST-DERIVED-SIGNATURE-v1" || R || K || m)`.
pub open spec fn derived_challenge(r: Seq<u8>, k: Seq<u8>, m: Seq<u8>) -> nat {
    le_nat(sha512_of("FROST-DERIVED-SIGNATURE-v1".spec_bytes() + r + k + m)) % group_order()
}

/// Whether `(R, z)` is a valid derived-key signature on `m` under `K`.
pub open spec fn derived_signature_valid(z: Seq<u8>, r: Seq<u8>, k: Seq<u8>, m: Seq<u8>) -> bool {
    &&& crate::backend::is_point_encoding(k)
    &&& crate::backend::is_point_encoding(r)
    &&& le_nat(z) < group_order()
    &&& point_scale_of(le_nat(z), basepoint_encoding()) == crate::backend::point_sum_of(
        r,
        point_scale_of(derived_challenge(r, k, m), k),
    )
}

/// The device's hardware attestation at derivation time.
#[derive(Debug, Clone)]
pub struct DeviceAttestation {
    /// Firmware digest.
    pub firmware_hash: [u8; 32],
    /// Hardware identifier.
    pub hardware_id: [u8; 32],
    /// Tamper status; zero means intact.
    pub tamper_status: u8,
    /// Boot measurement chain.
    pub boot_measurements: Vec<[u8; 32]>,
}

/// Evidence that a device key came from a threshold ceremony.
#[derive(Debug, Clone)]
pub struct DerivationProof {
    /// Unix time of the derivation.
    pub timestamp: u64,
    /// Digest of the ceremony transcript.
    pub dkg_transcript_hash: [u8; 32],
    /// Inclusion proof in a transparency log.
    pub merkle_proof: Vec<[u8; 32]>,
    /// Signatures of the ceremony's participants.
    pub participant_signatures: Vec<SchnorrSignature>,
    /// The device's attestation.
    pub device_attestation: DeviceAttestation,
}

/// A single-party device key derived from a threshold ceremony.
pub struct DerivedDeviceKey {
    device_id: [u8; 32],
    master_secret: SecretScalar,
    /// The public key `K = k*G`.
    pub master_public: GroupPublicKey,
    /// How the key was derived.
    pub derivation_proof: DerivationProof,
    /// Incremented on every re-key.
    pub version: u32,
}

impl DerivedDeviceKey {
    /// The device identifier.
    pub closed spec fn device(&self) -> [u8; 32] {
        self.device_id
    }

    /// The secret `k`.
    pub closed spec fn secret(&self) -> nat {
        self.master_secret@
    }

    /// The canonical encoding of the secret `k`.
    pub closed spec fn secret_encoding(&self) -> Seq<u8> {
        self.master_secret.scalar().encoding()
    }

    /// The encoded public key `K`.
    pub closed spec fn public_key_bytes(&self) -> Seq<u8> {
        self.master_public.public_key@
    }

    /// The re-key version.
    pub closed spec fn version_spec(&self) -> u32 {
        self.version
    }

    /// The derivation proof.
    pub closed spec fn proof_spec(&self) -> DerivationProof {
        self.derivation_proof
    }

    /// The key-derivation function: a scalar from the share and the device identifier.
    pub fn kdf(group_secret: &Scalar, device_id: &[u8; 32]) -> (r: Scalar)
        ensures
            r@ == derived_secret(group_secret.encoding(), device_id@),
    {
        let mut data: Vec<u8> = Vec::new();
        append_bytes(&mut data, "FROST-DEVICE-KEY-DERIVATION-v1".as_bytes());
        let s = group_secret.to_bytes();
        append_bytes(&mut data, &s);
        append_bytes(&mut data, device_id);
        hash_to_scalar(data.as_slice())
    }

    /// Derive the device key from a participant's ceremony output at time `timestamp`.
    pub fn derive_from_dkg(
        device_id: [u8; 32],
        dkg_output: &DkgOutput,
        participant_signatures: Vec<SchnorrSignature>,
        device_attestation: DeviceAttestation,
        timestamp: u64,
    ) -> (r: FrostResult<DerivedDeviceKey>)
        ensures
            r matches Ok(key) ==> {
                &&& key.device() == device_id
                &&& key.secret() == derived_secret(
                    dkg_output.secret_share.value.scalar().encoding(),
                    device_id@,
                )
                &&& key.public_key_bytes() == point_scale_of(key.secret(), basepoint_encoding())
                &&& key.version_spec() == 1
                &&& key.proof_spec().timestamp == timestamp
                &&& key.proof_spec().participant_signatures@ == participant_signatures@
            },
            r is Ok,
    {
        let secret = Self::kdf(dkg_output.secret_share.value.as_scalar(), &device_id);
        let public_key = CompressedPoint::basepoint().scale(&secret);
        Ok(DerivedDeviceKey {
            device_id,
            master_secret: SecretScalar::new(secret),
            master_public: GroupPublicKey {
                public_key,
                participant_shares: Vec::new(),
                threshold: 1,
                num_participants: 1,
            },
            derivation_proof: DerivationProof {
                timestamp,
                dkg_transcript_hash: [0u8; 32],
                merkle_proof: Vec::new(),
                participant_signatures,
                device_attestation,
            },
            version: 1,
        })
    }

    /// Sign with the device key alone: nonce `r`, `R = r*G`, challenge
    /// `H("FROST-DERIVED-SIGNATURE-v1" || R || K || m)`, `z = r + c*k`.
    pub fn sign(&self, message: &[u8], rng: &mut rand::rngs::StdRng) -> (r: FrostResult<SchnorrSignature>)
        ensures
            r matches Ok(sig) ==> exists|n: nat|
                n < group_order() && sig.commitment@ == point_scale_of(n, basepoint_encoding())
                    && le_nat(sig.z@) == (n + derived_challenge(
                    sig.commitment@,
                    self.public_key_bytes(),
                    message@,
                ) * self.secret()) % group_order(),
            r is Ok,
    {
        let nonce = Scalar::random(rng);
        let big_r = CompressedPoint::basepoint().scale(&nonce);
        let mut data: Vec<u8> = Vec::new();
        append_bytes(&mut data, "FROST-DERIVED-SIGNATURE-v1".as_bytes());
        append_bytes(&mut data, &big_r.bytes);
        append_bytes(&mut data, &self.master_public.public_key.bytes);
        append_bytes(&mut data, message);
        let challenge = hash_to_scalar(data.as_slice());
        let z = nonce.add(&challenge.mul(self.master_secret.as_scalar()));
        proof {
            nonce.lemma_bound();
            let m = group_order() as int;
            let c = challenge@ as int;
            let sv = self.master_secret@ as int;
            vstd::arithmetic::div_mod::lemma_add_mod_noop(nonce@ as int, c * sv, m);
            vstd::arithmetic::div_mod::lemma_small_mod(nonce@, group_order());
            vstd::arithmetic::div_mod::lemma_mod_twice(c * sv, m);
        }
        Ok(SchnorrSignature { z: z.to_bytes(), commitment: big_r })
    }

    /// Verify a derived-key signature under this key.
    pub fn verify(&self, message: &[u8], signature: &SchnorrSignature) -> (r: bool)
        ensures
            r == derived_signature_valid(
                signature.z@,
                signature.commitment@,
                self.public_key_bytes(),
                message@,
            ),
    {
        let k = &self.master_public.public_key;
        if !k.is_valid() {
            return false;
        }
        if !signature.commitment.is_valid() {
            return false;
        }
        let z = match Scalar::from_canonical_bytes(signature.z) {
            Some(z) => z,
            None => return false,
        };
        let mut data: Vec<u8> = Vec::new();
        append_bytes(&mut data, "FROST-DERIVED-SIGNATURE-v1".as_bytes());
        append_bytes(&mut data, &signature.commitment.bytes);
        append_bytes(&mut data, &k.bytes);
        append_bytes(&mut data, message);
        let challenge = hash_to_scalar(data.as_slice());
        let lhs = CompressedPoint::basepoint().scale(&z);
        let rhs = signature.commitment.add(&k.scale(&challenge));
        lhs.ct_eq(&rhs)
    }

    /// The key in the form handed to the device's PUF-backed storage. No encryption
    /// scheme is defined here: the bytes are the secret's canonical encoding, which the
    /// secure element wraps with its own key.
    pub fn encrypt_to_puf(&self, puf_key: &[u8; 32]) -> (r: Vec<u8>)
        ensures
            r@ == self.secret_encoding(),
    {
        let mut out: Vec<u8> = Vec::new();
        append_bytes(&mut out, &self.master_secret.as_scalar().to_bytes());
        out
    }

    /// Recover a key from PUF-backed storage; no decryption scheme is defined, so this
    /// always fails.
    pub fn decrypt_from_puf(ciphertext: &[u8], puf_key: &[u8; 32], device_id: [u8; 32]) -> (r:
        FrostResult<DerivedDeviceKey>)
        ensures
            r matches Err(crate::FrostError::CryptoError(_)),
    {
        Err(crate::FrostError::CryptoError("Not implemented".to_owned()))
    }

    /// Whether the derivation proof carries at least two participant signatures.
    pub fn verify_derivation_proof(&self) -> (r: bool)
        ensures
            r == (self.proof_spec().participant_signatures@.len() >= 2),
    {
        self.derivation_proof.participant_signatures.len() >= 2
    }

    /// Replace the key by one derived from a new ceremony, for the same device, and
    /// increment the version.
    pub fn rekey(
        &mut self,
        new_dkg_output: &DkgOutput,
        participant_signatures: Vec<SchnorrSignature>,
        device_attestation: DeviceAttestation,
        timestamp: u64,
    ) -> (r: FrostResult<()>)
        requires
            old(self).version_spec() < u32::MAX,
        ensures
            r is Ok,
            final(self).device() == old(self).device(),
            final(self).version_spec() == old(self).version_spec() + 1,
            final(self).secret() == derived_secret(
                new_dkg_output.secret_share.value.scalar().encoding(),
                old(self).device()@,
            ),
            final(self).public_key_bytes() == point_scale_of(
                final(self).secret(),
                basepoint_encoding(),
            ),
    {
        let new_key = match Self::derive_from_dkg(
            self.device_id,
            new_dkg_output,
            participant_signatures,
            device_attestation,
            timestamp,
        ) {
            Ok(k) => k,
            Err(e) => {
                return Err(e);
            },
        };
        self.master_secret = new_key.master_secret;
        self.master_public = new_key.master_public;
        self.derivation_proof = new_key.derivation_proof;
        self.version = self.version + 1;
        Ok(())
    }
}

/// Factory provisioning of derived device keys.
pub struct ManufacturingProvisioner {
    device_id: [u8; 32],
    remote_endpoints: Vec<String>,
}

impl ManufacturingProvisioner {
    /// The device being provisioned.
    pub closed spec fn device(&self) -> [u8; 32] {
        self.device_id
    }

    /// A provisioner for one device and its remote ceremony participants.
    pub fn new(device_id: [u8; 32], remote_endpoints: Vec<String>) -> (r: ManufacturingProvisioner)
        ensures
            r.device() == device_id,
    {
        ManufacturingProvisioner { device_id, remote_endpoints }
    }

    /// The attestation the device presents: its identifier, an intact tamper status
    /// and no measurements yet.
    pub fn generate_attestation(&self) -> (r: FrostResult<DeviceAttestation>)
        ensures
            r matches Ok(a) ==> a.hardware_id == self.device() && a.tamper_status == 0
                && a.boot_measurements@.len() == 0,
            r is Ok,
    {
        Ok(DeviceAttestation {
            firmware_hash: [0u8; 32],
            hardware_id: self.device_id,
            tamper_status: 0,
            boot_measurements: Vec::new(),
        })
    }

    /// Provision the device: run a 2-of-3 ceremony locally and derive the device key
    /// from the first participant's output.
    pub fn provision_device(&self, rng: &mut rand::rngs::StdRng, timestamp: u64) -> (r: FrostResult<
        DerivedDeviceKey,
    >)
        ensures
            r matches Ok(key) ==> key.device() == self.device() && key.version_spec() == 1,
            r is Err ==> exists|fp: Seq<nat>, gp: Seq<nat>, x: nat|
                fp.len() == 2 && gp.len() == 2 && 1 <= x <= 3 && !honest_share_checks(fp, gp, x),
    {
        let attestation = match self.generate_attestation() {
            Ok(a) => a,
            Err(e) => {
                return Err(e);
            },
        };
        let coordinator = match DkgCoordinator::new(2, 3) {
            Ok(c) => c,
            Err(e) => {
                return Err(e);
            },
        };
        let outputs = match coordinator.run_dkg(rng) {
            Ok(o) => o,
            Err(e) => {
                return Err(e);
            },
        };
        DerivedDeviceKey::derive_from_dkg(self.device_id, &outputs[0], Vec::new(), attestation, timestamp)
    }
}

} // verus!
