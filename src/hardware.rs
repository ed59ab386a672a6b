//! Secure-element backends: the error type, device descriptions, and a simulated
//! secure store shared by the supported parts. The asynchronous device interface that
//! hosts drive lives outside the library and calls into these.

use vstd::prelude::*;
use crate::backend::wipe_bytes;
use crate::memory::MemoryGuard;
use crate::types::{share_encoding, SecretShare};
use vstd::string::StringSliceAdditionalSpecFns;

verus! {

/// Errors of a secure element.
#[derive(Debug, Clone)]
pub enum HardwareError {
    /// Communication with the part failed.
    CommunicationError(String),
    /// A cryptographic operation failed.
    CryptoError(String),
    /// Secure storage failed.
    StorageError(String),
    /// The part has not been initialized.
    NotInitialized,
    /// A parameter was out of range.
    InvalidParameter(String),
    /// The attestation did not check.
    AttestationFailed,
    /// The part reported a fault.
    HardwareFault(String),
}

impl HardwareError {
    /// The human-readable message.
    pub fn message(&self) -> (r: String)
        ensures
            r@ == match self {
                HardwareError::CommunicationError(d) => "Hardware communication error: "@ + d@,
                HardwareError::CryptoError(d) => "Cryptographic operation failed: "@ + d@,
                HardwareError::StorageError(d) => "Secure storage error: "@ + d@,
                HardwareError::NotInitialized => "Hardware not initialized"@,
                HardwareError::InvalidParameter(d) => "Invalid parameter: "@ + d@,
                HardwareError::AttestationFailed => "Attestation failed"@,
                HardwareError::HardwareFault(d) => "Hardware fault detected: "@ + d@,
            },
    {
        match self {
            HardwareError::CommunicationError(d) => {
                let mut s = String::from_str("Hardware communication error: ");
                s.append(d.as_str());
                s
            },
            HardwareError::CryptoError(d) => {
                let mut s = String::from_str("Cryptographic operation failed: ");
                s.append(d.as_str());
                s
            },
            HardwareError::StorageError(d) => {
                let mut s = String::from_str("Secure storage error: ");
                s.append(d.as_str());
                s
            },
            HardwareError::NotInitialized => String::from_str("Hardware not initialized"),
            HardwareError::InvalidParameter(d) => {
                let mut s = String::from_str("Invalid parameter: ");
                s.append(d.as_str());
                s
            },
            HardwareError::AttestationFailed => String::from_str("Attestation failed"),
            HardwareError::HardwareFault(d) => {
                let mut s = String::from_str("Hardware fault detected: ");
                s.append(d.as_str());
                s
            },
        }
    }
}

/// Feature flags of a secure element.
#[derive(Debug, Clone, Copy, PartialEq, Eq, Structural)]
pub struct SecureElementFeatures {
    /// True random number generator.
    pub has_trng: bool,
    /// AES acceleration.
    pub has_aes: bool,
    /// Elliptic-curve acceleration.
    pub has_ecc: bool,
    /// Secure boot.
    pub has_secure_boot: bool,
    /// TrustZone or an equivalent.
    pub has_trustzone: bool,
    /// Physical unclonable function.
    pub has_puf: bool,
    /// Tamper detection.
    pub has_tamper_detection: bool,
}

/// Description of a secure element.
#[derive(Debug, Clone)]
pub struct SecureElementInfo {
    /// Manufacturer.
    pub manufacturer: String,
    /// Model.
    pub model: String,
    /// Firmware version.
    pub firmware_version: String,
    /// Serial number.
    pub serial_number: [u8; 16],
    /// Features.
    pub features: SecureElementFeatures,
}

/// A hardware attestation.
#[derive(Debug, Clone)]
pub struct Attestation {
    /// Identity public key.
    pub identity_key: Vec<u8>,
    /// Signature over the data.
    pub signature: Vec<u8>,
    /// Nonce and measurements.
    pub data: Vec<u8>,
    /// Unix time.
    pub timestamp: u64,
}

impl Attestation {
    /// The simulated parts' attestation: a zero 32-byte key, a zero 64-byte signature,
    /// no data.
    pub fn simulated() -> (r: Attestation)
        ensures
            r.identity_key@ == Seq::new(32, |i: int| 0u8),
            r.signature@ == Seq::new(64, |i: int| 0u8),
            r.data@.len() == 0,
            r.timestamp == 0,
    {
        let r = Attestation {
            identity_key: vec![0u8; 32],
            signature: vec![0u8; 64],
            data: Vec::new(),
            timestamp: 0,
        };
        assert(r.identity_key@ =~= Seq::new(32, |i: int| 0u8));
        assert(r.signature@ =~= Seq::new(64, |i: int| 0u8));
        r
    }
}

/// A self-test report.
#[derive(Debug, Clone)]
pub struct SelfTestReport {
    /// Whether every test passed.
    pub passed: bool,
    /// Random number generator.
    pub trng_ok: bool,
    /// Cryptographic operations.
    pub crypto_ok: bool,
    /// Memory.
    pub memory_ok: bool,
    /// Tamper detection.
    pub tamper_ok: bool,
    /// Error details.
    pub errors: Vec<String>,
}

impl SelfTestReport {
    /// A report in which everything passed.
    pub fn all_passed() -> (r: SelfTestReport)
        ensures
            r.passed && r.trng_ok && r.crypto_ok && r.memory_ok && r.tamper_ok,
            r.errors@.len() == 0,
    {
        SelfTestReport {
            passed: true,
            trng_ok: true,
            crypto_ok: true,
            memory_ok: true,
            tamper_ok: true,
            errors: Vec::new(),
        }
    }
}

/// Keyed storage of encrypted blobs.
pub trait SecureStorage {
    /// Write a blob under a key.
    fn write(&mut self, key: &str, data: &[u8]) -> Result<(), HardwareError>;

    /// Read the blob under a key.
    fn read(&self, key: &str) -> Result<Vec<u8>, HardwareError>;

    /// Delete the blob under a key.
    fn delete(&mut self, key: &str) -> Result<(), HardwareError>;

    /// Every key.
    fn list_keys(&self) -> Result<Vec<String>, HardwareError>;
}

/// The blob stored last under a key, if any.
pub open spec fn lookup(entries: Seq<(Seq<u8>, Seq<u8>)>, key: Seq<u8>) -> Option<Seq<u8>>
    decreases entries.len(),
{
    if entries.len() == 0 {
        None
    } else if entries.last().0 == key {
        Some(entries.last().1)
    } else {
        lookup(entries.drop_last(), key)
    }
}

/// The entries under any other key.
pub open spec fn without(entries: Seq<(Seq<u8>, Seq<u8>)>, key: Seq<u8>) -> Seq<(Seq<u8>, Seq<u8>)>
    decreases entries.len(),
{
    if entries.len() == 0 {
        Seq::empty()
    } else if entries.last().0 == key {
        without(entries.drop_last(), key)
    } else {
        without(entries.drop_last(), key).push(entries.last())
    }
}

/// Dropping a key forgets it and keeps every other key's blob.
pub proof fn lemma_lookup_without(entries: Seq<(Seq<u8>, Seq<u8>)>, key: Seq<u8>, other: Seq<u8>)
    ensures
        lookup(without(entries, key), other) == if other == key {
            None
        } else {
            lookup(entries, other)
        },
    decreases entries.len(),
{
    if entries.len() > 0 {
        lemma_lookup_without(entries.drop_last(), key, other);
        let w = without(entries.drop_last(), key);
        assert(w.push(entries.last()).drop_last() =~= w);
    }
}

/// A simulated secure store: blobs under byte-string keys; a deleted blob is wiped.
///
/// The entries sit in a vector, later ones shadowing earlier ones under the same key,
/// rather than in a hash map: keys are compared in constant time, a deletion can wipe
/// every copy it removes, and the contents have a plain sequence model whose lookups
/// and deletions are proved here.
pub struct ShareVault {
    entries: Vec<(Vec<u8>, Vec<u8>)>,
}

/// The bytes of stored entries.
pub open spec fn entry_views(es: Seq<(Vec<u8>, Vec<u8>)>) -> Seq<(Seq<u8>, Seq<u8>)> {
    es.map_values(|e: (Vec<u8>, Vec<u8>)| (e.0@, e.1@))
}

impl ShareVault {
    /// The stored entries, oldest first.
    pub closed spec fn entries_spec(&self) -> Seq<(Seq<u8>, Seq<u8>)> {
        entry_views(self.entries@)
    }

    /// The blob under a key, if any.
    pub open spec fn get_spec(&self, key: Seq<u8>) -> Option<Seq<u8>> {
        lookup(self.entries_spec(), key)
    }

    /// An empty store.
    pub fn new() -> (r: ShareVault)
        ensures
            forall|k: Seq<u8>| r.get_spec(k) is None,
    {
        let r = ShareVault { entries: Vec::new() };
        assert(r.entries_spec() =~= Seq::empty());
        r
    }

    /// Store a blob under a key, replacing what was there.
    pub fn insert(&mut self, key: &[u8], value: &[u8])
        ensures
            final(self).get_spec(key@) == Some(value@),
            forall|k: Seq<u8>| k != key@ ==> final(self).get_spec(k) == old(self).get_spec(k),
    {
        let mut k: Vec<u8> = Vec::new();
        crate::encoding::append_bytes(&mut k, key);
        let mut v: Vec<u8> = Vec::new();
        crate::encoding::append_bytes(&mut v, value);
        let ghost before = self.entries@;
        self.entries.push((k, v));
        proof {
            assert(entry_views(self.entries@).drop_last() =~= entry_views(before));
        }
    }

    /// The blob under a key, if any.
    pub fn get(&self, key: &[u8]) -> (r: Option<Vec<u8>>)
        ensures
            r matches Some(v) ==> self.get_spec(key@) == Some(v@),
            r is None ==> self.get_spec(key@) is None,
    {
        let mut i: usize = self.entries.len();
        assert(self.entries@.subrange(0, i as int) =~= self.entries@);
        while i > 0
            invariant
                i <= self.entries@.len(),
                lookup(entry_views(self.entries@), key@) == lookup(
                    entry_views(self.entries@.subrange(0, i as int)),
                    key@,
                ),
            decreases i,
        {
            let ghost pre = self.entries@.subrange(0, i as int);
            assert(entry_views(pre).drop_last() =~= entry_views(self.entries@.subrange(0, i - 1)));
            if MemoryGuard::constant_time_eq(self.entries[i - 1].0.as_slice(), key) {
                let mut out: Vec<u8> = Vec::new();
                crate::encoding::append_bytes(&mut out, self.entries[i - 1].1.as_slice());
                return Some(out);
            }
            i = i - 1;
        }
        assert(entry_views(self.entries@.subrange(0, 0)) =~= Seq::empty());
        None
    }

    /// Remove and wipe every blob under a key.
    pub fn remove(&mut self, key: &[u8])
        ensures
            final(self).get_spec(key@) is None,
            forall|k: Seq<u8>| k != key@ ==> final(self).get_spec(k) == old(self).get_spec(k),
    {
        let mut rest: Vec<(Vec<u8>, Vec<u8>)> = Vec::new();
        std::mem::swap(&mut rest, &mut self.entries);
        let ghost all = rest@;
        let n = rest.len();
        let mut i: usize = 0;
        let mut kept: Vec<(Vec<u8>, Vec<u8>)> = Vec::new();
        assert(all.subrange(0, n as int) =~= all);
        while rest.len() > 0
            invariant
                n == all.len(),
                i + rest@.len() == n,
                rest@ == all.subrange(i as int, n as int),
                entry_views(kept@) == without(entry_views(all.subrange(0, i as int)), key@),
            decreases rest@.len(),
        {
            let ghost before = rest@;
            assert(before[0] == all[i as int]);
            let (k, mut v) = rest.remove(0);
            proof {
                let pre = all.subrange(0, i + 1);
                assert(entry_views(pre).drop_last() =~= entry_views(all.subrange(0, i as int)));
                assert(entry_views(pre).last() == (k@, v@));
            }
            if MemoryGuard::constant_time_eq(k.as_slice(), key) {
                wipe_bytes(&mut v);
            } else {
                let ghost kv = kept@;
                kept.push((k, v));
                assert(entry_views(kept@) =~= entry_views(kv).push(entry_views(kept@).last()));
            }
            i = i + 1;
            assert(rest@ =~= all.subrange(i as int, n as int));
        }
        self.entries = kept;
        proof {
            assert forall|k: Seq<u8>| #[trigger] lookup(entry_views(self.entries@), k) == if k
                == key@ {
                None
            } else {
                lookup(entry_views(all), k)
            } by {
                lemma_lookup_without(entry_views(all), key@, k);
            }
        }
    }
}

/// The state every simulated part shares: whether it was initialized, and its store.
pub struct SimulatedElement {
    initialized: bool,
    vault: ShareVault,
}

impl SimulatedElement {
    /// Whether the part is initialized.
    pub closed spec fn ready(&self) -> bool {
        self.initialized
    }

    /// The blob stored under a key.
    pub closed spec fn stored(&self, key: Seq<u8>) -> Option<Seq<u8>> {
        self.vault.get_spec(key)
    }

    /// A part that is not initialized yet, with an empty store.
    pub fn new() -> (r: SimulatedElement)
        ensures
            !r.ready(),
            forall|k: Seq<u8>| r.stored(k) is None,
    {
        SimulatedElement { initialized: false, vault: ShareVault::new() }
    }

    /// Whether the part is initialized.
    pub fn is_ready(&self) -> (r: bool)
        ensures
            r == self.ready(),
    {
        self.initialized
    }

    /// Bring the part up.
    pub fn initialize(&mut self) -> (r: Result<(), HardwareError>)
        ensures
            r is Ok,
            final(self).ready(),
            forall|k: Seq<u8>| final(self).stored(k) == old(self).stored(k),
    {
        self.initialized = true;
        Ok(())
    }

    /// Seal a share under an identifier.
    pub fn store_share(&mut self, share_id: &str, share: &SecretShare) -> (r: Result<(), HardwareError>)
        ensures
            r is Ok <==> old(self).ready(),
            r is Err ==> r matches Err(HardwareError::NotInitialized),
            final(self).ready() == old(self).ready(),
            r is Ok ==> final(self).stored(share_id.spec_bytes()) == Some(
                share_encoding(
                    share.participant_id.0,
                    share.value.scalar().encoding(),
                    share.blinding.scalar().encoding(),
                ),
            ),
            forall|k: Seq<u8>| k != share_id.spec_bytes() ==> final(self).stored(k) == old(self).stored(k),
    {
        if !self.initialized {
            return Err(HardwareError::NotInitialized);
        }
        let bytes = share.to_bytes();
        self.vault.insert(share_id.as_bytes(), bytes.as_slice());
        Ok(())
    }

    /// Unseal the share under an identifier.
    pub fn load_share(&self, share_id: &str) -> (r: Result<SecretShare, HardwareError>)
        ensures
            !self.ready() ==> r matches Err(HardwareError::NotInitialized),
            self.ready() && self.stored(share_id.spec_bytes()) is None ==> r matches Err(
                HardwareError::StorageError(_),
            ),
            r matches Ok(s) ==> self.stored(share_id.spec_bytes()) == Some(
                share_encoding(
                    s.participant_id.0,
                    s.value.scalar().encoding(),
                    s.blinding.scalar().encoding(),
                ),
            ),
    {
        if !self.initialized {
            return Err(HardwareError::NotInitialized);
        }
        match self.vault.get(share_id.as_bytes()) {
            None => Err(HardwareError::StorageError(String::from_str("Share not found"))),
            Some(bytes) => match SecretShare::from_bytes(bytes.as_slice()) {
                Ok(s) => Ok(s),
                Err(_) => Err(HardwareError::StorageError(String::from_str("corrupt share"))),
            },
        }
    }

    /// Delete and wipe the share under an identifier.
    pub fn delete_share(&mut self, share_id: &str) -> (r: Result<(), HardwareError>)
        ensures
            r is Ok <==> old(self).ready(),
            r is Err ==> r matches Err(HardwareError::NotInitialized),
            final(self).ready() == old(self).ready(),
            r is Ok ==> final(self).stored(share_id.spec_bytes()) is None,
            forall|k: Seq<u8>| k != share_id.spec_bytes() ==> final(self).stored(k) == old(self).stored(k),
    {
        if !self.initialized {
            return Err(HardwareError::NotInitialized);
        }
        self.vault.remove(share_id.as_bytes());
        Ok(())
    }
}

/// How a Feitian module is attached.
#[derive(Debug, Clone, Copy, PartialEq, Eq, Structural)]
pub enum FeitianInterface {
    /// USB.
    USB,
    /// PCIe.
    PCIe,
    /// I2C or SPI.
    Embedded,
}

/// A Feitian hardware security module.
pub struct FeitianHSM {
    /// How the module is attached.
    pub interface: FeitianInterface,
    /// The simulated part.
    pub element: SimulatedElement,
}

impl FeitianHSM {
    /// A module on the given interface, not initialized yet.
    pub fn new(interface: FeitianInterface) -> (r: FeitianHSM)
        ensures
            r.interface == interface,
            !r.element.ready(),
    {
        FeitianHSM { interface, element: SimulatedElement::new() }
    }

    /// The module's description.
    pub fn get_info(&self) -> (r: SecureElementInfo)
        ensures
            r.manufacturer@ == "Feitian Technologies"@,
            r.features.has_tamper_detection && !r.features.has_trustzone,
    {
        SecureElementInfo {
            manufacturer: String::from_str("Feitian Technologies"),
            model: String::from_str("FT-HSM-3000"),
            firmware_version: String::from_str("3.2.1-FIPS"),
            serial_number: [0x46, 0x54, 0x48, 0x53, 0x4D, 0, 0, 0, 0, 0, 0, 0, 0, 0, 0, 0],
            features: SecureElementFeatures {
                has_trng: true,
                has_aes: true,
                has_ecc: true,
                has_secure_boot: true,
                has_trustzone: false,
                has_puf: false,
                has_tamper_detection: true,
            },
        }
    }

    /// A FIPS-validated signature over `data`; the simulation answers 64 zero bytes.
    pub fn fips_validated_sign(&self, data: &[u8]) -> (r: Result<Vec<u8>, HardwareError>)
        ensures
            r matches Ok(s) ==> s@ == Seq::new(64, |i: int| 0u8),
    {
        let out = vec![0u8; 64];
        assert(out@ =~= Seq::new(64, |i: int| 0u8));
        Ok(out)
    }
}

/// A GigaDevice GD32 microcontroller with TrustZone.
pub struct GigaDeviceGD32 {
    /// The simulated part.
    pub element: SimulatedElement,
}

impl GigaDeviceGD32 {
    /// A part that is not initialized yet.
    pub fn new() -> (r: GigaDeviceGD32)
        ensures
            !r.element.ready(),
    {
        GigaDeviceGD32 { element: SimulatedElement::new() }
    }

    /// The part's description.
    pub fn get_info(&self) -> (r: SecureElementInfo)
        ensures
            r.manufacturer@ == "GigaDevice"@,
            r.features.has_trustzone,
    {
        SecureElementInfo {
            manufacturer: String::from_str("GigaDevice"),
            model: String::from_str("GD32W515"),
            firmware_version: String::from_str("1.0.0"),
            serial_number: [0x47, 0x44, 0x33, 0x32, 0, 0, 0, 0, 0, 0, 0, 0, 0, 0, 0, 0],
            features: SecureElementFeatures {
                has_trng: true,
                has_aes: true,
                has_ecc: true,
                has_secure_boot: true,
                has_trustzone: true,
                has_puf: false,
                has_tamper_detection: true,
            },
        }
    }

    /// Enter the secure world; the simulation always succeeds.
    pub fn enter_secure_world(&self) -> (r: Result<(), HardwareError>)
        ensures
            r is Ok,
    {
        Ok(())
    }

    /// A point multiplication on the accelerator; the simulation answers 64 zero bytes.
    pub fn hw_ecc_point_multiply(&self, scalar: &[u8], point: &[u8]) -> (r: Result<Vec<u8>, HardwareError>)
        ensures
            r matches Ok(s) ==> s@ == Seq::new(64, |i: int| 0u8),
    {
        let out = vec![0u8; 64];
        assert(out@ =~= Seq::new(64, |i: int| 0u8));
        Ok(out)
    }
}

impl Default for GigaDeviceGD32 {
    /// A part that is not initialized yet.
    fn default() -> (r: GigaDeviceGD32)
        ensures
            !r.element.ready(),
    {
        GigaDeviceGD32::new()
    }
}

/// A Nations Technologies secure element.
pub struct NationsTechSE {
    /// The simulated part.
    pub element: SimulatedElement,
}

impl NationsTechSE {
    /// A part that is not initialized yet.
    pub fn new() -> (r: NationsTechSE)
        ensures
            !r.element.ready(),
    {
        NationsTechSE { element: SimulatedElement::new() }
    }

    /// The part's description.
    pub fn get_info(&self) -> (r: SecureElementInfo)
        ensures
            r.manufacturer@ == "Nations Technologies"@,
            r.features.has_puf && !r.features.has_trustzone,
    {
        SecureElementInfo {
            manufacturer: String::from_str("Nations Technologies"),
            model: String::from_str("N32S032"),
            firmware_version: String::from_str("2.1.0"),
            serial_number: [0x4E, 0x41, 0x54, 0x49, 0, 0, 0, 0, 0, 0, 0, 0, 0, 0, 0, 0],
            features: SecureElementFeatures {
                has_trng: true,
                has_aes: true,
                has_ecc: true,
                has_secure_boot: true,
                has_trustzone: false,
                has_puf: true,
                has_tamper_detection: true,
            },
        }
    }

    /// A point multiplication hardened against power analysis; the simulation answers
    /// 64 zero bytes.
    pub fn dpa_resistant_ecc_multiply(&self, scalar: &[u8]) -> (r: Result<Vec<u8>, HardwareError>)
        ensures
            r matches Ok(s) ==> s@ == Seq::new(64, |i: int| 0u8),
    {
        let out = vec![0u8; 64];
        assert(out@ =~= Seq::new(64, |i: int| 0u8));
        Ok(out)
    }
}

impl Default for NationsTechSE {
    /// A part that is not initialized yet.
    fn default() -> (r: NationsTechSE)
        ensures
            !r.element.ready(),
    {
        NationsTechSE::new()
    }
}

/// Memory for secrets that is wiped when released.
pub struct SecureMemory {
    buffer: Vec<u8>,
}

impl SecureMemory {
    /// The buffer's bytes.
    pub closed spec fn bytes(&self) -> Seq<u8> {
        self.buffer@
    }

    /// A zeroed buffer of `size` bytes.
    pub fn new(size: usize) -> (r: SecureMemory)
        ensures
            r.bytes() == Seq::new(size as nat, |i: int| 0u8),
    {
        let r = SecureMemory { buffer: vec![0u8; size] };
        assert(r.buffer@ =~= Seq::new(size as nat, |i: int| 0u8));
        r
    }

    /// The buffer's bytes.
    pub fn as_ref(&self) -> (r: &[u8])
        ensures
            r@ == self.bytes(),
    {
        self.buffer.as_slice()
    }

    /// Copy `data` to the start of the buffer; refused if it does not fit.
    pub fn copy_from(&mut self, data: &[u8]) -> (r: Result<(), HardwareError>)
        ensures
            r is Ok <==> data@.len() <= old(self).bytes().len(),
            r is Err ==> final(self).bytes() == old(self).bytes() && r matches Err(
                HardwareError::InvalidParameter(_),
            ),
            r is Ok ==> final(self).bytes() == data@ + old(self).bytes().subrange(
                data@.len() as int,
                old(self).bytes().len() as int,
            ),
    {
        if data.len() > self.buffer.len() {
            return Err(HardwareError::InvalidParameter(String::from_str("Data too large for buffer")));
        }
        let ghost old_bytes = self.buffer@;
        let mut i: usize = 0;
        while i < data.len()
            invariant
                data@.len() <= old_bytes.len(),
                self.buffer@.len() == old_bytes.len(),
                i <= data@.len(),
                forall|q: int| 0 <= q < i ==> self.buffer@[q] == data@[q],
                forall|q: int| i <= q < old_bytes.len() ==> self.buffer@[q] == old_bytes[q],
            decreases data@.len() - i,
        {
            self.buffer.set(i, data[i]);
            i = i + 1;
        }
        assert(self.buffer@ =~= data@ + old_bytes.subrange(data@.len() as int, old_bytes.len() as int));
        Ok(())
    }

    /// Overwrite and release the buffer's contents.
    pub fn wipe(&mut self)
        ensures
            final(self).bytes().len() == 0,
    {
        wipe_bytes(&mut self.buffer);
    }
}

} // verus!
