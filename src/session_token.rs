//! Session tokens for offline operation: a capability bound to a device and a time
//! window, signed once by the full threshold key and then checked locally.
//!
//! Time is an input: every check takes the current Unix time in seconds.

use vstd::prelude::*;
use vstd::string::StringSliceAdditionalSpecFns;
use crate::backend::{sha256, sha256_of};
use crate::encoding::{append_bytes, decimal_of, decimal_string, u64_le, u64_to_le};
use crate::point::CompressedPoint;
use crate::types::{schnorr_valid, GroupPublicKey, SchnorrSignature};
use crate::{FrostError, FrostResult};

verus! {

/// How much of the keychain a token opens.
#[derive(Debug, Clone, Copy, PartialEq, Eq, Structural)]
pub enum KeychainAccessLevel {
    /// No keychain access.
    NoAccess,
    /// Low-security items only.
    LowSecurity,
    /// Medium-security items.
    MediumSecurity,
    /// All items.
    HighSecurity,
}

/// Payment limits, in cents.
#[derive(Debug, Clone, Copy, PartialEq, Eq, Structural)]
pub struct PaymentLimits {
    /// Largest single payment.
    pub max_per_transaction: u64,
    /// Largest total per day.
    pub max_per_day: u64,
    /// What is left of today's budget.
    pub remaining_today: u64,
    /// When the daily budget resets.
    pub daily_reset_at: u64,
}

/// What a token allows.
#[derive(Debug, Clone)]
pub struct Capabilities {
    /// Device unlock.
    pub device_unlock: bool,
    /// Keychain access level.
    pub keychain_access: KeychainAccessLevel,
    /// Payment limits, if payments are allowed at all.
    pub payment_limits: Option<PaymentLimits>,
    /// Code signing.
    pub code_signing: bool,
    /// Disk-encryption unlock.
    pub filevault_decrypt: bool,
    /// Further named capabilities.
    pub custom: Vec<String>,
}

impl Default for Capabilities {
    /// The usual grant: unlock, low-security keychain items, payments up to 100.00 each
    /// and 500.00 a day, disk unlock; no code signing.
    fn default() -> (r: Capabilities)
        ensures
            r.device_unlock,
            r.keychain_access == KeychainAccessLevel::LowSecurity,
            r.payment_limits == Some(
                PaymentLimits {
                    max_per_transaction: 10_000,
                    max_per_day: 50_000,
                    remaining_today: 50_000,
                    daily_reset_at: 0,
                },
            ),
            !r.code_signing,
            r.filevault_decrypt,
            r.custom@.len() == 0,
    {
        Capabilities {
            device_unlock: true,
            keychain_access: KeychainAccessLevel::LowSecurity,
            payment_limits: Some(
                PaymentLimits {
                    max_per_transaction: 10_000,
                    max_per_day: 50_000,
                    remaining_today: 50_000,
                    daily_reset_at: 0,
                },
            ),
            code_signing: false,
            filevault_decrypt: true,
            custom: Vec::new(),
        }
    }
}

/// One recorded use of a token.
#[derive(Debug, Clone)]
pub struct TokenOperation {
    /// What was done.
    pub operation: String,
    /// When, in Unix seconds.
    pub timestamp: u64,
    /// Whether it succeeded.
    pub success: bool,
}

/// How a token has been used.
#[derive(Debug, Clone)]
pub struct UsageTracker {
    /// Number of uses.
    pub use_count: u64,
    /// Time of the last use.
    pub last_used_at: Option<u64>,
    /// Every use, in order.
    pub operations: Vec<TokenOperation>,
}

/// A request to act under a token.
#[derive(Debug, Clone, Copy, PartialEq, Eq, Structural)]
pub enum TokenRequest {
    /// Unlock the device.
    DeviceUnlock,
    /// Open keychain items of a level.
    KeychainAccess { level: KeychainAccessLevel },
    /// Pay an amount, in cents.
    Payment { amount: u64 },
    /// Sign code.
    CodeSigning,
    /// Unlock the encrypted disk.
    FileVaultDecrypt,
}

/// The name of a keychain level.
pub open spec fn level_name(l: KeychainAccessLevel) -> Seq<char> {
    match l {
        KeychainAccessLevel::NoAccess => "NoAccess"@,
        KeychainAccessLevel::LowSecurity => "LowSecurity"@,
        KeychainAccessLevel::MediumSecurity => "MediumSecurity"@,
        KeychainAccessLevel::HighSecurity => "HighSecurity"@,
    }
}

/// The text recorded for a request.
pub open spec fn request_text(r: TokenRequest) -> Seq<char> {
    match r {
        TokenRequest::DeviceUnlock => "DeviceUnlock"@,
        TokenRequest::KeychainAccess { level } => "KeychainAccess { level: "@ + level_name(level)
            + " }"@,
        TokenRequest::Payment { amount } => "Payment { amount: "@ + decimal_of(amount) + " }"@,
        TokenRequest::CodeSigning => "CodeSigning"@,
        TokenRequest::FileVaultDecrypt => "FileVaultDecrypt"@,
    }
}

impl KeychainAccessLevel {
    /// The level's name.
    pub fn name(&self) -> (r: &'static str)
        ensures
            r@ == level_name(*self),
    {
        match self {
            KeychainAccessLevel::NoAccess => "NoAccess",
            KeychainAccessLevel::LowSecurity => "LowSecurity",
            KeychainAccessLevel::MediumSecurity => "MediumSecurity",
            KeychainAccessLevel::HighSecurity => "HighSecurity",
        }
    }
}

impl TokenRequest {
    /// The text recorded in the usage log for this request.
    pub fn describe(&self) -> (r: String)
        ensures
            r@ == request_text(*self),
    {
        match self {
            TokenRequest::DeviceUnlock => String::from_str("DeviceUnlock"),
            TokenRequest::KeychainAccess { level } => {
                let mut s = String::from_str("KeychainAccess { level: ");
                s.append(level.name());
                s.append(" }");
                s
            },
            TokenRequest::Payment { amount } => {
                let mut s = String::from_str("Payment { amount: ");
                let digits = decimal_string(*amount);
                s.append(digits.as_str());
                s.append(" }");
                s
            },
            TokenRequest::CodeSigning => String::from_str("CodeSigning"),
            TokenRequest::FileVaultDecrypt => String::from_str("FileVaultDecrypt"),
        }
    }
}

/// What a token hands back for an allowed operation.
#[derive(Debug, Clone, Copy)]
pub struct TokenSignature {
    /// The token used.
    pub token_id: [u8; 16],
    /// Digest of the operation.
    pub operation_hash: [u8; 32],
    /// Signature over the operation.
    pub signature: [u8; 64],
}

/// Whether a granted keychain level covers an asked one.
pub open spec fn keychain_allows(granted: KeychainAccessLevel, asked: KeychainAccessLevel) -> bool {
    match granted {
        KeychainAccessLevel::NoAccess => false,
        KeychainAccessLevel::LowSecurity => asked == KeychainAccessLevel::LowSecurity,
        KeychainAccessLevel::MediumSecurity => asked == KeychainAccessLevel::LowSecurity || asked
            == KeychainAccessLevel::MediumSecurity,
        KeychainAccessLevel::HighSecurity => true,
    }
}

/// Whether capabilities allow a request, leaving time aside.
pub open spec fn capabilities_allow(c: Capabilities, op: TokenRequest) -> bool {
    match op {
        TokenRequest::DeviceUnlock => c.device_unlock,
        TokenRequest::KeychainAccess { level } => keychain_allows(c.keychain_access, level),
        TokenRequest::Payment { amount } => match c.payment_limits {
            Some(l) => amount <= l.max_per_transaction && amount <= l.remaining_today,
            None => false,
        },
        TokenRequest::CodeSigning => c.code_signing,
        TokenRequest::FileVaultDecrypt => c.filevault_decrypt,
    }
}

/// The bytes whose SHA-256 digest the group signs for a token.
pub open spec fn token_signing_bytes(t: SessionToken) -> Seq<u8> {
    "FROST-SESSION-TOKEN-v1".spec_bytes() + t.token_id@ + u64_le(t.issued_at) + u64_le(t.expires_at)
        + t.device_id@
}

/// A capability for one device over a time window, signed by the threshold key.
#[derive(Debug, Clone)]
pub struct SessionToken {
    /// Random identifier.
    pub token_id: [u8; 16],
    /// Start of validity, Unix seconds.
    pub issued_at: u64,
    /// End of validity (exclusive), Unix seconds.
    pub expires_at: u64,
    /// The device the token is bound to.
    pub device_id: [u8; 32],
    /// What the token allows.
    pub capabilities: Capabilities,
    /// How it has been used.
    pub usage: UsageTracker,
    /// The group's signature over the token.
    pub frost_signature: SchnorrSignature,
}

impl SessionToken {
    /// Whether the token is within its window at `now`.
    pub open spec fn valid_at(&self, now: u64) -> bool {
        now >= self.issued_at && now < self.expires_at
    }

    /// Issue a token at `now` for `lifetime` seconds; its signature is still empty.
    pub fn new(
        device_id: [u8; 32],
        capabilities: Capabilities,
        lifetime: u64,
        now: u64,
        token_id: [u8; 16],
    ) -> (r: SessionToken)
        requires
            now + lifetime <= u64::MAX,
        ensures
            r.token_id == token_id,
            r.issued_at == now,
            r.expires_at == now + lifetime,
            r.device_id == device_id,
            r.capabilities == capabilities,
            r.usage.use_count == 0,
            r.usage.last_used_at is None,
            r.usage.operations@.len() == 0,
            r.frost_signature.z@ == Seq::new(32, |i: int| 0u8),
    {
        let r = SessionToken {
            token_id,
            issued_at: now,
            expires_at: now + lifetime,
            device_id,
            capabilities,
            usage: UsageTracker { use_count: 0, last_used_at: None, operations: Vec::new() },
            frost_signature: SchnorrSignature {
                z: [0u8; 32],
                commitment: CompressedPoint::from_bytes([0u8; 32]),
            },
        };
        assert(r.frost_signature.z@ =~= Seq::new(32, |i: int| 0u8));
        r
    }

    /// Whether the token is within its window at `now`.
    pub fn is_valid(&self, now: u64) -> (r: bool)
        ensures
            r == self.valid_at(now),
    {
        now >= self.issued_at && now < self.expires_at
    }

    /// Seconds left at `now`, if the token is valid.
    pub fn time_until_expiry(&self, now: u64) -> (r: Option<u64>)
        ensures
            self.valid_at(now) ==> r == Some((self.expires_at - now) as u64),
            !self.valid_at(now) ==> r is None,
    {
        if !self.is_valid(now) {
            return None;
        }
        Some(self.expires_at - now)
    }

    /// Whether the token allows `operation` at `now`.
    pub fn allows_operation(&self, operation: &TokenRequest, now: u64) -> (r: bool)
        ensures
            r == (self.valid_at(now) && capabilities_allow(self.capabilities, *operation)),
    {
        if !self.is_valid(now) {
            return false;
        }
        match operation {
            TokenRequest::DeviceUnlock => self.capabilities.device_unlock,
            TokenRequest::KeychainAccess { level } => match self.capabilities.keychain_access {
                KeychainAccessLevel::NoAccess => false,
                KeychainAccessLevel::LowSecurity => *level == KeychainAccessLevel::LowSecurity,
                KeychainAccessLevel::MediumSecurity => *level == KeychainAccessLevel::LowSecurity
                    || *level == KeychainAccessLevel::MediumSecurity,
                KeychainAccessLevel::HighSecurity => true,
            },
            TokenRequest::Payment { amount } => match &self.capabilities.payment_limits {
                Some(limits) => *amount <= limits.max_per_transaction && *amount
                    <= limits.remaining_today,
                None => false,
            },
            TokenRequest::CodeSigning => self.capabilities.code_signing,
            TokenRequest::FileVaultDecrypt => self.capabilities.filevault_decrypt,
        }
    }

    /// Act under the token at `now`: refused unless allowed; otherwise count the use,
    /// draw a payment from today's budget, and log the operation.
    pub fn use_for_operation(&mut self, operation: TokenRequest, now: u64) -> (r: FrostResult<
        TokenSignature,
    >)
        requires
            old(self).usage.use_count < u64::MAX,
        ensures
            r is Ok <==> (old(self).valid_at(now) && capabilities_allow(
                old(self).capabilities,
                operation,
            )),
            r is Err ==> *final(self) == *old(self) && r matches Err(FrostError::CryptoError(_)),
            r matches Ok(sig) ==> {
                &&& sig.token_id == old(self).token_id
                &&& final(self).token_id == old(self).token_id
                &&& final(self).issued_at == old(self).issued_at
                &&& final(self).expires_at == old(self).expires_at
                &&& final(self).device_id == old(self).device_id
                &&& final(self).frost_signature == old(self).frost_signature
                &&& final(self).usage.use_count == old(self).usage.use_count + 1
                &&& final(self).usage.last_used_at == Some(now)
                &&& final(self).usage.operations@.len() == old(self).usage.operations@.len() + 1
                &&& final(self).usage.operations@.drop_last() == old(self).usage.operations@
                &&& final(self).usage.operations@.last().operation@ == request_text(operation)
                &&& final(self).usage.operations@.last().timestamp == now
                &&& final(self).usage.operations@.last().success
                &&& final(self).capabilities.device_unlock == old(self).capabilities.device_unlock
                &&& final(self).capabilities.keychain_access
                    == old(self).capabilities.keychain_access
                &&& final(self).capabilities.code_signing == old(self).capabilities.code_signing
                &&& final(self).capabilities.filevault_decrypt
                    == old(self).capabilities.filevault_decrypt
                &&& final(self).capabilities.custom == old(self).capabilities.custom
                &&& final(self).capabilities.payment_limits == match operation {
                    TokenRequest::Payment { amount } => match old(self).capabilities.payment_limits {
                        Some(l) => Some(
                            PaymentLimits { remaining_today: (l.remaining_today - amount) as u64, ..l },
                        ),
                        None => None,
                    },
                    _ => old(self).capabilities.payment_limits,
                }
            },
    {
        if !self.allows_operation(&operation, now) {
            return Err(FrostError::CryptoError("token does not allow operation".to_owned()));
        }
        self.usage.use_count = self.usage.use_count + 1;
        self.usage.last_used_at = Some(now);
        if let TokenRequest::Payment { amount } = operation {
            match self.capabilities.payment_limits {
                Some(limits) => {
                    self.capabilities.payment_limits = Some(
                        PaymentLimits { remaining_today: limits.remaining_today - amount, ..limits },
                    );
                },
                None => {},
            }
        }
        let text = operation.describe();
        self.usage.operations.push(TokenOperation { operation: text, timestamp: now, success: true });
        Ok(TokenSignature { token_id: self.token_id, operation_hash: [0u8; 32], signature: [0u8; 64] })
    }

    /// The digest the group signs for this token: SHA-256 over its label, identifier,
    /// window and device.
    pub fn to_signing_data(&self) -> (r: Vec<u8>)
        ensures
            r@ == sha256_of(token_signing_bytes(*self)),
    {
        let mut data: Vec<u8> = Vec::new();
        append_bytes(&mut data, "FROST-SESSION-TOKEN-v1".as_bytes());
        append_bytes(&mut data, &self.token_id);
        append_bytes(&mut data, u64_to_le(self.issued_at).as_slice());
        append_bytes(&mut data, u64_to_le(self.expires_at).as_slice());
        append_bytes(&mut data, &self.device_id);
        let digest = sha256(data.as_slice());
        let mut out: Vec<u8> = Vec::new();
        append_bytes(&mut out, &digest);
        out
    }

    /// Whether the group's signature over the token verifies under `public_key`.
    pub fn verify_frost_signature(&self, public_key: &GroupPublicKey) -> (r: bool)
        ensures
            r == schnorr_valid(
                self.frost_signature.z@,
                self.frost_signature.commitment@,
                public_key.public_key@,
                sha256_of(token_signing_bytes(*self)),
            ),
    {
        let data = self.to_signing_data();
        public_key.verify_signature(data.as_slice(), &self.frost_signature)
    }
}

/// The tokens of a list that are valid at `now`, in order.
pub open spec fn valid_tokens(ts: Seq<SessionToken>, now: u64) -> Seq<SessionToken>
    decreases ts.len(),
{
    if ts.len() == 0 {
        Seq::empty()
    } else if ts.last().valid_at(now) {
        valid_tokens(ts.drop_last(), now).push(ts.last())
    } else {
        valid_tokens(ts.drop_last(), now)
    }
}

/// A token that is valid at `now` survives the clean-up.
pub proof fn lemma_valid_kept(ts: Seq<SessionToken>, now: u64, j: int)
    requires
        0 <= j < ts.len(),
        ts[j].valid_at(now),
    ensures
        valid_tokens(ts, now).contains(ts[j]),
    decreases ts.len(),
{
    if j == ts.len() - 1 {
        assert(valid_tokens(ts, now).last() == ts[j]);
    } else {
        lemma_valid_kept(ts.drop_last(), now, j);
        let k = choose|k: int| 0 <= k < valid_tokens(ts.drop_last(), now).len() && valid_tokens(ts.drop_last(), now)[k] == ts[j];
        if ts.last().valid_at(now) {
            assert(valid_tokens(ts, now)[k] == ts[j]);
        }
    }
}

/// Every token that survives the clean-up was in the list before.
pub proof fn lemma_kept_was_there(ts: Seq<SessionToken>, now: u64, k: int)
    requires
        0 <= k < valid_tokens(ts, now).len(),
    ensures
        ts.contains(valid_tokens(ts, now)[k]),
    decreases ts.len(),
{
    let prev = valid_tokens(ts.drop_last(), now);
    if ts.last().valid_at(now) && k == prev.len() {
        assert(ts[ts.len() - 1] == valid_tokens(ts, now)[k]);
    } else {
        assert(valid_tokens(ts, now)[k] == prev[k]);
        lemma_kept_was_there(ts.drop_last(), now, k);
        let j = choose|j: int| 0 <= j < ts.drop_last().len() && ts.drop_last()[j] == prev[k];
        assert(ts[j] == prev[k]);
    }
}

/// Whether `i` is the first token issued earliest.
pub open spec fn is_oldest(ts: Seq<SessionToken>, i: int) -> bool {
    &&& 0 <= i < ts.len()
    &&& forall|j: int| 0 <= j < ts.len() ==> ts[i].issued_at <= #[trigger] ts[j].issued_at
    &&& forall|j: int| 0 <= j < i ==> ts[i].issued_at < #[trigger] ts[j].issued_at
}

/// A device's cache of session tokens, bounded in size.
pub struct SessionTokenCache {
    tokens: Vec<SessionToken>,
    max_tokens: usize,
}

impl SessionTokenCache {
    /// The cached tokens, in insertion order.
    pub closed spec fn tokens_spec(&self) -> Seq<SessionToken> {
        self.tokens@
    }

    /// The size bound.
    pub closed spec fn capacity(&self) -> usize {
        self.max_tokens
    }

    /// An empty cache holding at most `max_tokens` tokens.
    pub fn new(max_tokens: usize) -> (r: SessionTokenCache)
        ensures
            r.tokens_spec().len() == 0,
            r.capacity() == max_tokens,
    {
        SessionTokenCache { tokens: Vec::new(), max_tokens }
    }

    /// Drop every token that is not valid at `now`.
    pub fn cleanup_expired(&mut self, now: u64)
        ensures
            final(self).tokens_spec() == valid_tokens(old(self).tokens_spec(), now),
            final(self).capacity() == old(self).capacity(),
    {
        let mut kept: Vec<SessionToken> = Vec::new();
        let mut rest: Vec<SessionToken> = Vec::new();
        std::mem::swap(&mut rest, &mut self.tokens);
        let ghost all = rest@;
        let n = rest.len();
        let mut i: usize = 0;
        assert(all.subrange(0, n as int) =~= all);
        while rest.len() > 0
            invariant
                n == all.len(),
                i + rest@.len() == n,
                rest@ == all.subrange(i as int, n as int),
                kept@ == valid_tokens(all.subrange(0, i as int), now),
            decreases rest@.len(),
        {
            let ghost before = rest@;
            assert(before[0] == all[i as int]);
            let t = rest.remove(0);
            assert(all.subrange(0, i + 1).drop_last() =~= all.subrange(0, i as int));
            assert(all.subrange(0, i + 1).last() == t);
            if t.is_valid(now) {
                kept.push(t);
            }
            i = i + 1;
            assert(rest@ =~= all.subrange(i as int, n as int));
        }
        assert(all.subrange(0, n as int) =~= all);
        self.tokens = kept;
    }

    /// The index of the first token with the earliest issue time, if any.
    pub fn find_oldest_token(&self) -> (r: Option<usize>)
        ensures
            r is None <==> self.tokens_spec().len() == 0,
            r matches Some(i) ==> is_oldest(self.tokens_spec(), i as int),
    {
        if self.tokens.len() == 0 {
            return None;
        }
        let mut best: usize = 0;
        let mut j: usize = 1;
        while j < self.tokens.len()
            invariant
                1 <= j <= self.tokens@.len(),
                best < j,
                forall|q: int| 0 <= q < j ==> self.tokens@[best as int].issued_at <= #[trigger] self.tokens@[q].issued_at,
                forall|q: int| 0 <= q < best ==> self.tokens@[best as int].issued_at < #[trigger] self.tokens@[q].issued_at,
            decreases self.tokens@.len() - j,
        {
            if self.tokens[j].issued_at < self.tokens[best].issued_at {
                best = j;
            }
            j = j + 1;
        }
        Some(best)
    }

    /// Add a token: drop expired ones first, then, if the cache is full, the first
    /// token issued earliest; the new token goes last.
    pub fn add_token(&mut self, token: SessionToken, now: u64) -> (r: FrostResult<()>)
        ensures
            r is Ok,
            final(self).capacity() == old(self).capacity(),
            valid_tokens(old(self).tokens_spec(), now).len() >= old(self).capacity() && valid_tokens(
                old(self).tokens_spec(),
                now,
            ).len() > 0 ==> exists|i: int|
                is_oldest(valid_tokens(old(self).tokens_spec(), now), i) && final(self).tokens_spec()
                    == valid_tokens(old(self).tokens_spec(), now).remove(i).push(token),
            !(valid_tokens(old(self).tokens_spec(), now).len() >= old(self).capacity()
                && valid_tokens(old(self).tokens_spec(), now).len() > 0) ==> final(self).tokens_spec()
                == valid_tokens(old(self).tokens_spec(), now).push(token),
    {
        self.cleanup_expired(now);
        if self.tokens.len() >= self.max_tokens {
            match self.find_oldest_token() {
                Some(i) => {
                    self.tokens.remove(i);
                },
                None => {},
            }
        }
        self.tokens.push(token);
        Ok(())
    }

    /// After dropping expired tokens, the index of the token that allows `operation` at
    /// `now` and lives longest (the last such one on a tie), if any.
    pub fn get_valid_token(&mut self, operation: &TokenRequest, now: u64) -> (r: Option<usize>)
        ensures
            final(self).tokens_spec() == valid_tokens(old(self).tokens_spec(), now),
            final(self).capacity() == old(self).capacity(),
            r is None ==> forall|j: int|
                0 <= j < final(self).tokens_spec().len() ==> !(#[trigger] final(self).tokens_spec()[j]).valid_at(now)
                    || !capabilities_allow(final(self).tokens_spec()[j].capabilities, *operation),
            r matches Some(i) ==> {
                let ts = final(self).tokens_spec();
                &&& i < ts.len()
                &&& ts[i as int].valid_at(now)
                &&& capabilities_allow(ts[i as int].capabilities, *operation)
                &&& forall|j: int|
                    0 <= j < ts.len() && (#[trigger] ts[j]).valid_at(now) && capabilities_allow(
                        ts[j].capabilities,
                        *operation,
                    ) ==> ts[j].expires_at <= ts[i as int].expires_at && (j > i ==> ts[j].expires_at
                        < ts[i as int].expires_at)
            },
    {
        self.cleanup_expired(now);
        let mut best: Option<usize> = None;
        let mut j: usize = 0;
        while j < self.tokens.len()
            invariant
                j <= self.tokens@.len(),
                best matches Some(b) ==> b < j && self.tokens@[b as int].valid_at(now)
                    && capabilities_allow(self.tokens@[b as int].capabilities, *operation),
                best is None ==> forall|q: int|
                    0 <= q < j ==> !(#[trigger] self.tokens@[q]).valid_at(now) || !capabilities_allow(
                        self.tokens@[q].capabilities,
                        *operation,
                    ),
                best matches Some(b) ==> forall|q: int|
                    0 <= q < j && (#[trigger] self.tokens@[q]).valid_at(now) && capabilities_allow(
                        self.tokens@[q].capabilities,
                        *operation,
                    ) ==> self.tokens@[q].expires_at <= self.tokens@[b as int].expires_at && (q > b
                        ==> self.tokens@[q].expires_at < self.tokens@[b as int].expires_at),
            decreases self.tokens@.len() - j,
        {
            if self.tokens[j].allows_operation(operation, now) {
                match best {
                    None => {
                        best = Some(j);
                    },
                    Some(b) => {
                        if self.tokens[j].expires_at >= self.tokens[b].expires_at {
                            best = Some(j);
                        }
                    },
                }
            }
            j = j + 1;
        }
        best
    }

    /// Whether some cached token allows `operation` at `now`.
    pub fn has_valid_token(&self, operation: &TokenRequest, now: u64) -> (r: bool)
        ensures
            r == exists|j: int|
                0 <= j < self.tokens_spec().len() && (#[trigger] self.tokens_spec()[j]).valid_at(now)
                    && capabilities_allow(self.tokens_spec()[j].capabilities, *operation),
    {
        let mut j: usize = 0;
        while j < self.tokens.len()
            invariant
                j <= self.tokens@.len(),
                forall|q: int|
                    0 <= q < j ==> !(#[trigger] self.tokens@[q]).valid_at(now) || !capabilities_allow(
                        self.tokens@[q].capabilities,
                        *operation,
                    ),
            decreases self.tokens@.len() - j,
        {
            if self.tokens[j].allows_operation(operation, now) {
                return true;
            }
            j = j + 1;
        }
        false
    }

    /// The token at an index.
    pub fn token(&self, i: usize) -> (r: &SessionToken)
        requires
            i < self.tokens_spec().len(),
        ensures
            *r == self.tokens_spec()[i as int],
    {
        &self.tokens[i]
    }

    /// Act under the token at an index, as `SessionToken::use_for_operation` does.
    pub fn use_token(&mut self, i: usize, operation: TokenRequest, now: u64) -> (r: FrostResult<
        TokenSignature,
    >)
        requires
            i < old(self).tokens_spec().len(),
            old(self).tokens_spec()[i as int].usage.use_count < u64::MAX,
        ensures
            final(self).capacity() == old(self).capacity(),
            final(self).tokens_spec().len() == old(self).tokens_spec().len(),
            forall|j: int|
                0 <= j < old(self).tokens_spec().len() && j != i ==> final(self).tokens_spec()[j]
                    == old(self).tokens_spec()[j],
            r is Ok <==> old(self).tokens_spec()[i as int].valid_at(now) && capabilities_allow(
                old(self).tokens_spec()[i as int].capabilities,
                operation,
            ),
            r is Err ==> final(self).tokens_spec() == old(self).tokens_spec(),
            r matches Ok(sig) ==> sig.token_id == old(self).tokens_spec()[i as int].token_id
                && final(self).tokens_spec()[i as int].usage.use_count == old(
                self,
            ).tokens_spec()[i as int].usage.use_count + 1,
    {
        let ghost before = self.tokens@;
        let mut t = self.tokens.remove(i);
        let r = t.use_for_operation(operation, now);
        self.tokens.insert(i, t);
        proof {
            if r is Err {
                assert(self.tokens@ =~= before);
            }
        }
        r
    }

    /// Number of cached tokens.
    pub fn token_count(&self) -> (r: usize)
        ensures
            r == self.tokens_spec().len(),
    {
        self.tokens.len()
    }

    /// Whether to fetch fresh tokens: fewer than five are cached, or one of them
    /// expires within the hour after `now`.
    pub fn needs_refresh(&self, now: u64) -> (r: bool)
        ensures
            r == (self.tokens_spec().len() < 5 || exists|j: int|
                0 <= j < self.tokens_spec().len() && (#[trigger] self.tokens_spec()[j]).expires_at
                    < now + 3600),
    {
        if self.tokens.len() < 5 {
            return true;
        }
        let mut j: usize = 0;
        while j < self.tokens.len()
            invariant
                j <= self.tokens@.len(),
                forall|q: int| 0 <= q < j ==> (#[trigger] self.tokens@[q]).expires_at >= now + 3600,
            decreases self.tokens@.len() - j,
        {
            let e = self.tokens[j].expires_at;
            if e < 3600 || e - 3600 < now {
                return true;
            }
            j = j + 1;
        }
        false
    }
}

} // verus!
