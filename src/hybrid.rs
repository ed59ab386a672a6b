//! The device's signing modes: full threshold signing, a local share with one remote
//! share, a cached session token, or an emergency local-only signature.
//!
//! The network exchange with remote shares happens outside the library; what is decided
//! and computed locally is here.

use vstd::prelude::*;
use vstd::string::StringSliceAdditionalSpecFns;
use crate::arith::{group_order, le_nat};
use crate::backend::{basepoint_encoding, is_point_encoding, point_scale_of, point_sum_of, sha512_of};
use crate::encoding::append_bytes;
use crate::point::CompressedPoint;
use crate::scalar::Scalar;
use crate::session_token::{capabilities_allow, lemma_kept_was_there, lemma_valid_kept, valid_tokens, SessionToken, SessionTokenCache, TokenRequest, TokenSignature};
use crate::signing::{
    aggregate_signatures, binding_factor, commitments_decode, distinct_signers, first_signer,
    group_commitment_of, has_signer, lagrange_coefficient, response_value, signer_set, z_sum,
    PartialSignature, SigningCommitment, SigningRound1,
};
use crate::types::{challenge_value, hash_to_scalar, schnorr_valid, GroupPublicKey, ParticipantId, SchnorrSignature, SecretShare};
use crate::{FrostError, FrostResult};

verus! {

/// How a signature is produced.
#[derive(Debug, Clone, Copy, PartialEq, Eq, Structural)]
pub enum SigningMode {
    /// Every share remote.
    FullDistributed,
    /// The local share plus one remote share.
    Hybrid,
    /// Offline, under a pre-signed session token.
    SessionToken,
    /// Offline, local share only.
    DegradedLocal,
}

impl SigningMode {
    /// Security rating from one to five.
    pub fn security_level(&self) -> (r: u8)
        ensures
            r == match self {
                SigningMode::FullDistributed => 5u8,
                SigningMode::Hybrid => 4u8,
                SigningMode::SessionToken => 4u8,
                SigningMode::DegradedLocal => 2u8,
            },
    {
        match self {
            SigningMode::FullDistributed => 5,
            SigningMode::Hybrid => 4,
            SigningMode::SessionToken => 4,
            SigningMode::DegradedLocal => 2,
        }
    }

    /// Typical latency in milliseconds.
    pub fn typical_latency_ms(&self) -> (r: u64)
        ensures
            r == match self {
                SigningMode::FullDistributed => 500u64,
                SigningMode::Hybrid => 350u64,
                SigningMode::SessionToken => 50u64,
                SigningMode::DegradedLocal => 50u64,
            },
    {
        match self {
            SigningMode::FullDistributed => 500,
            SigningMode::Hybrid => 350,
            SigningMode::SessionToken => 50,
            SigningMode::DegradedLocal => 50,
        }
    }

    /// A description for users.
    pub fn description(&self) -> (r: &'static str)
        ensures
            r@ == match self {
                SigningMode::FullDistributed => "Full FROST (2-of-3 remote shares)"@,
                SigningMode::Hybrid => "Hybrid (1 local + 1 remote share)"@,
                SigningMode::SessionToken => "Offline with pre-signed token"@,
                SigningMode::DegradedLocal => "\u{26a0}\u{fe0f}  Local-only (reduced security)"@,
            },
    {
        match self {
            SigningMode::FullDistributed => "Full FROST (2-of-3 remote shares)",
            SigningMode::Hybrid => "Hybrid (1 local + 1 remote share)",
            SigningMode::SessionToken => "Offline with pre-signed token",
            SigningMode::DegradedLocal => "\u{26a0}\u{fe0f}  Local-only (reduced security)",
        }
    }
}

/// A remote holder of a share.
#[derive(Debug, Clone)]
pub struct RemoteShareEndpoint {
    /// The share's participant.
    pub participant_id: ParticipantId,
    /// Where it is held.
    pub location: String,
    /// Who operates it.
    pub operator: String,
    /// HTTPS endpoint.
    pub endpoint_url: String,
    /// TLS certificate fingerprint.
    pub cert_fingerprint: [u8; 32],
    /// Whether it is reachable now.
    pub available: bool,
    /// Average response time in milliseconds.
    pub avg_response_time: u64,
}

/// Whether any remote share is reachable.
pub open spec fn any_available(rs: Seq<RemoteShareEndpoint>) -> bool {
    exists|j: int| 0 <= j < rs.len() && (#[trigger] rs[j]).available
}

/// The challenge of a degraded local-only signature: `H("FROST-DEGRADED-v1" || R || m)`.
pub open spec fn degraded_challenge(r: Seq<u8>, m: Seq<u8>) -> nat {
    le_nat(sha512_of("FROST-DEGRADED-v1".spec_bytes() + r + m)) % group_order()
}

/// A device holding one share locally, with remote shares and a token cache.
pub struct HybridFROSTDevice {
    local_share: Option<SecretShare>,
    group_public_key: GroupPublicKey,
    token_cache: SessionTokenCache,
    remote_shares: Vec<RemoteShareEndpoint>,
    preferred_mode: SigningMode,
    allow_degraded: bool,
}

impl HybridFROSTDevice {
    /// Whether the device holds a local share.
    pub closed spec fn has_local(&self) -> bool {
        self.local_share is Some
    }

    /// The mode the device tries first.
    pub closed spec fn preferred(&self) -> SigningMode {
        self.preferred_mode
    }

    /// The group key.
    pub closed spec fn group_key(&self) -> GroupPublicKey {
        self.group_public_key
    }

    /// The value of the local share, when there is one.
    pub closed spec fn local_value(&self) -> nat {
        self.local_share.unwrap().value@
    }

    /// Whether degraded local-only signing is allowed.
    pub closed spec fn degraded_allowed(&self) -> bool {
        self.allow_degraded
    }

    /// The remote endpoints.
    pub closed spec fn remotes(&self) -> Seq<RemoteShareEndpoint> {
        self.remote_shares@
    }

    /// The token cache.
    pub closed spec fn cache(&self) -> SessionTokenCache {
        self.token_cache
    }

    /// A device with an empty cache of up to twenty tokens, preferring hybrid signing,
    /// with degraded signing off.
    pub fn new(
        local_share: Option<SecretShare>,
        group_public_key: GroupPublicKey,
        remote_shares: Vec<RemoteShareEndpoint>,
    ) -> (r: HybridFROSTDevice)
        ensures
            r.has_local() == (local_share is Some),
            r.remotes() == remote_shares@,
            !r.degraded_allowed(),
            r.preferred() == SigningMode::Hybrid,
            r.group_key() == group_public_key,
            r.cache().tokens_spec().len() == 0,
            r.cache().capacity() == 20,
    {
        HybridFROSTDevice {
            local_share,
            group_public_key,
            token_cache: SessionTokenCache::new(20),
            remote_shares,
            preferred_mode: SigningMode::Hybrid,
            allow_degraded: false,
        }
    }

    /// Allow or forbid degraded local-only signing.
    pub fn set_allow_degraded(&mut self, allow: bool)
        ensures
            final(self).degraded_allowed() == allow,
            final(self).has_local() == old(self).has_local(),
            final(self).remotes() == old(self).remotes(),
            final(self).cache() == old(self).cache(),
            final(self).preferred() == old(self).preferred(),
            final(self).group_key() == old(self).group_key(),
    {
        self.allow_degraded = allow;
    }

    /// The best mode available at `now`: hybrid with a local share and a reachable
    /// remote, else a token that unlocks, else degraded if allowed and a local share
    /// exists, else full distributed.
    pub fn get_current_mode(&self, now: u64) -> (r: SigningMode)
        ensures
            r == if self.has_local() && any_available(self.remotes()) {
                SigningMode::Hybrid
            } else if exists|j: int|
                0 <= j < self.cache().tokens_spec().len() && (#[trigger] self.cache().tokens_spec()[j]).valid_at(now)
                    && capabilities_allow(
                    self.cache().tokens_spec()[j].capabilities,
                    TokenRequest::DeviceUnlock,
                ) {
                SigningMode::SessionToken
            } else if self.degraded_allowed() && self.has_local() {
                SigningMode::DegradedLocal
            } else {
                SigningMode::FullDistributed
            },
    {
        if self.local_share.is_some() {
            let mut j: usize = 0;
            while j < self.remote_shares.len()
                invariant
                    self.local_share is Some,
                    j <= self.remote_shares@.len(),
                    forall|q: int| 0 <= q < j ==> !(#[trigger] self.remote_shares@[q]).available,
                decreases self.remote_shares@.len() - j,
            {
                if self.remote_shares[j].available {
                    assert(any_available(self.remote_shares@));
                    return SigningMode::Hybrid;
                }
                j = j + 1;
            }
        }
        if self.token_cache.has_valid_token(&TokenRequest::DeviceUnlock, now) {
            return SigningMode::SessionToken;
        }
        if self.allow_degraded && self.local_share.is_some() {
            return SigningMode::DegradedLocal;
        }
        SigningMode::FullDistributed
    }

    /// The group key the device signs for.
    pub fn group_public_key(&self) -> (r: &GroupPublicKey)
        ensures
            *r == self.group_key(),
    {
        &self.group_public_key
    }

    /// The first reachable remote share, if any.
    pub fn available_remote(&self) -> (r: Option<usize>)
        ensures
            r is None <==> !any_available(self.remotes()),
            r matches Some(j) ==> j < self.remotes().len() && self.remotes()[j as int].available
                && forall|q: int| 0 <= q < j ==> !(#[trigger] self.remotes()[q]).available,
    {
        let mut j: usize = 0;
        while j < self.remote_shares.len()
            invariant
                j <= self.remote_shares@.len(),
                forall|q: int| 0 <= q < j ==> !(#[trigger] self.remote_shares@[q]).available,
            decreases self.remote_shares@.len() - j,
        {
            if self.remote_shares[j].available {
                return Some(j);
            }
            j = j + 1;
        }
        None
    }

    /// The remote endpoint at an index.
    pub fn remote(&self, j: usize) -> (r: &RemoteShareEndpoint)
        requires
            j < self.remotes().len(),
        ensures
            *r == self.remotes()[j as int],
    {
        &self.remote_shares[j]
    }

    /// Round 1 of a hybrid signature with the local share, when hybrid signing is
    /// preferred and a local share is held.
    pub fn hybrid_round1(&self, rng: &mut rand::rngs::StdRng) -> (r: Option<SigningRound1>)
        ensures
            r is Some <==> self.has_local() && self.preferred() == SigningMode::Hybrid,
            r matches Some(r1) ==> r1.wf(),
    {
        if self.preferred_mode != SigningMode::Hybrid {
            return None;
        }
        match &self.local_share {
            Some(local) => Some(SigningRound1::new(local.participant_id, local, rng)),
            None => None,
        }
    }

    /// Whether the token cache should be refilled at `now`.
    pub fn needs_token_refresh(&self, now: u64) -> (r: bool)
        ensures
            r == (self.cache().tokens_spec().len() < 5 || exists|j: int|
                0 <= j < self.cache().tokens_spec().len() && (
                #[trigger] self.cache().tokens_spec()[j]).expires_at < now + 3600),
    {
        self.token_cache.needs_refresh(now)
    }

    /// Add a freshly signed token to the cache.
    pub fn add_token(&mut self, token: SessionToken, now: u64) -> (r: FrostResult<()>)
        ensures
            r is Ok,
    {
        self.token_cache.add_token(token, now)
    }

    /// An ordinary Schnorr signature under the local share alone, with challenge
    /// `H("FROST-DEGRADED-v1" || R || m)`. It verifies under the share's own public key
    /// `Y_i`, never under the group key.
    pub fn local_only_sign(
        &self,
        message: &[u8],
        local_share: &SecretShare,
        rng: &mut rand::rngs::StdRng,
    ) -> (r: FrostResult<SchnorrSignature>)
        ensures
            r matches Ok(sig) ==> exists|k: nat|
                k < group_order() && sig.commitment@ == point_scale_of(k, basepoint_encoding())
                    && le_nat(sig.z@) == (k + degraded_challenge(sig.commitment@, message@)
                    * local_share.value@) % group_order(),
            r is Ok,
    {
        let nonce = Scalar::random(rng);
        let big_r = CompressedPoint::basepoint().scale(&nonce);
        let mut data: Vec<u8> = Vec::new();
        append_bytes(&mut data, "FROST-DEGRADED-v1".as_bytes());
        append_bytes(&mut data, &big_r.bytes);
        append_bytes(&mut data, message);
        let challenge = hash_to_scalar(data.as_slice());
        let z = nonce.add(&challenge.mul(local_share.value.as_scalar()));
        proof {
            nonce.lemma_bound();
            let m = group_order() as int;
            let c = challenge@ as int;
            let sv = local_share.value@ as int;
            vstd::arithmetic::div_mod::lemma_add_mod_noop(nonce@ as int, c * sv, m);
            vstd::arithmetic::div_mod::lemma_small_mod(nonce@, group_order());
            vstd::arithmetic::div_mod::lemma_mod_twice(c * sv, m);
            assert(c * sv == degraded_challenge(big_r@, message@) * local_share.value@);
        }
        Ok(SchnorrSignature { z: z.to_bytes(), commitment: big_r })
    }

    /// The placeholder signature a token stands for: its first 32 signature bytes,
    /// with an all-zero commitment.
    pub fn token_to_signature(&self, token_sig: TokenSignature) -> (r: FrostResult<SchnorrSignature>)
        ensures
            r matches Ok(sig) ==> sig.z@ == token_sig.signature@.subrange(0, 32)
                && sig.commitment@ == Seq::new(32, |i: int| 0u8),
            r is Ok,
    {
        let mut z = [0u8; 32];
        let mut i: usize = 0;
        while i < 32
            invariant
                i <= 32,
                forall|q: int| 0 <= q < i ==> z@[q] == token_sig.signature@[q],
            decreases 32 - i,
        {
            z[i] = token_sig.signature[i];
            i = i + 1;
        }
        let sig = SchnorrSignature { z, commitment: CompressedPoint::from_bytes([0u8; 32]) };
        assert(sig.z@ =~= token_sig.signature@.subrange(0, 32));
        assert(sig.commitment@ =~= Seq::new(32, |i: int| 0u8));
        Ok(sig)
    }

    /// The offline part of signing, tried after the hybrid exchange: a token that allows
    /// unlocking (the longest-lived one), else, if allowed, a degraded local-only
    /// signature; else no path.
    pub fn sign_offline(&mut self, message: &[u8], now: u64, rng: &mut rand::rngs::StdRng) -> (r:
        FrostResult<SchnorrSignature>)
        ensures
            r is Err ==> r matches Err(FrostError::CryptoError(_)),
            unlock_available(old(self).cache().tokens_spec(), now) && unlock_countable(
                old(self).cache().tokens_spec(),
                now,
            ) ==> r is Ok && exists|i: int|
                0 <= i < valid_tokens(old(self).cache().tokens_spec(), now).len()
                    && final(self).cache().tokens_spec().len() == valid_tokens(
                    old(self).cache().tokens_spec(),
                    now,
                ).len() && (#[trigger] final(self).cache().tokens_spec()[i]).usage.use_count
                    == valid_tokens(old(self).cache().tokens_spec(), now)[i].usage.use_count + 1,
            !unlock_available(old(self).cache().tokens_spec(), now) && old(self).degraded_allowed()
                && old(self).has_local() ==> (r matches Ok(sig) && exists|k: nat|
                k < group_order() && sig.commitment@ == point_scale_of(k, basepoint_encoding())
                    && le_nat(sig.z@) == (k + degraded_challenge(sig.commitment@, message@)
                    * old(self).local_value()) % group_order()),
            !unlock_available(old(self).cache().tokens_spec(), now) && !(old(self).degraded_allowed()
                && old(self).has_local()) ==> r is Err,
    {
        let ghost ts = old(self).cache().tokens_spec();
        match self.token_cache.get_valid_token(&TokenRequest::DeviceUnlock, now) {
            Some(i) => {
                proof {
                    lemma_kept_was_there(ts, now, i as int);
                    let t = valid_tokens(ts, now)[i as int];
                    let j = choose|j: int| 0 <= j < ts.len() && ts[j] == t;
                    assert(ts[j].valid_at(now));
                    assert(unlock_available(ts, now));
                    if unlock_countable(ts, now) {
                        assert(ts[j].usage.use_count < u64::MAX);
                    }
                }
                let ghost cleaned = self.token_cache.tokens_spec();
                if self.token_cache.token(i).usage.use_count < u64::MAX {
                    match self.token_cache.use_token(i, TokenRequest::DeviceUnlock, now) {
                        Ok(token_sig) => {
                            assert(self.token_cache.tokens_spec()[i as int].usage.use_count
                                == cleaned[i as int].usage.use_count + 1);
                            assert(cleaned == valid_tokens(ts, now));
                            assert(self.cache().tokens_spec().len() == cleaned.len());
                            let r = self.token_to_signature(token_sig);
                            assert(r is Ok);
                            return r;
                        },
                        Err(_) => {},
                    }
                }
            },
            None => {
                proof {
                    assert forall|j: int|
                        0 <= j < ts.len() && (#[trigger] ts[j]).valid_at(now) implies !capabilities_allow(
                        ts[j].capabilities,
                        TokenRequest::DeviceUnlock,
                    ) by {
                        lemma_valid_kept(ts, now, j);
                    }
                }
            },
        }
        if self.allow_degraded {
            match &self.local_share {
                Some(local) => {
                    return self.local_only_sign(message, local, rng);
                },
                None => {},
            }
        }
        Err(FrostError::CryptoError("no valid signing path available".to_owned()))
    }
}

/// Whether some token is valid at `now` and allows unlocking.
pub open spec fn unlock_available(ts: Seq<SessionToken>, now: u64) -> bool {
    exists|j: int|
        0 <= j < ts.len() && (#[trigger] ts[j]).valid_at(now) && capabilities_allow(
            ts[j].capabilities,
            TokenRequest::DeviceUnlock,
        )
}

/// Whether every token that is valid at `now` and allows unlocking can count one
/// more use.
pub open spec fn unlock_countable(ts: Seq<SessionToken>, now: u64) -> bool {
    forall|j: int|
        0 <= j < ts.len() && (#[trigger] ts[j]).valid_at(now) && capabilities_allow(
            ts[j].capabilities,
            TokenRequest::DeviceUnlock,
        ) ==> ts[j].usage.use_count < u64::MAX
}

/// The two commitments of a hybrid session: the local signer's, then the remote one's.
pub open spec fn hybrid_commitments(local: SigningRound1, remote: SigningCommitment) -> Seq<
    SigningCommitment,
> {
    seq![local.commitment_spec(), remote]
}

/// The local partial signature of a hybrid session.
pub open spec fn hybrid_local_response(
    local: SigningRound1,
    remote: SigningCommitment,
    m: Seq<u8>,
    pk: Seq<u8>,
) -> nat {
    let cs = hybrid_commitments(local, remote);
    let big_r = group_commitment_of(m, cs);
    response_value(
        local.hiding(),
        local.binding(),
        binding_factor(m, cs[0]),
        lagrange_coefficient(signer_set(cs), local.id().0),
        local.share(),
        challenge_value(big_r, pk, m),
    )
}

/// The Schnorr equation `z*G == R + c*PK` for a response value `z`, with both points
/// decoding.
pub open spec fn schnorr_holds(z: nat, r: Seq<u8>, pk: Seq<u8>, m: Seq<u8>) -> bool {
    &&& is_point_encoding(pk)
    &&& is_point_encoding(r)
    &&& point_scale_of(z, basepoint_encoding()) == point_sum_of(
        r,
        point_scale_of(challenge_value(r, pk, m), pk),
    )
}

/// Finish a hybrid signature once the remote share has answered: run round 2 locally
/// over both commitments, aggregate both partial signatures, and release the result
/// only if it verifies under the group key. It succeeds exactly when the remote
/// commitment decodes, the remote signer is another participant, and the aggregate
/// `(R, z_local + z_remote)` satisfies the Schnorr equation.
#[verifier::rlimit(80)]
pub fn finish_hybrid(
    local_round1: SigningRound1,
    remote_commitment: SigningCommitment,
    remote_partial: PartialSignature,
    message: &[u8],
    group_public_key: &GroupPublicKey,
) -> (r: FrostResult<SchnorrSignature>)
    requires
        local_round1.wf(),
    ensures
        r is Ok <==> commitments_decode(hybrid_commitments(local_round1, remote_commitment))
            && remote_partial.participant_id != local_round1.id() && schnorr_holds(
            ((hybrid_local_response(
                local_round1,
                remote_commitment,
                message@,
                group_public_key.public_key@,
            ) + remote_partial.z@) % group_order()),
            group_commitment_of(message@, hybrid_commitments(local_round1, remote_commitment)),
            group_public_key.public_key@,
            message@,
        ),
        r matches Ok(sig) ==> sig.commitment@ == group_commitment_of(
            message@,
            hybrid_commitments(local_round1, remote_commitment),
        ) && le_nat(sig.z@) == (hybrid_local_response(
            local_round1,
            remote_commitment,
            message@,
            group_public_key.public_key@,
        ) + remote_partial.z@) % group_order(),
        r matches Ok(sig) ==> schnorr_valid(
            sig.z@,
            sig.commitment@,
            group_public_key.public_key@,
            message@,
        ),
{
    let ghost cs = hybrid_commitments(local_round1, remote_commitment);
    let local_commitment = local_round1.commitment();
    let commitments = vec![local_commitment, remote_commitment];
    assert(commitments@ =~= cs);
    assert(has_signer(cs, local_round1.id())) by {
        assert(cs[0].participant_id == local_round1.id());
    }
    assert(forall|j: int| first_signer(cs, j, local_round1.id()) ==> j == 0);
    let round2 = match local_round1.into_round2(
        message,
        commitments.as_slice(),
        &group_public_key.public_key,
    ) {
        Ok(r2) => r2,
        Err(e) => {
            return Err(e);
        },
    };
    let ghost pk = group_public_key.public_key@;
    let ghost zl = hybrid_local_response(local_round1, remote_commitment, message@, pk);
    let ghost big_r = group_commitment_of(message@, cs);
    proof {
        let j = choose|j: int|
            first_signer(commitments@, j, local_round1.id()) && {
                let big_r = group_commitment_of(message@, commitments@);
                let c = challenge_value(big_r, group_public_key.public_key@, message@);
                &&& round2.id() == local_round1.id()
                &&& round2.commitment_spec() == big_r
                &&& round2.challenge_spec() == c
                &&& round2.response() == response_value(
                    local_round1.hiding(),
                    local_round1.binding(),
                    binding_factor(message@, #[trigger] commitments@[j]),
                    lagrange_coefficient(signer_set(commitments@), local_round1.id().0),
                    local_round1.share(),
                    c,
                )
            };
        assert(j == 0);
        assert(round2.response() == zl);
        assert(round2.commitment_spec() == big_r);
    }
    let local_partial = round2.partial_signature();
    let group_commitment = round2.group_commitment();
    let partials = vec![local_partial, remote_partial];
    proof {
        assert(partials@.drop_last().drop_last().len() == 0);
        assert(z_sum(partials@) == local_partial.z@ + remote_partial.z@) by {
            assert(partials@.drop_last() =~= seq![local_partial]);
            assert(partials@.last() == remote_partial);
            assert(seq![local_partial].drop_last() =~= Seq::<PartialSignature>::empty());
            assert(seq![local_partial].last() == local_partial);
            assert(z_sum(Seq::<PartialSignature>::empty()) == 0);
            assert(z_sum(seq![local_partial]) == local_partial.z@);
        }
        if remote_partial.participant_id == local_round1.id() {
            assert(partials@[0].participant_id == partials@[1].participant_id);
            assert(!distinct_signers(partials@));
        } else {
            assert(distinct_signers(partials@));
        }
    }
    let signature = match aggregate_signatures(message, &group_commitment, partials.as_slice()) {
        Ok(sig) => sig,
        Err(e) => {
            return Err(e);
        },
    };
    proof {
        local_partial.z.lemma_bound();
        remote_partial.z.lemma_bound();
    }
    assert(signature.commitment@ == big_r);
    assert(le_nat(signature.z@) == (zl + remote_partial.z@) % group_order());
    if !group_public_key.verify_signature(message, &signature) {
        return Err(FrostError::CryptoError("signature verification failed".to_owned()));
    }
    Ok(signature)
}

} // verus!
