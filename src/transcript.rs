//! Tamper-evident ceremony transcripts: a SHA-256 digest over a canonical encoding of
//! each ceremony, with every rotation naming the digest of the ceremony before it.

use vstd::prelude::*;
use vstd::string::StringSliceAdditionalSpecFns;
use crate::backend::{sha256, sha256_of};
use crate::encoding::{
    append_bytes, lemma_u32_le_injective, lemma_u64_le_injective, u32_le, u32_to_le, u64_le, u64_to_le,
};
use crate::memory::MemoryGuard;

verus! {

/// The version written into every transcript.
pub const TRANSCRIPT_VERSION: u32 = 1;

/// A list of messages, each preceded by its length as 8 little-endian bytes.
pub open spec fn framed(ms: Seq<Seq<u8>>) -> Seq<u8>
    decreases ms.len(),
{
    if ms.len() == 0 {
        Seq::empty()
    } else {
        u64_le(ms[0].len() as u64) + ms[0] + framed(ms.drop_first())
    }
}

/// Framing one more message appends its frame.
pub proof fn lemma_framed_push(ms: Seq<Seq<u8>>, m: Seq<u8>)
    ensures
        framed(ms.push(m)) == framed(ms) + u64_le(m.len() as u64) + m,
    decreases ms.len(),
{
    if ms.len() == 0 {
        assert(ms.push(m).drop_first() =~= Seq::<Seq<u8>>::empty());
        assert(ms.push(m)[0] == m);
        assert(framed(Seq::<Seq<u8>>::empty()) =~= Seq::<u8>::empty());
        assert(framed(ms) =~= Seq::<u8>::empty());
        assert(framed(ms.push(m)) =~= framed(ms) + u64_le(m.len() as u64) + m);
    } else {
        lemma_framed_push(ms.drop_first(), m);
        assert(ms.push(m).drop_first() =~= ms.drop_first().push(m));
        assert(framed(ms.push(m)) =~= framed(ms) + u64_le(m.len() as u64) + m);
    }
}

/// Whether every message's length fits the 8-byte frame.
pub open spec fn frameable(ms: Seq<Seq<u8>>) -> bool {
    forall|i: int| 0 <= i < ms.len() ==> (#[trigger] ms[i]).len() <= u64::MAX
}

/// The framing of a list of messages determines the list.
pub proof fn lemma_framed_injective(a: Seq<Seq<u8>>, b: Seq<Seq<u8>>)
    requires
        frameable(a),
        frameable(b),
        framed(a) == framed(b),
    ensures
        a == b,
    decreases a.len(),
{
    if a.len() == 0 {
        if b.len() > 0 {
            assert(framed(b).len() >= 8);
        }
        assert(a =~= b);
    } else {
        if b.len() == 0 {
            assert(framed(a).len() >= 8);
        }
        let fa = framed(a);
        let la = a[0].len() as int;
        let lb = b[0].len() as int;
        assert(fa.subrange(0, 8) =~= u64_le(la as u64));
        assert(framed(b).subrange(0, 8) =~= u64_le(lb as u64));
        lemma_u64_le_injective(la as u64, lb as u64);
        assert(fa.subrange(8, 8 + la) =~= a[0]);
        assert(framed(b).subrange(8, 8 + lb) =~= b[0]);
        assert(fa.subrange(8 + la, fa.len() as int) =~= framed(a.drop_first()));
        assert(framed(b).subrange(8 + lb, framed(b).len() as int) =~= framed(b.drop_first()));
        assert(frameable(a.drop_first()) && frameable(b.drop_first())) by {
            assert forall|i: int| 0 <= i < a.drop_first().len() implies (#[trigger] a.drop_first()[i]).len() <= u64::MAX by {
                assert(a.drop_first()[i] == a[i + 1]);
            }
            assert forall|i: int| 0 <= i < b.drop_first().len() implies (#[trigger] b.drop_first()[i]).len() <= u64::MAX by {
                assert(b.drop_first()[i] == b[i + 1]);
            }
        }
        lemma_framed_injective(a.drop_first(), b.drop_first());
        assert(a =~= seq![a[0]] + a.drop_first());
        assert(b =~= seq![b[0]] + b.drop_first());
    }
}

/// The bytes of a list of owned messages.
pub open spec fn message_views(ms: Seq<Vec<u8>>) -> Seq<Seq<u8>> {
    ms.map_values(|m: Vec<u8>| m@)
}

/// The hashed encoding of a key-generation transcript.
pub open spec fn dkg_transcript_bytes(
    version: u32,
    timestamp: u64,
    threshold: u32,
    num_participants: u32,
    msgs: Seq<Seq<u8>>,
) -> Seq<u8> {
    "FROST-DKG-TRANSCRIPT-v1".spec_bytes() + u32_le(version) + u64_le(timestamp) + u32_le(threshold)
        + u32_le(num_participants) + framed(msgs)
}

/// The hashed encoding of a rotation transcript.
pub open spec fn rotation_transcript_bytes(
    version: u32,
    timestamp: u64,
    previous_hash: Seq<u8>,
    msgs: Seq<Seq<u8>>,
) -> Seq<u8> {
    "FROST-ROTATION-TRANSCRIPT-v1".spec_bytes() + u32_le(version) + u64_le(timestamp)
        + previous_hash + framed(msgs)
}

/// Append each message, framed by its length.
fn append_framed(data: &mut Vec<u8>, msgs: &Vec<Vec<u8>>)
    ensures
        final(data)@ == old(data)@ + framed(message_views(msgs@)),
{
    let ghost start = data@;
    let mut k: usize = 0;
    while k < msgs.len()
        invariant
            k <= msgs@.len(),
            data@ == start + framed(message_views(msgs@.subrange(0, k as int))),
        decreases msgs@.len() - k,
    {
        let ghost prev = msgs@.subrange(0, k as int);
        let len = u64_to_le(msgs[k].len() as u64);
        append_bytes(data, len.as_slice());
        append_bytes(data, msgs[k].as_slice());
        proof {
            let next = msgs@.subrange(0, k + 1);
            assert(message_views(next) =~= message_views(prev).push(msgs@[k as int]@));
            lemma_framed_push(message_views(prev), msgs@[k as int]@);
            assert(data@ =~= start + framed(message_views(next)));
        }
        k = k + 1;
    }
    assert(msgs@.subrange(0, msgs@.len() as int) =~= msgs@);
}

/// Transcript of a key-generation ceremony.
#[derive(Debug, Clone)]
pub struct DkgTranscript {
    /// Protocol version.
    pub version: u32,
    /// Unix time of the ceremony, in seconds.
    pub timestamp: u64,
    /// The threshold `t`.
    pub threshold: u32,
    /// The number of participants `n`.
    pub num_participants: u32,
    /// The canonical encodings of the round-1 broadcasts, in participant order.
    pub round1_broadcasts: Vec<Vec<u8>>,
    /// The digest of all of the above.
    pub transcript_hash: [u8; 32],
}

impl DkgTranscript {
    /// The digest that the fields call for.
    pub open spec fn expected_hash(&self) -> Seq<u8> {
        sha256_of(
            dkg_transcript_bytes(
                self.version,
                self.timestamp,
                self.threshold,
                self.num_participants,
                message_views(self.round1_broadcasts@),
            ),
        )
    }

    /// Record a ceremony and seal it with its digest.
    pub fn new(
        timestamp: u64,
        threshold: u32,
        num_participants: u32,
        round1_broadcasts: Vec<Vec<u8>>,
    ) -> (r: DkgTranscript)
        ensures
            r.version == TRANSCRIPT_VERSION,
            r.timestamp == timestamp,
            r.threshold == threshold,
            r.num_participants == num_participants,
            r.round1_broadcasts@ == round1_broadcasts@,
            r.transcript_hash@ == r.expected_hash(),
    {
        let mut t = DkgTranscript {
            version: TRANSCRIPT_VERSION,
            timestamp,
            threshold,
            num_participants,
            round1_broadcasts,
            transcript_hash: [0u8; 32],
        };
        t.transcript_hash = t.compute_hash();
        t
    }

    /// The digest of the transcript's fields.
    pub fn compute_hash(&self) -> (r: [u8; 32])
        ensures
            r@ == self.expected_hash(),
    {
        let mut data: Vec<u8> = Vec::new();
        append_bytes(&mut data, "FROST-DKG-TRANSCRIPT-v1".as_bytes());
        append_bytes(&mut data, &u32_to_le(self.version));
        append_bytes(&mut data, u64_to_le(self.timestamp).as_slice());
        append_bytes(&mut data, &u32_to_le(self.threshold));
        append_bytes(&mut data, &u32_to_le(self.num_participants));
        append_framed(&mut data, &self.round1_broadcasts);
        sha256(data.as_slice())
    }

    /// Whether the stored digest matches the fields.
    pub fn verify(&self) -> (r: bool)
        ensures
            r == (self.transcript_hash@ == self.expected_hash()),
    {
        let h = self.compute_hash();
        MemoryGuard::constant_time_eq(&self.transcript_hash, &h)
    }
}

/// Transcript of a share rotation, chained to the ceremony before it.
#[derive(Debug, Clone)]
pub struct RotationTranscript {
    /// Protocol version.
    pub version: u32,
    /// Unix time of the rotation, in seconds.
    pub timestamp: u64,
    /// The digest of the previous key-generation or rotation transcript.
    pub previous_hash: [u8; 32],
    /// The canonical encodings of the rotation commitments, in participant order.
    pub commitments: Vec<Vec<u8>>,
    /// The digest of all of the above.
    pub transcript_hash: [u8; 32],
}

impl RotationTranscript {
    /// The digest that the fields call for.
    pub open spec fn expected_hash(&self) -> Seq<u8> {
        sha256_of(
            rotation_transcript_bytes(
                self.version,
                self.timestamp,
                self.previous_hash@,
                message_views(self.commitments@),
            ),
        )
    }

    /// Record a rotation after the ceremony whose digest is `previous_hash`.
    pub fn new(timestamp: u64, previous_hash: [u8; 32], commitments: Vec<Vec<u8>>) -> (r:
        RotationTranscript)
        ensures
            r.version == TRANSCRIPT_VERSION,
            r.timestamp == timestamp,
            r.previous_hash == previous_hash,
            r.commitments@ == commitments@,
            r.transcript_hash@ == r.expected_hash(),
    {
        let mut t = RotationTranscript {
            version: TRANSCRIPT_VERSION,
            timestamp,
            previous_hash,
            commitments,
            transcript_hash: [0u8; 32],
        };
        t.transcript_hash = t.compute_hash();
        t
    }

    /// The digest of the transcript's fields.
    pub fn compute_hash(&self) -> (r: [u8; 32])
        ensures
            r@ == self.expected_hash(),
    {
        let mut data: Vec<u8> = Vec::new();
        append_bytes(&mut data, "FROST-ROTATION-TRANSCRIPT-v1".as_bytes());
        append_bytes(&mut data, &u32_to_le(self.version));
        append_bytes(&mut data, u64_to_le(self.timestamp).as_slice());
        append_bytes(&mut data, &self.previous_hash);
        append_framed(&mut data, &self.commitments);
        sha256(data.as_slice())
    }

    /// Whether the stored digest matches the fields.
    pub fn verify(&self) -> (r: bool)
        ensures
            r == (self.transcript_hash@ == self.expected_hash()),
    {
        let h = self.compute_hash();
        MemoryGuard::constant_time_eq(&self.transcript_hash, &h)
    }
}

/// Whether a history is intact: the genesis transcript and every rotation verify, and
/// each rotation names the digest of the transcript just before it.
pub open spec fn chain_intact(genesis: DkgTranscript, rotations: Seq<RotationTranscript>) -> bool {
    &&& genesis.transcript_hash@ == genesis.expected_hash()
    &&& forall|k: int|
        0 <= k < rotations.len() ==> (#[trigger] rotations[k]).transcript_hash@
            == rotations[k].expected_hash()
    &&& forall|k: int|
        0 <= k < rotations.len() ==> (#[trigger] rotations[k]).previous_hash@ == if k == 0 {
            genesis.transcript_hash@
        } else {
            rotations[k - 1].transcript_hash@
        }
}

/// Check a whole history back to its genesis transcript.
#[verifier::rlimit(40)]
pub fn verify_chain(genesis: &DkgTranscript, rotations: &[RotationTranscript]) -> (r: bool)
    ensures
        r == chain_intact(*genesis, rotations@),
{
    if !genesis.verify() {
        return false;
    }
    let mut k: usize = 0;
    while k < rotations.len()
        invariant
            k <= rotations@.len(),
            genesis.transcript_hash@ == genesis.expected_hash(),
            forall|q: int|
                0 <= q < k ==> (#[trigger] rotations@[q]).transcript_hash@
                    == rotations@[q].expected_hash(),
            forall|q: int|
                0 <= q < k ==> (#[trigger] rotations@[q]).previous_hash@ == if q == 0 {
                    genesis.transcript_hash@
                } else {
                    rotations@[q - 1].transcript_hash@
                },
        decreases rotations@.len() - k,
    {
        let t = &rotations[k];
        if !t.verify() {
            return false;
        }
        let linked = if k == 0 {
            MemoryGuard::constant_time_eq(&t.previous_hash, &genesis.transcript_hash)
        } else {
            MemoryGuard::constant_time_eq(&t.previous_hash, &rotations[k - 1].transcript_hash)
        };
        if !linked {
            return false;
        }
        k = k + 1;
    }
    true
}

/// Two rotation transcripts that hash the same bytes have the same version, time,
/// previous digest and commitments: any altered field changes the hashed encoding, so
/// the stored digest no longer matches unless SHA-256 collides.
#[verifier::rlimit(60)]
pub proof fn lemma_rotation_encoding_injective(a: RotationTranscript, b: RotationTranscript)
    requires
        frameable(message_views(a.commitments@)),
        frameable(message_views(b.commitments@)),
        rotation_transcript_bytes(a.version, a.timestamp, a.previous_hash@, message_views(a.commitments@))
            == rotation_transcript_bytes(
            b.version,
            b.timestamp,
            b.previous_hash@,
            message_views(b.commitments@),
        ),
    ensures
        a.version == b.version,
        a.timestamp == b.timestamp,
        a.previous_hash == b.previous_hash,
        message_views(a.commitments@) == message_views(b.commitments@),
{
    let label = "FROST-ROTATION-TRANSCRIPT-v1".spec_bytes();
    let l = label.len() as int;
    let ea = rotation_transcript_bytes(a.version, a.timestamp, a.previous_hash@, message_views(a.commitments@));
    let eb = rotation_transcript_bytes(b.version, b.timestamp, b.previous_hash@, message_views(b.commitments@));
    assert(ea.subrange(l, l + 4) =~= u32_le(a.version));
    assert(eb.subrange(l, l + 4) =~= u32_le(b.version));
    lemma_u32_le_injective(a.version, b.version);
    assert(ea.subrange(l + 4, l + 12) =~= u64_le(a.timestamp));
    assert(eb.subrange(l + 4, l + 12) =~= u64_le(b.timestamp));
    lemma_u64_le_injective(a.timestamp, b.timestamp);
    assert(ea.subrange(l + 12, l + 44) =~= a.previous_hash@);
    assert(eb.subrange(l + 12, l + 44) =~= b.previous_hash@);
    assert(a.previous_hash@ == b.previous_hash@);
    assert(a.previous_hash =~= b.previous_hash);
    assert(ea.subrange(l + 44, ea.len() as int) =~= framed(message_views(a.commitments@)));
    assert(eb.subrange(l + 44, eb.len() as int) =~= framed(message_views(b.commitments@)));
    lemma_framed_injective(message_views(a.commitments@), message_views(b.commitments@));
}

/// Two key-generation transcripts that hash the same bytes have the same version, time,
/// parameters and broadcasts.
#[verifier::rlimit(60)]
pub proof fn lemma_dkg_encoding_injective(a: DkgTranscript, b: DkgTranscript)
    requires
        frameable(message_views(a.round1_broadcasts@)),
        frameable(message_views(b.round1_broadcasts@)),
        dkg_transcript_bytes(
            a.version,
            a.timestamp,
            a.threshold,
            a.num_participants,
            message_views(a.round1_broadcasts@),
        ) == dkg_transcript_bytes(
            b.version,
            b.timestamp,
            b.threshold,
            b.num_participants,
            message_views(b.round1_broadcasts@),
        ),
    ensures
        a.version == b.version,
        a.timestamp == b.timestamp,
        a.threshold == b.threshold,
        a.num_participants == b.num_participants,
        message_views(a.round1_broadcasts@) == message_views(b.round1_broadcasts@),
{
    let label = "FROST-DKG-TRANSCRIPT-v1".spec_bytes();
    let l = label.len() as int;
    let ea = dkg_transcript_bytes(a.version, a.timestamp, a.threshold, a.num_participants, message_views(a.round1_broadcasts@));
    let eb = dkg_transcript_bytes(b.version, b.timestamp, b.threshold, b.num_participants, message_views(b.round1_broadcasts@));
    assert(ea.subrange(l, l + 4) =~= u32_le(a.version));
    assert(eb.subrange(l, l + 4) =~= u32_le(b.version));
    lemma_u32_le_injective(a.version, b.version);
    assert(ea.subrange(l + 4, l + 12) =~= u64_le(a.timestamp));
    assert(eb.subrange(l + 4, l + 12) =~= u64_le(b.timestamp));
    lemma_u64_le_injective(a.timestamp, b.timestamp);
    assert(ea.subrange(l + 12, l + 16) =~= u32_le(a.threshold));
    assert(eb.subrange(l + 12, l + 16) =~= u32_le(b.threshold));
    lemma_u32_le_injective(a.threshold, b.threshold);
    assert(ea.subrange(l + 16, l + 20) =~= u32_le(a.num_participants));
    assert(eb.subrange(l + 16, l + 20) =~= u32_le(b.num_participants));
    lemma_u32_le_injective(a.num_participants, b.num_participants);
    assert(ea.subrange(l + 20, ea.len() as int) =~= framed(message_views(a.round1_broadcasts@)));
    assert(eb.subrange(l + 20, eb.len() as int) =~= framed(message_views(b.round1_broadcasts@)));
    lemma_framed_injective(message_views(a.round1_broadcasts@), message_views(b.round1_broadcasts@));
}

} // verus!
