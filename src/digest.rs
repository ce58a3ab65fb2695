//! Typed header digest items (pre-digest, seal, solution-range and salt
//! descriptors) and their encoding into the opaque digest log of a header.

use vstd::prelude::*;

use crate::bytes::{
    copy_bytes, copy_range, from_le_u32, from_le_u64, le_u32, le_u64, lemma_le_u32_round_trip,
    lemma_le_u64_round_trip, push_all, push_u32_le, push_u64_le, read_u32_le, read_u64_le,
};

verus! {

/// Length of a farmer public key.
pub const PUBLIC_KEY_SIZE: usize = 32;

/// Length of a tag.
pub const TAG_SIZE: usize = 8;

/// Length of a VRF output.
pub const VRF_OUTPUT_SIZE: usize = 32;

/// Length of a VRF proof.
pub const VRF_PROOF_SIZE: usize = 64;

/// Length of a seal signature.
pub const SIGNATURE_SIZE: usize = 64;

/// Length of a salt.
pub const SALT_SIZE: usize = 8;

/// Size of a piece of archived history.
pub const PIECE_SIZE: usize = 4096;

/// Bytes of an encoded pre-digest before the piece encoding: slot, public key,
/// reward address, piece index and the length of the piece encoding.
pub const PRE_DIGEST_PREFIX_SIZE: usize = 84;

/// Bytes of an encoded pre-digest after the piece encoding: tag and the two
/// VRF outputs with their proofs.
pub const PRE_DIGEST_SUFFIX_SIZE: usize = 200;

/// First byte of a solution-range descriptor's payload.
pub const SOLUTION_RANGE_DESCRIPTOR_KIND: u8 = 0;

/// First byte of a salt descriptor's payload.
pub const SALT_DESCRIPTOR_KIND: u8 = 1;

/// Whether `id` is the engine identifier of this protocol, `SUB_`.
pub open spec fn is_subspace_engine(id: Seq<u8>) -> bool {
    id == seq![0x53u8, 0x55u8, 0x42u8, 0x5fu8]
}

/// The engine identifier of this protocol, `SUB_`.
pub fn subspace_engine_id() -> (r: [u8; 4])
    ensures
        is_subspace_engine(r@),
{
    let r: [u8; 4] = [0x53u8, 0x55u8, 0x42u8, 0x5fu8];
    assert(r@ =~= seq![0x53u8, 0x55u8, 0x42u8, 0x5fu8]);
    r
}

/// Whether `id` is the engine identifier of this protocol.
pub fn engine_is_subspace(id: &[u8; 4]) -> (r: bool)
    ensures
        r == is_subspace_engine(id@),
{
    let r = id[0] == 0x53u8 && id[1] == 0x55u8 && id[2] == 0x42u8 && id[3] == 0x5fu8;
    assert(r ==> id@ =~= seq![0x53u8, 0x55u8, 0x42u8, 0x5fu8]);
    r
}

/// A VRF output together with its proof.
pub struct VrfSignature {
    pub output: Vec<u8>,
    pub proof: Vec<u8>,
}

pub struct VrfSignatureModel {
    pub output: Seq<u8>,
    pub proof: Seq<u8>,
}

impl View for VrfSignature {
    type V = VrfSignatureModel;

    open spec fn view(&self) -> VrfSignatureModel {
        VrfSignatureModel { output: self.output@, proof: self.proof@ }
    }
}

/// A farmer's claim to one piece of archived history for one slot.
pub struct Solution {
    pub public_key: Vec<u8>,
    pub reward_address: Vec<u8>,
    pub piece_index: u64,
    pub encoding: Vec<u8>,
    pub tag: Vec<u8>,
    pub tag_signature: VrfSignature,
    pub local_challenge: VrfSignature,
}

pub struct SolutionModel {
    pub public_key: Seq<u8>,
    pub reward_address: Seq<u8>,
    pub piece_index: u64,
    pub encoding: Seq<u8>,
    pub tag: Seq<u8>,
    pub tag_signature: VrfSignatureModel,
    pub local_challenge: VrfSignatureModel,
}

impl View for Solution {
    type V = SolutionModel;

    open spec fn view(&self) -> SolutionModel {
        SolutionModel {
            public_key: self.public_key@,
            reward_address: self.reward_address@,
            piece_index: self.piece_index,
            encoding: self.encoding@,
            tag: self.tag@,
            tag_signature: self.tag_signature@,
            local_challenge: self.local_challenge@,
        }
    }
}

/// The slot claimed by a header and the solution that won it.
pub struct PreDigest {
    pub slot: u64,
    pub solution: Solution,
}

pub struct PreDigestModel {
    pub slot: u64,
    pub solution: SolutionModel,
}

impl View for PreDigest {
    type V = PreDigestModel;

    open spec fn view(&self) -> PreDigestModel {
        PreDigestModel { slot: self.slot, solution: self.solution@ }
    }
}

/// Every field of the solution has its fixed length, and the piece encoding
/// has a length that four bytes can hold.
pub open spec fn solution_well_formed(s: SolutionModel) -> bool {
    &&& s.public_key.len() == PUBLIC_KEY_SIZE
    &&& s.reward_address.len() == PUBLIC_KEY_SIZE
    &&& s.encoding.len() <= u32::MAX
    &&& s.tag.len() == TAG_SIZE
    &&& s.tag_signature.output.len() == VRF_OUTPUT_SIZE
    &&& s.tag_signature.proof.len() == VRF_PROOF_SIZE
    &&& s.local_challenge.output.len() == VRF_OUTPUT_SIZE
    &&& s.local_challenge.proof.len() == VRF_PROOF_SIZE
}

/// The bytes of a pre-digest: slot, public key, reward address, piece index,
/// length of the piece encoding, piece encoding, tag, tag signature (output
/// then proof) and local challenge (output then proof); integers little-endian.
pub open spec fn encode_pre_digest_spec(p: PreDigestModel) -> Seq<u8> {
    le_u64(p.slot) + p.solution.public_key + p.solution.reward_address + le_u64(
        p.solution.piece_index,
    ) + le_u32(p.solution.encoding.len() as u32) + p.solution.encoding + p.solution.tag
        + p.solution.tag_signature.output + p.solution.tag_signature.proof
        + p.solution.local_challenge.output + p.solution.local_challenge.proof
}

/// The pre-digest that `b` encodes, if `b` is exactly such an encoding.
pub open spec fn decode_pre_digest_spec(b: Seq<u8>) -> Option<PreDigestModel> {
    if b.len() < PRE_DIGEST_PREFIX_SIZE + PRE_DIGEST_SUFFIX_SIZE {
        None
    } else {
        let n = from_le_u32(b.subrange(80, 84)) as int;
        if b.len() != PRE_DIGEST_PREFIX_SIZE + n + PRE_DIGEST_SUFFIX_SIZE {
            None
        } else {
            let t = 84 + n;
            Some(
                PreDigestModel {
                    slot: from_le_u64(b.subrange(0, 8)),
                    solution: SolutionModel {
                        public_key: b.subrange(8, 40),
                        reward_address: b.subrange(40, 72),
                        piece_index: from_le_u64(b.subrange(72, 80)),
                        encoding: b.subrange(84, t),
                        tag: b.subrange(t, t + 8),
                        tag_signature: VrfSignatureModel {
                            output: b.subrange(t + 8, t + 40),
                            proof: b.subrange(t + 40, t + 104),
                        },
                        local_challenge: VrfSignatureModel {
                            output: b.subrange(t + 104, t + 136),
                            proof: b.subrange(t + 136, t + 200),
                        },
                    },
                },
            )
        }
    }
}

/// Decoding an encoded well-formed pre-digest gives it back.
pub proof fn lemma_pre_digest_round_trip(p: PreDigestModel)
    requires
        solution_well_formed(p.solution),
    ensures
        decode_pre_digest_spec(encode_pre_digest_spec(p)) == Some(p),
{
    let s = p.solution;
    let b = encode_pre_digest_spec(p);
    let n = s.encoding.len() as int;
    let t = 84 + n;
    lemma_le_u64_round_trip(p.slot);
    lemma_le_u64_round_trip(s.piece_index);
    lemma_le_u32_round_trip(s.encoding.len() as u32);
    assert(b.len() == 284 + n);
    assert(b.subrange(0, 8) =~= le_u64(p.slot));
    assert(b.subrange(8, 40) =~= s.public_key);
    assert(b.subrange(40, 72) =~= s.reward_address);
    assert(b.subrange(72, 80) =~= le_u64(s.piece_index));
    assert(b.subrange(80, 84) =~= le_u32(s.encoding.len() as u32));
    assert(b.subrange(84, t) =~= s.encoding);
    assert(b.subrange(t, t + 8) =~= s.tag);
    assert(b.subrange(t + 8, t + 40) =~= s.tag_signature.output);
    assert(b.subrange(t + 40, t + 104) =~= s.tag_signature.proof);
    assert(b.subrange(t + 104, t + 136) =~= s.local_challenge.output);
    assert(b.subrange(t + 136, t + 200) =~= s.local_challenge.proof);
}


/// Encodes a well-formed pre-digest.
pub fn encode_pre_digest(p: &PreDigest) -> (r: Vec<u8>)
    requires
        solution_well_formed(p@.solution),
    ensures
        r@ == encode_pre_digest_spec(p@),
{
    let s = &p.solution;
    let mut out: Vec<u8> = Vec::new();
    push_u64_le(&mut out, p.slot);
    push_all(&mut out, s.public_key.as_slice());
    push_all(&mut out, s.reward_address.as_slice());
    push_u64_le(&mut out, s.piece_index);
    push_u32_le(&mut out, s.encoding.len() as u32);
    push_all(&mut out, s.encoding.as_slice());
    push_all(&mut out, s.tag.as_slice());
    push_all(&mut out, s.tag_signature.output.as_slice());
    push_all(&mut out, s.tag_signature.proof.as_slice());
    push_all(&mut out, s.local_challenge.output.as_slice());
    push_all(&mut out, s.local_challenge.proof.as_slice());
    out
}

/// Decodes a pre-digest; `None` unless `b` is exactly one encoding.
pub fn decode_pre_digest(b: &[u8]) -> (r: Option<PreDigest>)
    ensures
        match r {
            Some(p) => decode_pre_digest_spec(b@) == Some(p@),
            None => decode_pre_digest_spec(b@) is None,
        },
{
    let len = b.len();
    if len < PRE_DIGEST_PREFIX_SIZE + PRE_DIGEST_SUFFIX_SIZE {
        return None;
    }
    let n = read_u32_le(b, 80) as usize;
    if len - PRE_DIGEST_PREFIX_SIZE - PRE_DIGEST_SUFFIX_SIZE != n {
        return None;
    }
    let t = PRE_DIGEST_PREFIX_SIZE + n;
    let p = PreDigest {
        slot: read_u64_le(b, 0),
        solution: Solution {
            public_key: copy_range(b, 8, 32),
            reward_address: copy_range(b, 40, 32),
            piece_index: read_u64_le(b, 72),
            encoding: copy_range(b, 84, n),
            tag: copy_range(b, t, 8),
            tag_signature: VrfSignature {
                output: copy_range(b, t + 8, 32),
                proof: copy_range(b, t + 40, 64),
            },
            local_challenge: VrfSignature {
                output: copy_range(b, t + 104, 32),
                proof: copy_range(b, t + 136, 64),
            },
        },
    };
    assert(p@ == decode_pre_digest_spec(b@).unwrap());
    Some(p)
}

/// A decoded pre-digest is well formed and encodes back to the same bytes.
pub proof fn lemma_decoded_pre_digest_canonical(b: Seq<u8>)
    requires
        decode_pre_digest_spec(b) is Some,
    ensures
        solution_well_formed(decode_pre_digest_spec(b).unwrap().solution),
        encode_pre_digest_spec(decode_pre_digest_spec(b).unwrap()) == b,
{
    let p = decode_pre_digest_spec(b).unwrap();
    let n = from_le_u32(b.subrange(80, 84));
    let s = b.subrange(80, 84);
    assert(le_u32(n) =~= s) by {
        let (b0, b1, b2, b3) = (s[0], s[1], s[2], s[3]);
        assert(((((b0 as u32) | ((b1 as u32) << 8u32) | ((b2 as u32) << 16u32) | ((b3 as u32)
            << 24u32)) & 0xff) as u8) == b0) by (bit_vector);
        assert((((((b0 as u32) | ((b1 as u32) << 8u32) | ((b2 as u32) << 16u32) | ((b3 as u32)
            << 24u32)) >> 8u32) & 0xff) as u8) == b1) by (bit_vector);
        assert((((((b0 as u32) | ((b1 as u32) << 8u32) | ((b2 as u32) << 16u32) | ((b3 as u32)
            << 24u32)) >> 16u32) & 0xff) as u8) == b2) by (bit_vector);
        assert((((((b0 as u32) | ((b1 as u32) << 8u32) | ((b2 as u32) << 16u32) | ((b3 as u32)
            << 24u32)) >> 24u32) & 0xff) as u8) == b3) by (bit_vector);
    }
    lemma_le_u64_bytes(b.subrange(0, 8));
    lemma_le_u64_bytes(b.subrange(72, 80));
    assert(encode_pre_digest_spec(p) =~= b);
}

/// Eight bytes read as a little-endian integer encode back to themselves.
pub proof fn lemma_le_u64_bytes(s: Seq<u8>)
    requires
        s.len() == 8,
    ensures
        le_u64(from_le_u64(s)) == s,
{
    let (b0, b1, b2, b3, b4, b5, b6, b7) = (s[0], s[1], s[2], s[3], s[4], s[5], s[6], s[7]);
    let x = from_le_u64(s);
    assert(x == (b0 as u64) | ((b1 as u64) << 8u64) | ((b2 as u64) << 16u64) | ((b3 as u64)
        << 24u64) | ((b4 as u64) << 32u64) | ((b5 as u64) << 40u64) | ((b6 as u64) << 48u64) | ((
    b7 as u64) << 56u64));
    assert((x & 0xff) as u8 == b0 && ((x >> 8u64) & 0xff) as u8 == b1 && ((x >> 16u64) & 0xff) as u8
        == b2 && ((x >> 24u64) & 0xff) as u8 == b3 && ((x >> 32u64) & 0xff) as u8 == b4 && ((x
        >> 40u64) & 0xff) as u8 == b5 && ((x >> 48u64) & 0xff) as u8 == b6 && ((x >> 56u64) & 0xff)
        as u8 == b7) by (bit_vector)
        requires
            x == (b0 as u64) | ((b1 as u64) << 8u64) | ((b2 as u64) << 16u64) | ((b3 as u64)
                << 24u64) | ((b4 as u64) << 32u64) | ((b5 as u64) << 40u64) | ((b6 as u64)
                << 48u64) | ((b7 as u64) << 56u64),
    ;
    assert(le_u64(x) =~= s);
}


/// One entry of a header's digest log: an engine identifier and an opaque
/// payload, or a payload alone.
pub enum DigestItem {
    PreRuntime([u8; 4], Vec<u8>),
    Consensus([u8; 4], Vec<u8>),
    Seal([u8; 4], Vec<u8>),
    Other(Vec<u8>),
}

pub enum DigestItemModel {
    PreRuntime(Seq<u8>, Seq<u8>),
    Consensus(Seq<u8>, Seq<u8>),
    Seal(Seq<u8>, Seq<u8>),
    Other(Seq<u8>),
}

impl View for DigestItem {
    type V = DigestItemModel;

    open spec fn view(&self) -> DigestItemModel {
        match self {
            DigestItem::PreRuntime(e, d) => DigestItemModel::PreRuntime(e@, d@),
            DigestItem::Consensus(e, d) => DigestItemModel::Consensus(e@, d@),
            DigestItem::Seal(e, d) => DigestItemModel::Seal(e@, d@),
            DigestItem::Other(d) => DigestItemModel::Other(d@),
        }
    }
}

/// The pre-digest that an item carries, if it is one of this protocol's
/// pre-runtime items and its payload decodes.
pub open spec fn item_pre_digest(item: DigestItemModel) -> Option<PreDigestModel> {
    match item {
        DigestItemModel::PreRuntime(e, d) => if is_subspace_engine(e) {
            decode_pre_digest_spec(d)
        } else {
            None
        },
        _ => None,
    }
}

/// The signature that an item carries, if it is one of this protocol's seals
/// with a payload of a signature's length.
pub open spec fn item_seal(item: DigestItemModel) -> Option<Seq<u8>> {
    match item {
        DigestItemModel::Seal(e, d) => if is_subspace_engine(e) && d.len() == SIGNATURE_SIZE {
            Some(d)
        } else {
            None
        },
        _ => None,
    }
}

/// The solution range that an item announces, if it is one of this protocol's
/// solution-range descriptors.
pub open spec fn item_solution_range(item: DigestItemModel) -> Option<u64> {
    match item {
        DigestItemModel::Consensus(e, d) => if is_subspace_engine(e) && d.len() == 9 && d[0]
            == SOLUTION_RANGE_DESCRIPTOR_KIND {
            Some(from_le_u64(d.subrange(1, 9)))
        } else {
            None
        },
        _ => None,
    }
}

/// The salt that an item announces, if it is one of this protocol's salt
/// descriptors.
pub open spec fn item_salt(item: DigestItemModel) -> Option<Seq<u8>> {
    match item {
        DigestItemModel::Consensus(e, d) => if is_subspace_engine(e) && d.len() == 1 + SALT_SIZE
            && d[0] == SALT_DESCRIPTOR_KIND {
            Some(d.subrange(1, 1 + SALT_SIZE as int))
        } else {
            None
        },
        _ => None,
    }
}

impl DigestItem {
    /// The pre-runtime item that carries `pre_digest`.
    pub fn subspace_pre_digest(pre_digest: &PreDigest) -> (r: DigestItem)
        requires
            solution_well_formed(pre_digest@.solution),
        ensures
            item_pre_digest(r@) == Some(pre_digest@),
            item_seal(r@) is None,
            item_solution_range(r@) is None,
            item_salt(r@) is None,
    {
        proof {
            lemma_pre_digest_round_trip(pre_digest@);
        }
        DigestItem::PreRuntime(subspace_engine_id(), encode_pre_digest(pre_digest))
    }

    /// The seal item that carries `signature`.
    pub fn subspace_seal(signature: Vec<u8>) -> (r: DigestItem)
        requires
            signature@.len() == SIGNATURE_SIZE,
        ensures
            r@ == DigestItemModel::Seal(seq![0x53u8, 0x55u8, 0x42u8, 0x5fu8], signature@),
            item_seal(r@) == Some(signature@),
            item_pre_digest(r@) is None,
    {
        DigestItem::Seal(subspace_engine_id(), signature)
    }

    /// The descriptor that announces `solution_range`.
    pub fn solution_range_descriptor(solution_range: u64) -> (r: DigestItem)
        ensures
            item_solution_range(r@) == Some(solution_range),
            item_pre_digest(r@) is None,
            item_seal(r@) is None,
            item_salt(r@) is None,
    {
        let mut d: Vec<u8> = Vec::new();
        d.push(SOLUTION_RANGE_DESCRIPTOR_KIND);
        push_u64_le(&mut d, solution_range);
        proof {
            lemma_le_u64_round_trip(solution_range);
            assert(d@.subrange(1, 9) =~= le_u64(solution_range));
        }
        DigestItem::Consensus(subspace_engine_id(), d)
    }

    /// The descriptor that announces `salt`.
    pub fn salt_descriptor(salt: &[u8]) -> (r: DigestItem)
        requires
            salt@.len() == SALT_SIZE,
        ensures
            item_salt(r@) == Some(salt@),
            item_pre_digest(r@) is None,
            item_seal(r@) is None,
            item_solution_range(r@) is None,
    {
        let mut d: Vec<u8> = Vec::new();
        d.push(SALT_DESCRIPTOR_KIND);
        push_all(&mut d, salt);
        proof {
            assert(d@.subrange(1, 9) =~= salt@);
        }
        DigestItem::Consensus(subspace_engine_id(), d)
    }

    /// The pre-digest this item carries, if any.
    pub fn as_subspace_pre_digest(&self) -> (r: Option<PreDigest>)
        ensures
            match r {
                Some(p) => item_pre_digest(self@) == Some(p@),
                None => item_pre_digest(self@) is None,
            },
    {
        match self {
            DigestItem::PreRuntime(e, d) => if engine_is_subspace(e) {
                decode_pre_digest(d.as_slice())
            } else {
                None
            },
            _ => None,
        }
    }

    /// The seal signature this item carries, if any.
    pub fn as_subspace_seal(&self) -> (r: Option<Vec<u8>>)
        ensures
            match r {
                Some(s) => item_seal(self@) == Some(s@),
                None => item_seal(self@) is None,
            },
    {
        match self {
            DigestItem::Seal(e, d) => if engine_is_subspace(e) && d.len() == SIGNATURE_SIZE {
                Some(copy_bytes(d.as_slice()))
            } else {
                None
            },
            _ => None,
        }
    }

    /// The solution range this item announces, if any.
    pub fn as_solution_range_descriptor(&self) -> (r: Option<u64>)
        ensures
            r == item_solution_range(self@),
    {
        match self {
            DigestItem::Consensus(e, d) => if engine_is_subspace(e) && d.len() == 9 && d[0]
                == SOLUTION_RANGE_DESCRIPTOR_KIND {
                Some(read_u64_le(d.as_slice(), 1))
            } else {
                None
            },
            _ => None,
        }
    }

    /// The salt this item announces, if any.
    pub fn as_salt_descriptor(&self) -> (r: Option<Vec<u8>>)
        ensures
            match r {
                Some(s) => item_salt(self@) == Some(s@),
                None => item_salt(self@) is None,
            },
    {
        match self {
            DigestItem::Consensus(e, d) => if engine_is_subspace(e) && d.len() == 1 + SALT_SIZE
                && d[0] == SALT_DESCRIPTOR_KIND {
                Some(copy_range(d.as_slice(), 1, SALT_SIZE))
            } else {
                None
            },
            _ => None,
        }
    }
}

} // verus!
