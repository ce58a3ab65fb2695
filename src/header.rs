//! Block headers: the shape of their digest log, their encoding, and the
//! pre-seal hash that identifies them and that the seal signs.

use vstd::prelude::*;

use crate::bytes::{copy_bytes, le_u32, le_u64, push_all, push_u32_le, push_u64_le};
use crate::crypto::{blake2b_256, compute_blake2b_256};
use crate::digest::{
    lemma_decoded_pre_digest_canonical, solution_well_formed,
    item_pre_digest, item_seal, DigestItem, DigestItemModel,
    PreDigest, PreDigestModel, SIGNATURE_SIZE,
};

verus! {

/// A block header.
pub struct Header {
    pub number: u64,
    pub parent_hash: Vec<u8>,
    pub state_root: Vec<u8>,
    pub extrinsics_root: Vec<u8>,
    pub digest: Vec<DigestItem>,
}

pub struct HeaderModel {
    pub number: u64,
    pub parent_hash: Seq<u8>,
    pub state_root: Seq<u8>,
    pub extrinsics_root: Seq<u8>,
    pub digest: Seq<DigestItemModel>,
}

impl View for Header {
    type V = HeaderModel;

    open spec fn view(&self) -> HeaderModel {
        HeaderModel {
            number: self.number,
            parent_hash: self.parent_hash@,
            state_root: self.state_root@,
            extrinsics_root: self.extrinsics_root@,
            digest: self.digest@.map_values(|i: DigestItem| i@),
        }
    }
}

/// The payload of a digest item.
pub open spec fn item_payload(item: DigestItemModel) -> Seq<u8> {
    match item {
        DigestItemModel::PreRuntime(_, d) => d,
        DigestItemModel::Consensus(_, d) => d,
        DigestItemModel::Seal(_, d) => d,
        DigestItemModel::Other(d) => d,
    }
}

/// Every length that the encoding writes in four bytes fits there.
pub open spec fn header_well_formed(h: HeaderModel) -> bool {
    &&& h.digest.len() <= u32::MAX
    &&& forall|i: int| 0 <= i < h.digest.len() ==> #[trigger] item_payload(h.digest[i]).len() <= u32::MAX
}

/// The pre-digests in a digest log, in order.
pub open spec fn pre_digests(items: Seq<DigestItemModel>) -> Seq<PreDigestModel>
    decreases items.len(),
{
    if items.len() == 0 {
        seq![]
    } else {
        let rest = pre_digests(items.drop_last());
        match item_pre_digest(items.last()) {
            Some(p) => rest.push(p),
            None => rest,
        }
    }
}

/// Number of items that `kind` recognises in a digest log.
pub open spec fn count_items(items: Seq<DigestItemModel>, kind: spec_fn(DigestItemModel) -> bool) -> nat
    decreases items.len(),
{
    if items.len() == 0 {
        0
    } else {
        count_items(items.drop_last(), kind) + if kind(items.last()) {
            1nat
        } else {
            0nat
        }
    }
}

pub open spec fn is_seal(item: DigestItemModel) -> bool {
    item_seal(item) is Some
}

pub open spec fn seal_count(items: Seq<DigestItemModel>) -> nat {
    count_items(items, |i: DigestItemModel| is_seal(i))
}

/// The one pre-digest of a header, if it has exactly one.
pub open spec fn header_pre_digest(h: HeaderModel) -> Option<PreDigestModel> {
    if pre_digests(h.digest).len() == 1 {
        Some(pre_digests(h.digest)[0])
    } else {
        None
    }
}

/// The digest log of a sealed header is well shaped: exactly one pre-digest,
/// and exactly one seal, which is the last item. Descriptors are advisory and
/// do not take part.
pub open spec fn sealed_digest_shape_ok(items: Seq<DigestItemModel>) -> bool {
    &&& items.len() > 0
    &&& is_seal(items.last())
    &&& seal_count(items) == 1
    &&& pre_digests(items).len() == 1
}

/// The header without its seal: its last item is dropped if that is a seal.
pub open spec fn pre_seal_header(h: HeaderModel) -> HeaderModel {
    if h.digest.len() > 0 && is_seal(h.digest.last()) {
        HeaderModel { digest: h.digest.drop_last(), ..h }
    } else {
        h
    }
}

/// The header with a seal carrying `signature` appended to its digest log.
pub open spec fn with_seal(h: HeaderModel, signature: Seq<u8>) -> HeaderModel {
    HeaderModel {
        digest: h.digest.push(DigestItemModel::Seal(seq![0x53u8, 0x55u8, 0x42u8, 0x5fu8], signature)),
        ..h
    }
}

/// The bytes of a digest item: a variant byte, the engine identifier where
/// there is one, the payload length in four little-endian bytes, the payload.
pub open spec fn encode_item_spec(item: DigestItemModel) -> Seq<u8> {
    match item {
        DigestItemModel::Other(d) => seq![0u8] + le_u32(d.len() as u32) + d,
        DigestItemModel::Consensus(e, d) => seq![4u8] + e + le_u32(d.len() as u32) + d,
        DigestItemModel::Seal(e, d) => seq![5u8] + e + le_u32(d.len() as u32) + d,
        DigestItemModel::PreRuntime(e, d) => seq![6u8] + e + le_u32(d.len() as u32) + d,
    }
}

pub open spec fn encode_items_spec(items: Seq<DigestItemModel>) -> Seq<u8>
    decreases items.len(),
{
    if items.len() == 0 {
        seq![]
    } else {
        encode_items_spec(items.drop_last()) + encode_item_spec(items.last())
    }
}

/// The bytes of a header with the digest log `items`: parent hash, number,
/// state root, extrinsics root, number of items, items.
pub open spec fn encode_header_with(h: HeaderModel, items: Seq<DigestItemModel>) -> Seq<u8> {
    h.parent_hash + le_u64(h.number) + h.state_root + h.extrinsics_root + le_u32(
        items.len() as u32,
    ) + encode_items_spec(items)
}

pub open spec fn encode_header_spec(h: HeaderModel) -> Seq<u8> {
    encode_header_with(h, h.digest)
}

/// The hash that identifies a header and that its seal signs: BLAKE2b-256 of
/// the header without its seal.
pub open spec fn pre_seal_hash_spec(h: HeaderModel) -> Seq<u8> {
    blake2b_256(encode_header_spec(pre_seal_header(h)))
}

/// The seal never changes the pre-seal hash: sealing a header with any two
/// signatures gives the same pre-seal hash, the hash of the unsealed header.
pub proof fn lemma_seal_does_not_change_pre_seal_hash(h: HeaderModel, s1: Seq<u8>, s2: Seq<u8>)
    requires
        s1.len() == SIGNATURE_SIZE,
        s2.len() == SIGNATURE_SIZE,
    ensures
        pre_seal_hash_spec(with_seal(h, s1)) == pre_seal_hash_spec(with_seal(h, s2)),
        pre_seal_hash_spec(with_seal(h, s1)) == blake2b_256(encode_header_spec(h)),
{
    assert(with_seal(h, s1).digest.drop_last() =~= h.digest);
    assert(with_seal(h, s2).digest.drop_last() =~= h.digest);
    assert(pre_seal_header(with_seal(h, s1)) == h);
    assert(pre_seal_header(with_seal(h, s2)) == h);
}


/// Appends the encoding of `item` to `out`.
pub fn encode_item(out: &mut Vec<u8>, item: &DigestItem)
    requires
        item_payload(item@).len() <= u32::MAX,
    ensures
        final(out)@ == old(out)@ + encode_item_spec(item@),
{
    match item {
        DigestItem::Other(d) => {
            out.push(0u8);
            push_u32_le(out, d.len() as u32);
            push_all(out, d.as_slice());
        },
        DigestItem::Consensus(e, d) => {
            out.push(4u8);
            push_all(out, e.as_slice());
            push_u32_le(out, d.len() as u32);
            push_all(out, d.as_slice());
        },
        DigestItem::Seal(e, d) => {
            out.push(5u8);
            push_all(out, e.as_slice());
            push_u32_le(out, d.len() as u32);
            push_all(out, d.as_slice());
        },
        DigestItem::PreRuntime(e, d) => {
            out.push(6u8);
            push_all(out, e.as_slice());
            push_u32_le(out, d.len() as u32);
            push_all(out, d.as_slice());
        },
    }
    assert(out@ =~= old(out)@ + encode_item_spec(item@));
}

/// The encoding of `h` with only the first `count` items of its digest log.
pub fn encode_header_prefix(h: &Header, count: usize) -> (r: Vec<u8>)
    requires
        header_well_formed(h@),
        count <= h@.digest.len(),
    ensures
        r@ == encode_header_with(h@, h@.digest.subrange(0, count as int)),
{
    let mut out: Vec<u8> = Vec::new();
    push_all(&mut out, h.parent_hash.as_slice());
    push_u64_le(&mut out, h.number);
    push_all(&mut out, h.state_root.as_slice());
    push_all(&mut out, h.extrinsics_root.as_slice());
    push_u32_le(&mut out, count as u32);
    let ghost start = out@;
    let mut i: usize = 0;
    while i < count
        invariant
            header_well_formed(h@),
            count <= h@.digest.len(),
            i <= count,
            out@ == start + encode_items_spec(h@.digest.subrange(0, i as int)),
        decreases count - i,
    {
        assert(item_payload(h@.digest[i as int]).len() <= u32::MAX);
        encode_item(&mut out, &h.digest[i]);
        assert(h@.digest.subrange(0, i + 1).drop_last() =~= h@.digest.subrange(0, i as int));
        i = i + 1;
        assert(out@ =~= start + encode_items_spec(h@.digest.subrange(0, i as int)));
    }
    assert(out@ =~= encode_header_with(h@, h@.digest.subrange(0, count as int)));
    out
}

/// The encoding of the whole header.
pub fn encode_header(h: &Header) -> (r: Vec<u8>)
    requires
        header_well_formed(h@),
    ensures
        r@ == encode_header_spec(h@),
{
    let r = encode_header_prefix(h, h.digest.len());
    assert(h@.digest.subrange(0, h@.digest.len() as int) =~= h@.digest);
    r
}

/// Whether the last item of the digest log is a seal.
pub fn ends_with_seal(h: &Header) -> (r: bool)
    ensures
        r == (h@.digest.len() > 0 && is_seal(h@.digest.last())),
{
    let n = h.digest.len();
    if n == 0 {
        return false;
    }
    match h.digest[n - 1].as_subspace_seal() {
        Some(_) => true,
        None => false,
    }
}

/// The pre-seal hash of a header.
pub fn pre_seal_hash(h: &Header) -> (r: Vec<u8>)
    requires
        header_well_formed(h@),
    ensures
        r@ == pre_seal_hash_spec(h@),
        r@.len() == 32,
{
    let n = h.digest.len();
    let count = if ends_with_seal(h) {
        n - 1
    } else {
        n
    };
    let bytes = encode_header_prefix(h, count);
    proof {
        let p = pre_seal_header(h@);
        if count < n {
            assert(h@.digest.subrange(0, count as int) =~= h@.digest.drop_last());
        } else {
            assert(h@.digest.subrange(0, count as int) =~= h@.digest);
        }
        assert(bytes@ =~= encode_header_spec(p));
    }
    compute_blake2b_256(bytes.as_slice())
}

/// Appends a seal carrying `signature` to the digest log.
pub fn seal_header(h: &mut Header, signature: Vec<u8>)
    requires
        signature@.len() == SIGNATURE_SIZE,
    ensures
        final(h)@ == with_seal(old(h)@, signature@),
{
    let item = DigestItem::subspace_seal(signature);
    h.digest.push(item);
    assert(h@.digest =~= with_seal(old(h)@, signature@).digest);
}

/// The one pre-digest of a header; `None` if it has none or several.
pub fn find_pre_digest(h: &Header) -> (r: Option<PreDigest>)
    ensures
        match r {
            Some(p) => header_pre_digest(h@) == Some(p@),
            None => header_pre_digest(h@) is None,
        },
{
    let n = h.digest.len();
    let mut found: Option<PreDigest> = None;
    let mut i: usize = 0;
    while i < n
        invariant
            n == h@.digest.len(),
            i <= n,
            pre_digests(h@.digest.subrange(0, i as int)).len() <= 1,
            match found {
                Some(p) => pre_digests(h@.digest.subrange(0, i as int)) == seq![p@],
                None => pre_digests(h@.digest.subrange(0, i as int)).len() == 0,
            },
        decreases n - i,
    {
        let item = h.digest[i].as_subspace_pre_digest();
        assert(h@.digest.subrange(0, i + 1).drop_last() =~= h@.digest.subrange(0, i as int));
        assert(h@.digest.subrange(0, i + 1).last() == h@.digest[i as int]);
        match item {
            Some(p) => {
                if found.is_some() {
                    assert(pre_digests(h@.digest.subrange(0, i + 1)).len() == 2);
                    proof {
                        lemma_pre_digests_grow(h@.digest, i as int + 1);
                    }
                    return None;
                }
                found = Some(p);
            },
            None => {},
        }
        i = i + 1;
    }
    assert(h@.digest.subrange(0, n as int) =~= h@.digest);
    found
}

/// The number of pre-digests never falls as the log grows.
pub proof fn lemma_pre_digests_grow(items: Seq<DigestItemModel>, k: int)
    requires
        0 <= k <= items.len(),
    ensures
        pre_digests(items.subrange(0, k)).len() <= pre_digests(items).len(),
    decreases items.len() - k,
{
    if k < items.len() {
        lemma_pre_digests_grow(items, k + 1);
        assert(items.subrange(0, k + 1).drop_last() =~= items.subrange(0, k));
    } else {
        assert(items.subrange(0, k) =~= items);
    }
}


/// Whether the digest log of a sealed header is well shaped.
pub fn sealed_digest_shape_is_ok(h: &Header) -> (r: bool)
    ensures
        r == sealed_digest_shape_ok(h@.digest),
{
    let n = h.digest.len();
    let mut pre: usize = 0;
    let mut seals: usize = 0;
    let mut i: usize = 0;
    while i < n
        invariant
            n == h@.digest.len(),
            i <= n,
            pre <= i && seals <= i,
            pre == pre_digests(h@.digest.subrange(0, i as int)).len(),
            seals == seal_count(h@.digest.subrange(0, i as int)),
        decreases n - i,
    {
        let item = &h.digest[i];
        assert(h@.digest.subrange(0, i + 1).drop_last() =~= h@.digest.subrange(0, i as int));
        assert(h@.digest.subrange(0, i + 1).last() == item@);
        if item.as_subspace_pre_digest().is_some() {
            pre = pre + 1;
        }
        if item.as_subspace_seal().is_some() {
            seals = seals + 1;
        }
        i = i + 1;
    }
    assert(h@.digest.subrange(0, n as int) =~= h@.digest);
    n > 0 && ends_with_seal(h) && seals == 1 && pre == 1
}


/// Whether every length that the encoding writes in four bytes fits there.
pub fn header_fits(h: &Header) -> (r: bool)
    ensures
        r == header_well_formed(h@),
{
    let n = h.digest.len();
    if n > 0xffff_ffffusize {
        return false;
    }
    let mut i: usize = 0;
    while i < n
        invariant
            n == h@.digest.len(),
            n <= u32::MAX,
            i <= n,
            forall|j: int| 0 <= j < i ==> #[trigger] item_payload(h@.digest[j]).len() <= u32::MAX,
        decreases n - i,
    {
        let len = match &h.digest[i] {
            DigestItem::PreRuntime(_, d) => d.len(),
            DigestItem::Consensus(_, d) => d.len(),
            DigestItem::Seal(_, d) => d.len(),
            DigestItem::Other(d) => d.len(),
        };
        assert(len == item_payload(h@.digest[i as int]).len());
        if len > 0xffff_ffffusize {
            return false;
        }
        i = i + 1;
    }
    true
}

/// Every pre-digest found in a digest log is well formed.
pub proof fn lemma_pre_digests_well_formed(items: Seq<DigestItemModel>)
    ensures
        forall|k: int|
            0 <= k < pre_digests(items).len() ==> solution_well_formed(
                #[trigger] pre_digests(items)[k].solution,
            ),
    decreases items.len(),
{
    if items.len() > 0 {
        lemma_pre_digests_well_formed(items.drop_last());
        let rest = pre_digests(items.drop_last());
        match items.last() {
            DigestItemModel::PreRuntime(e, d) => {
                if item_pre_digest(items.last()) is Some {
                    lemma_decoded_pre_digest_canonical(d);
                    assert(pre_digests(items) == rest.push(item_pre_digest(items.last()).unwrap()));
                    assert forall|k: int| 0 <= k < pre_digests(items).len() implies solution_well_formed(
                        #[trigger] pre_digests(items)[k].solution) by {
                        if k < rest.len() {
                            assert(pre_digests(items)[k] == rest[k]);
                        }
                    }
                }
            },
            _ => {},
        }
    }
}


impl DigestItem {
    /// A copy of this item.
    pub fn copy(&self) -> (r: DigestItem)
        ensures
            r@ == self@,
    {
        match self {
            DigestItem::PreRuntime(e, d) => DigestItem::PreRuntime(*e, copy_bytes(d.as_slice())),
            DigestItem::Consensus(e, d) => DigestItem::Consensus(*e, copy_bytes(d.as_slice())),
            DigestItem::Seal(e, d) => DigestItem::Seal(*e, copy_bytes(d.as_slice())),
            DigestItem::Other(d) => DigestItem::Other(copy_bytes(d.as_slice())),
        }
    }
}

impl Header {
    /// A copy of this header.
    pub fn copy(&self) -> (r: Header)
        ensures
            r@ == self@,
    {
        let mut digest: Vec<DigestItem> = Vec::new();
        let mut i: usize = 0;
        while i < self.digest.len()
            invariant
                i <= self@.digest.len(),
                digest@.len() == i,
                forall|j: int| 0 <= j < i ==> (#[trigger] digest@[j])@ == self.digest@[j]@,
            decreases self@.digest.len() - i,
        {
            digest.push(self.digest[i].copy());
            i = i + 1;
        }
        let r = Header {
            number: self.number,
            parent_hash: copy_bytes(self.parent_hash.as_slice()),
            state_root: copy_bytes(self.state_root.as_slice()),
            extrinsics_root: copy_bytes(self.extrinsics_root.as_slice()),
            digest,
        };
        assert(r@.digest =~= self@.digest);
        r
    }
}

} // verus!
