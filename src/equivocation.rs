//! Equivocation detection: the same farmer claiming the same slot with two
//! different headers.

use vstd::prelude::*;

use crate::bytes::{bytes_equal, copy_bytes};
use crate::header::{
    find_pre_digest, header_fits, header_pre_digest, header_well_formed, pre_seal_hash,
    pre_seal_hash_spec, Header, HeaderModel,
};

verus! {

/// Two headers by one farmer for one slot.
pub struct EquivocationProof {
    pub slot: u64,
    pub offender: Vec<u8>,
    pub first_header: Header,
    pub second_header: Header,
}

pub struct EquivocationProofModel {
    pub slot: u64,
    pub offender: Seq<u8>,
    pub first_header: HeaderModel,
    pub second_header: HeaderModel,
}

impl View for EquivocationProof {
    type V = EquivocationProofModel;

    open spec fn view(&self) -> EquivocationProofModel {
        EquivocationProofModel {
            slot: self.slot,
            offender: self.offender@,
            first_header: self.first_header@,
            second_header: self.second_header@,
        }
    }
}

/// The first header seen from one farmer for one slot.
pub struct Authorship {
    pub slot: u64,
    pub public_key: Vec<u8>,
    pub header_hash: Vec<u8>,
    pub header: Header,
    pub reported: bool,
}

pub struct AuthorshipModel {
    pub slot: u64,
    pub public_key: Seq<u8>,
    pub header_hash: Seq<u8>,
    pub header: HeaderModel,
    pub reported: bool,
}

impl View for Authorship {
    type V = AuthorshipModel;

    open spec fn view(&self) -> AuthorshipModel {
        AuthorshipModel {
            slot: self.slot,
            public_key: self.public_key@,
            header_hash: self.header_hash@,
            header: self.header@,
            reported: self.reported,
        }
    }
}

pub open spec fn authorships_view(v: Seq<Authorship>) -> Seq<AuthorshipModel> {
    v.map_values(|a: Authorship| a@)
}

/// Position of the entry for `(slot, public_key)`, or -1 if there is none.
pub open spec fn seen_index(seen: Seq<AuthorshipModel>, slot: u64, public_key: Seq<u8>) -> int
    decreases seen.len(),
{
    if seen.len() == 0 {
        -1
    } else if seen.last().slot == slot && seen.last().public_key == public_key {
        seen.len() - 1
    } else {
        seen_index(seen.drop_last(), slot, public_key)
    }
}

/// Observing that `public_key` authored the header `header`, whose hash is
/// `header_hash`, at `slot`: the first such header is recorded; a later one
/// with another hash is reported once, together with the first.
pub open spec fn observe_spec(
    seen: Seq<AuthorshipModel>,
    slot: u64,
    public_key: Seq<u8>,
    header_hash: Seq<u8>,
    header: HeaderModel,
) -> (Seq<AuthorshipModel>, Option<EquivocationProofModel>) {
    let k = seen_index(seen, slot, public_key);
    if k < 0 {
        (
            seen.push(AuthorshipModel { slot, public_key, header_hash, header, reported: false }),
            None,
        )
    } else if seen[k].header_hash == header_hash || seen[k].reported {
        (seen, None)
    } else {
        (
            seen.update(k, AuthorshipModel { reported: true, ..seen[k] }),
            Some(
                EquivocationProofModel {
                    slot,
                    offender: public_key,
                    first_header: seen[k].header,
                    second_header: header,
                },
            ),
        )
    }
}

pub proof fn lemma_seen_index_bounds(seen: Seq<AuthorshipModel>, slot: u64, public_key: Seq<u8>)
    ensures
        -1 <= seen_index(seen, slot, public_key) < seen.len(),
        seen_index(seen, slot, public_key) >= 0 ==> seen[seen_index(seen, slot, public_key)].slot
            == slot && seen[seen_index(seen, slot, public_key)].public_key == public_key,
    decreases seen.len(),
{
    if seen.len() > 0 {
        lemma_seen_index_bounds(seen.drop_last(), slot, public_key);
    }
}

/// Updating an entry keeps where every key is found.
pub proof fn lemma_seen_index_update(
    seen: Seq<AuthorshipModel>,
    k: int,
    entry: AuthorshipModel,
    slot: u64,
    public_key: Seq<u8>,
)
    requires
        0 <= k < seen.len(),
        entry.slot == seen[k].slot,
        entry.public_key == seen[k].public_key,
    ensures
        seen_index(seen.update(k, entry), slot, public_key) == seen_index(seen, slot, public_key),
    decreases seen.len(),
{
    let u = seen.update(k, entry);
    if k < seen.len() - 1 {
        assert(u.drop_last() =~= seen.drop_last().update(k, entry));
        lemma_seen_index_update(seen.drop_last(), k, entry, slot, public_key);
    } else {
        assert(u.drop_last() =~= seen.drop_last());
    }
}

/// Two headers with different hashes, by one farmer for one slot not seen
/// before, give exactly one equivocation proof, which holds both headers: the
/// first observation reports nothing, the second reports both, and no later
/// observation for that farmer and slot reports anything.
pub proof fn lemma_equivocation_reported_once(
    seen: Seq<AuthorshipModel>,
    slot: u64,
    public_key: Seq<u8>,
    hash1: Seq<u8>,
    header1: HeaderModel,
    hash2: Seq<u8>,
    header2: HeaderModel,
)
    requires
        seen_index(seen, slot, public_key) < 0,
        hash1 != hash2,
    ensures
        ({
            let (seen1, r1) = observe_spec(seen, slot, public_key, hash1, header1);
            let (seen2, r2) = observe_spec(seen1, slot, public_key, hash2, header2);
            &&& r1 is None
            &&& r2 == Some(
                EquivocationProofModel {
                    slot,
                    offender: public_key,
                    first_header: header1,
                    second_header: header2,
                },
            )
            &&& forall|hash3: Seq<u8>, header3: HeaderModel|
                #[trigger] observe_spec(seen2, slot, public_key, hash3, header3) == (seen2, None::<
                    EquivocationProofModel,
                >)
        }),
{
    let (seen1, r1) = observe_spec(seen, slot, public_key, hash1, header1);
    assert(seen1.drop_last() =~= seen);
    let k = seen1.len() - 1;
    assert(seen_index(seen1, slot, public_key) == k);
    let (seen2, r2) = observe_spec(seen1, slot, public_key, hash2, header2);
    lemma_seen_index_update(seen1, k, AuthorshipModel { reported: true, ..seen1[k] }, slot, public_key);
    assert(seen_index(seen2, slot, public_key) == k);
    assert(seen2[k].reported);
}

/// The equivocation detector: the first header seen per farmer and slot.
pub struct EquivocationDetector {
    seen: Vec<Authorship>,
}

impl View for EquivocationDetector {
    type V = Seq<AuthorshipModel>;

    closed spec fn view(&self) -> Seq<AuthorshipModel> {
        authorships_view(self.seen@)
    }
}

impl EquivocationDetector {
    /// A detector that has seen nothing.
    pub fn new() -> (r: EquivocationDetector)
        ensures
            r@ == Seq::<AuthorshipModel>::empty(),
    {
        let r = EquivocationDetector { seen: Vec::new() };
        assert(r@ =~= Seq::<AuthorshipModel>::empty());
        r
    }

    /// Number of farmer and slot pairs recorded.
    pub fn len(&self) -> (r: usize)
        ensures
            r == self@.len(),
    {
        self.seen.len()
    }

    /// Position of the entry for `(slot, public_key)`, if any.
    fn find(&self, slot: u64, public_key: &[u8]) -> (r: Option<usize>)
        ensures
            match r {
                Some(k) => seen_index(self@, slot, public_key@) == k,
                None => seen_index(self@, slot, public_key@) < 0,
            },
    {
        let mut i: usize = self.seen.len();
        assert(self@.subrange(0, i as int) =~= self@);
        while i > 0
            invariant
                i <= self@.len(),
                self@.len() == self.seen@.len(),
                seen_index(self@, slot, public_key@) == seen_index(self@.subrange(0, i as int), slot, public_key@),
            decreases i,
        {
            let e = &self.seen[i - 1];
            assert(self@.subrange(0, i as int).last() == e@);
            assert(self@.subrange(0, i as int).drop_last() =~= self@.subrange(0, i - 1));
            if e.slot == slot && bytes_equal(e.public_key.as_slice(), public_key) {
                return Some(i - 1);
            }
            i = i - 1;
        }
        None
    }

    /// Records that `public_key` authored `header`, with hash `header_hash`,
    /// at `slot`, and returns the equivocation this reveals, if any.
    pub fn observe(
        &mut self,
        slot: u64,
        public_key: &[u8],
        header_hash: &[u8],
        header: Header,
    ) -> (r: Option<EquivocationProof>)
        ensures
            ({
                let (seen, proof) = observe_spec(old(self)@, slot, public_key@, header_hash@, header@);
                &&& final(self)@ == seen
                &&& match r {
                    Some(p) => proof == Some(p@),
                    None => proof is None,
                }
            }),
    {
        proof {
            lemma_seen_index_bounds(self@, slot, public_key@);
        }
        match self.find(slot, public_key) {
            None => {
                let entry = Authorship {
                    slot,
                    public_key: copy_bytes(public_key),
                    header_hash: copy_bytes(header_hash),
                    header,
                    reported: false,
                };
                self.seen.push(entry);
                assert(self@ =~= old(self)@.push(entry@));
                None
            },
            Some(k) => {
                let e = &self.seen[k];
                if e.reported || bytes_equal(e.header_hash.as_slice(), header_hash) {
                    return None;
                }
                let proof = EquivocationProof {
                    slot,
                    offender: copy_bytes(public_key),
                    first_header: e.header.copy(),
                    second_header: header,
                };
                self.seen[k].reported = true;
                assert(self@ =~= old(self)@.update(k as int, AuthorshipModel { reported: true, ..old(self)@[k as int] }));
                Some(proof)
            },
        }
    }
}

/// Checking a header: its pre-digest names the farmer and the slot, and its
/// pre-seal hash identifies it; a header without exactly one pre-digest, or
/// that cannot be encoded, is not recorded.
pub open spec fn check_header_spec(seen: Seq<AuthorshipModel>, h: HeaderModel) -> (
    Seq<AuthorshipModel>,
    Option<EquivocationProofModel>,
) {
    match header_pre_digest(h) {
        None => (seen, None),
        Some(p) => if !header_well_formed(h) {
            (seen, None)
        } else {
            observe_spec(seen, p.slot, p.solution.public_key, pre_seal_hash_spec(h), h)
        },
    }
}

impl EquivocationDetector {
    /// Records the authorship that a verified header claims and returns the
    /// equivocation this reveals, if any.
    pub fn check_header(&mut self, header: Header) -> (r: Option<EquivocationProof>)
        ensures
            ({
                let (seen, proof) = check_header_spec(old(self)@, header@);
                &&& final(self)@ == seen
                &&& match r {
                    Some(p) => proof == Some(p@),
                    None => proof is None,
                }
            }),
    {
        let pre_digest = match find_pre_digest(&header) {
            Some(p) => p,
            None => return None,
        };
        if !header_fits(&header) {
            return None;
        }
        let hash = pre_seal_hash(&header);
        self.observe(pre_digest.slot, pre_digest.solution.public_key.as_slice(), hash.as_slice(), header)
    }
}

/// The entries for slots at or after `bound`, in order.
pub open spec fn retained(seen: Seq<AuthorshipModel>, bound: u64) -> Seq<AuthorshipModel>
    decreases seen.len(),
{
    if seen.len() == 0 {
        seen
    } else {
        let rest = retained(seen.drop_first(), bound);
        if seen[0].slot >= bound {
            seq![seen[0]] + rest
        } else {
            rest
        }
    }
}

impl EquivocationDetector {
    /// Forgets every slot before `bound`: the window of open slots moves on.
    pub fn prune_before(&mut self, bound: u64)
        ensures
            final(self)@ == retained(old(self)@, bound),
    {
        let mut earlier: Vec<Authorship> = Vec::new();
        std::mem::swap(&mut self.seen, &mut earlier);
        let ghost all = authorships_view(earlier@);
        assert(self@ =~= Seq::<AuthorshipModel>::empty());
        assert(all == old(self)@);
        while earlier.len() > 0
            invariant
                retained(all, bound) == self@ + retained(authorships_view(earlier@), bound),
            decreases earlier@.len(),
        {
            let ghost rest_before = authorships_view(earlier@);
            let e = earlier.remove(0);
            assert(authorships_view(earlier@) =~= rest_before.drop_first());
            assert(rest_before[0] == e@);
            if e.slot >= bound {
                let ghost kept = self@;
                self.seen.push(e);
                assert(self@ =~= kept.push(e@));
                assert(kept + (seq![e@] + retained(authorships_view(earlier@), bound)) =~= kept.push(e@)
                    + retained(authorships_view(earlier@), bound));
            }
        }
        assert(retained(authorships_view(earlier@), bound) =~= Seq::<AuthorshipModel>::empty());
        assert(self@ + Seq::<AuthorshipModel>::empty() =~= self@);
    }
}

} // verus!
