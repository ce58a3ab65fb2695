//! Root blocks waiting to be folded into the chain state with the block that
//! carries them, keyed by block number. Importing a block takes its root
//! blocks out; a failed import puts them back, a successful one commits them,
//! so none is ever lost or recorded twice.

use vstd::prelude::*;

use crate::archiver::{RootBlock, RootBlockModel};

verus! {

pub open spec fn root_blocks_view(v: Seq<RootBlock>) -> Seq<RootBlockModel> {
    v.map_values(|r: RootBlock| r@)
}

/// The root blocks pending for block `number`, if any.
pub open spec fn pending_for(entries: Seq<(u64, Seq<RootBlockModel>)>, number: u64) -> Option<
    Seq<RootBlockModel>,
>
    decreases entries.len(),
{
    if entries.len() == 0 {
        None
    } else if entries.last().0 == number {
        Some(entries.last().1)
    } else {
        pending_for(entries.drop_last(), number)
    }
}

/// No block number has two entries.
pub open spec fn keys_unique(entries: Seq<(u64, Seq<RootBlockModel>)>) -> bool {
    forall|i: int, j: int|
        0 <= i < j < entries.len() ==> #[trigger] entries[i].0 != #[trigger] entries[j].0
}

/// With unique keys, what is pending for a number is what its entry holds.
pub proof fn lemma_pending_for_entry(entries: Seq<(u64, Seq<RootBlockModel>)>, number: u64)
    requires
        keys_unique(entries),
    ensures
        (forall|i: int| 0 <= i < entries.len() ==> #[trigger] entries[i].0 != number) ==> pending_for(
            entries,
            number,
        ) is None,
        forall|i: int|
            0 <= i < entries.len() && #[trigger] entries[i].0 == number ==> pending_for(entries, number)
                == Some(entries[i].1),
    decreases entries.len(),
{
    if entries.len() > 0 {
        let rest = entries.drop_last();
        assert(keys_unique(rest));
        lemma_pending_for_entry(rest, number);
        assert forall|i: int| 0 <= i < entries.len() && #[trigger] entries[i].0 == number implies pending_for(
            entries,
            number,
        ) == Some(entries[i].1) by {
            if i < entries.len() - 1 {
                assert(entries[i] == rest[i]);
                assert(entries.last().0 != number);
            }
        }
        if forall|i: int| 0 <= i < entries.len() ==> #[trigger] entries[i].0 != number {
            assert(entries.last().0 != number);
            assert forall|i: int| 0 <= i < rest.len() implies #[trigger] rest[i].0 != number by {
                assert(rest[i] == entries[i]);
            }
        }
    }
}

/// Root blocks pending per block number.
pub struct PendingRootBlocks {
    entries: Vec<(u64, Vec<RootBlock>)>,
}

impl View for PendingRootBlocks {
    type V = Seq<(u64, Seq<RootBlockModel>)>;

    closed spec fn view(&self) -> Seq<(u64, Seq<RootBlockModel>)> {
        self.entries@.map_values(|e: (u64, Vec<RootBlock>)| (e.0, root_blocks_view(e.1@)))
    }
}

impl PendingRootBlocks {
    /// Nothing pending.
    pub fn new() -> (r: PendingRootBlocks)
        ensures
            keys_unique(r@),
            forall|n: u64| pending_for(r@, n) is None,
    {
        let r = PendingRootBlocks { entries: Vec::new() };
        assert(r@ =~= Seq::<(u64, Seq<RootBlockModel>)>::empty());
        r
    }

    /// Position of the entry for `number`, if any.
    fn position(&self, number: u64) -> (r: Option<usize>)
        requires
            keys_unique(self@),
        ensures
            match r {
                Some(k) => k < self@.len() && self@[k as int].0 == number,
                None => forall|i: int| 0 <= i < self@.len() ==> #[trigger] self@[i].0 != number,
            },
    {
        let mut i: usize = 0;
        while i < self.entries.len()
            invariant
                i <= self@.len(),
                self@.len() == self.entries@.len(),
                forall|j: int| 0 <= j < i ==> #[trigger] self@[j].0 != number,
            decreases self@.len() - i,
        {
            if self.entries[i].0 == number {
                return Some(i);
            }
            i = i + 1;
        }
        None
    }

    /// Adds `root_blocks` to those pending for block `number`, after any
    /// already there.
    pub fn stage(&mut self, number: u64, root_blocks: Vec<RootBlock>)
        requires
            keys_unique(old(self)@),
        ensures
            keys_unique(final(self)@),
            pending_for(final(self)@, number) == Some(
                match pending_for(old(self)@, number) {
                    Some(p) => p,
                    None => Seq::<RootBlockModel>::empty(),
                } + root_blocks_view(root_blocks@),
            ),
            forall|n: u64| n != number ==> #[trigger] pending_for(final(self)@, n) == pending_for(old(self)@, n),
    {
        proof {
            lemma_pending_for_entry(old(self)@, number);
        }
        match self.position(number) {
            Some(k) => {
                let mut entry = self.entries.remove(k);
                let ghost before = root_blocks_view(entry.1@);
                let mut added = root_blocks;
                let ghost added_view = root_blocks_view(added@);
                entry.1.append(&mut added);
                assert(root_blocks_view(entry.1@) =~= before + added_view);
                self.entries.push(entry);
                proof {
                    let old_v = old(self)@;
                    let new_v = self@;
                    assert(new_v =~= old_v.remove(k as int).push((number, before + added_view)));
                    assert forall|i: int, j: int| 0 <= i < j < new_v.len() implies #[trigger] new_v[i].0
                        != #[trigger] new_v[j].0 by {
                        if j == new_v.len() - 1 {
                            if i < k {
                                assert(new_v[i] == old_v[i]);
                            } else {
                                assert(new_v[i] == old_v[i + 1]);
                            }
                        } else {
                            if i < k {
                                assert(new_v[i] == old_v[i]);
                            } else {
                                assert(new_v[i] == old_v[i + 1]);
                            }
                            if j < k {
                                assert(new_v[j] == old_v[j]);
                            } else {
                                assert(new_v[j] == old_v[j + 1]);
                            }
                        }
                    }
                    lemma_pending_for_entry(new_v, number);
                    assert(new_v[new_v.len() - 1].0 == number);
                    assert forall|n: u64| n != number implies #[trigger] pending_for(new_v, n)
                        == pending_for(old_v, n) by {
                        lemma_pending_for_entry(new_v, n);
                        lemma_pending_for_entry(old_v, n);
                        if exists|i: int| 0 <= i < old_v.len() && old_v[i].0 == n {
                            let i = choose|i: int| 0 <= i < old_v.len() && old_v[i].0 == n;
                            if i < k {
                                assert(new_v[i] == old_v[i]);
                            } else {
                                assert(i != k);
                                assert(new_v[i - 1] == old_v[i]);
                            }
                        } else {
                            assert forall|i: int| 0 <= i < new_v.len() implies #[trigger] new_v[i].0 != n by {
                                if i < new_v.len() - 1 {
                                    if i < k {
                                        assert(new_v[i] == old_v[i]);
                                    } else {
                                        assert(new_v[i] == old_v[i + 1]);
                                    }
                                }
                            }
                        }
                    }
                }
            },
            None => {
                let ghost added_view = root_blocks_view(root_blocks@);
                self.entries.push((number, root_blocks));
                proof {
                    let old_v = old(self)@;
                    let new_v = self@;
                    assert(new_v =~= old_v.push((number, added_view)));
                    assert(Seq::<RootBlockModel>::empty() + added_view =~= added_view);
                    assert(new_v.drop_last() =~= old_v);
                    assert forall|n: u64| n != number implies #[trigger] pending_for(new_v, n)
                        == pending_for(old_v, n) by {}
                }
            },
        }
    }

    /// Takes out the root blocks pending for block `number`, as the import of
    /// that block begins.
    pub fn take(&mut self, number: u64) -> (r: Option<Vec<RootBlock>>)
        requires
            keys_unique(old(self)@),
        ensures
            keys_unique(final(self)@),
            match r {
                Some(v) => pending_for(old(self)@, number) == Some(root_blocks_view(v@)),
                None => pending_for(old(self)@, number) is None,
            },
            pending_for(final(self)@, number) is None,
            forall|n: u64| n != number ==> #[trigger] pending_for(final(self)@, n) == pending_for(old(self)@, n),
    {
        proof {
            lemma_pending_for_entry(old(self)@, number);
        }
        match self.position(number) {
            Some(k) => {
                let entry = self.entries.remove(k);
                proof {
                    let old_v = old(self)@;
                    let new_v = self@;
                    assert(new_v =~= old_v.remove(k as int));
                    assert forall|i: int, j: int| 0 <= i < j < new_v.len() implies #[trigger] new_v[i].0
                        != #[trigger] new_v[j].0 by {
                        if i < k {
                            assert(new_v[i] == old_v[i]);
                        } else {
                            assert(new_v[i] == old_v[i + 1]);
                        }
                        if j < k {
                            assert(new_v[j] == old_v[j]);
                        } else {
                            assert(new_v[j] == old_v[j + 1]);
                        }
                    }
                    assert forall|n: u64| #[trigger] pending_for(new_v, n) == (if n == number {
                        None
                    } else {
                        pending_for(old_v, n)
                    }) by {
                        lemma_pending_for_entry(new_v, n);
                        lemma_pending_for_entry(old_v, n);
                        if exists|i: int| 0 <= i < old_v.len() && old_v[i].0 == n && i != k {
                            let i = choose|i: int| 0 <= i < old_v.len() && old_v[i].0 == n && i != k;
                            if i < k {
                                assert(new_v[i] == old_v[i]);
                            } else {
                                assert(new_v[i - 1] == old_v[i]);
                            }
                        } else {
                            assert forall|i: int| 0 <= i < new_v.len() implies #[trigger] new_v[i].0 != n by {
                                if i < k {
                                    assert(new_v[i] == old_v[i]);
                                } else {
                                    assert(new_v[i] == old_v[i + 1]);
                                }
                            }
                            if n != number {
                                assert forall|i: int| 0 <= i < old_v.len() implies #[trigger] old_v[i].0 != n by {
                                    if i == k {
                                    }
                                }
                            }
                        }
                    }
                }
                Some(entry.1)
            },
            None => None,
        }
    }

    /// Ends the import of block `number`, for which `taken` was taken out:
    /// after a successful import they are handed back to be recorded with the
    /// block; after a failed one they are pending again, exactly as before.
    pub fn finish_import(&mut self, number: u64, taken: Option<Vec<RootBlock>>, imported: bool) -> (r:
        Option<Vec<RootBlock>>)
        requires
            keys_unique(old(self)@),
            pending_for(old(self)@, number) is None,
        ensures
            keys_unique(final(self)@),
            imported ==> r == taken && final(self)@ == old(self)@,
            !imported ==> r is None && pending_for(final(self)@, number) == match taken {
                Some(v) => Some(root_blocks_view(v@)),
                None => None,
            },
            forall|n: u64| n != number ==> #[trigger] pending_for(final(self)@, n) == pending_for(old(self)@, n),
    {
        if imported {
            return taken;
        }
        match taken {
            Some(v) => {
                let ghost added = root_blocks_view(v@);
                self.stage(number, v);
                assert(Seq::<RootBlockModel>::empty() + added =~= added);
            },
            None => {},
        }
        None
    }
}

} // verus!
