//! The record of produced blocks: for each header, the body that made it.

use vstd::prelude::*;
use crate::block::BlockData;
use crate::head::{lemma_head_view_injective, HeadData, HeadView};

verus! {

/// A mapping from headers to bodies. Each header is held at most once; a
/// second body recorded for a header takes the place of the first.
pub struct HistoryStore {
    entries: Vec<(HeadData, BlockData)>,
}

/// Whether `key` is the header of the entry at position `i`.
pub open spec fn holds_at(entries: Seq<(HeadData, BlockData)>, i: int, key: HeadView) -> bool {
    0 <= i < entries.len() && entries[i].0@ == key
}

/// No header stands in two entries.
pub open spec fn distinct_keys(entries: Seq<(HeadData, BlockData)>) -> bool {
    forall|i: int, j: int|
        0 <= i < entries.len() && 0 <= j < entries.len() && entries[i].0@ == entries[j].0@ ==> i
            == j
}

/// The mapping that a list of entries with distinct headers stands for.
pub open spec fn entries_map(entries: Seq<(HeadData, BlockData)>) -> Map<HeadView, BlockData> {
    Map::new(
        |key: HeadView| exists|i: int| holds_at(entries, i, key),
        |key: HeadView| entries[choose|i: int| holds_at(entries, i, key)].1,
    )
}

impl View for HistoryStore {
    type V = Map<HeadView, BlockData>;

    closed spec fn view(&self) -> Map<HeadView, BlockData> {
        entries_map(self.entries@)
    }
}

impl HistoryStore {
    /// The store's invariant: no header stands in two entries.
    pub closed spec fn well_formed(&self) -> bool {
        distinct_keys(self.entries@)
    }

    /// The number of headers in the store.
    pub closed spec fn count(&self) -> nat {
        self.entries@.len()
    }

    /// A store that holds nothing.
    pub fn new() -> (store: HistoryStore)
        ensures
            store.well_formed(),
            store@ == Map::<HeadView, BlockData>::empty(),
            store.count() == 0,
    {
        let store = HistoryStore { entries: Vec::new() };
        assert(store@ =~= Map::<HeadView, BlockData>::empty());
        store
    }

    /// The position of the entry for `header`, if there is one.
    fn position(&self, header: &HeadData) -> (found: Option<usize>)
        ensures
            match found {
                Some(i) => holds_at(self.entries@, i as int, header@),
                None => forall|i: int| !holds_at(self.entries@, i, header@),
            },
    {
        let mut i: usize = 0;
        while i < self.entries.len()
            invariant
                i <= self.entries@.len(),
                forall|k: int| 0 <= k < i ==> self.entries@[k].0@ != header@,
            decreases self.entries@.len() - i,
        {
            proof {
                lemma_head_view_injective(self.entries@[i as int].0, *header);
            }
            if self.entries[i].0 == *header {
                return Some(i);
            }
            i += 1;
        }
        None
    }

    /// How many headers the store holds.
    pub fn len(&self) -> (n: usize)
        ensures
            n == self.count(),
    {
        self.entries.len()
    }

    /// The body recorded for exactly this header, if any.
    pub fn get(&self, header: &HeadData) -> (found: Option<BlockData>)
        requires
            self.well_formed(),
        ensures
            found == (if self@.contains_key(header@) {
                Some(self@[header@])
            } else {
                None
            }),
    {
        match self.position(header) {
            Some(i) => {
                assert(holds_at(self.entries@, i as int, header@));
                let ghost chosen = choose|k: int| holds_at(self.entries@, k, header@);
                assert(chosen == i);
                Some(self.entries[i].1)
            },
            None => None,
        }
    }

    /// Whether a body is recorded for this header.
    pub fn contains(&self, header: &HeadData) -> (yes: bool)
        ensures
            yes == self@.contains_key(header@),
    {
        self.position(header).is_some()
    }

    /// Records `body` for `header`. A body recorded before for the same
    /// header is replaced; every other entry stays as it was.
    pub fn insert(&mut self, header: HeadData, body: BlockData)
        requires
            old(self).well_formed(),
        ensures
            final(self).well_formed(),
            final(self)@ == old(self)@.insert(header@, body),
            final(self).count() == (if old(self)@.contains_key(header@) {
                old(self).count()
            } else {
                old(self).count() + 1
            }),
    {
        let ghost before = self.entries@;
        match self.position(&header) {
            Some(i) => {
                self.entries[i] = (header, body);
                proof {
                    let after = self.entries@;
                    assert(after == before.update(i as int, (header, body)));
                    assert(forall|k: int| 0 <= k < after.len() ==> after[k].0@ == before[k].0@);
                    lemma_rewritten(before, i as int, header, body);
                }
            },
            None => {
                self.entries.push((header, body));
                proof {
                    lemma_appended(before, header, body);
                }
            },
        }
    }
}

/// Replacing the body of the entry at `i` gives the mapping with that
/// header's body replaced.
proof fn lemma_rewritten(before: Seq<(HeadData, BlockData)>, i: int, header: HeadData, body: BlockData)
    requires
        distinct_keys(before),
        holds_at(before, i, header@),
    ensures
        distinct_keys(before.update(i, (header, body))),
        entries_map(before.update(i, (header, body))) == entries_map(before).insert(header@, body),
        entries_map(before).contains_key(header@),
{
    let after = before.update(i, (header, body));
    assert forall|key: HeadView| #[trigger]
        entries_map(after).contains_key(key) == entries_map(before).insert(
            header@,
            body,
        ).contains_key(key) by {
        if entries_map(after).contains_key(key) {
            let k = choose|k: int| holds_at(after, k, key);
            assert(holds_at(before, k, key));
        }
        if entries_map(before).contains_key(key) {
            let k = choose|k: int| holds_at(before, k, key);
            assert(holds_at(after, k, key));
        }
        if key == header@ {
            assert(holds_at(after, i, key));
        }
    }
    assert forall|key: HeadView| #[trigger] entries_map(after).contains_key(key) implies entries_map(
        after,
    )[key] == entries_map(before).insert(header@, body)[key] by {
        let k = choose|k: int| holds_at(after, k, key);
        assert(holds_at(before, k, key));
        if key == header@ {
            assert(k == i);
        } else {
            let kb = choose|kb: int| holds_at(before, kb, key);
            assert(kb == k);
        }
    }
    assert(entries_map(after) =~= entries_map(before).insert(header@, body));
}

/// Appending an entry for a header that no entry holds gives the mapping
/// with that header added.
proof fn lemma_appended(before: Seq<(HeadData, BlockData)>, header: HeadData, body: BlockData)
    requires
        distinct_keys(before),
        forall|i: int| !holds_at(before, i, header@),
    ensures
        distinct_keys(before.push((header, body))),
        entries_map(before.push((header, body))) == entries_map(before).insert(header@, body),
        !entries_map(before).contains_key(header@),
{
    let after = before.push((header, body));
    let last = before.len() as int;
    assert forall|a: int, b: int|
        0 <= a < after.len() && 0 <= b < after.len() && after[a].0@ == after[b].0@ implies a
        == b by {
        if a < last && b == last {
            assert(holds_at(before, a, header@));
        }
        if b < last && a == last {
            assert(holds_at(before, b, header@));
        }
    }
    assert forall|key: HeadView| #[trigger]
        entries_map(after).contains_key(key) == entries_map(before).insert(
            header@,
            body,
        ).contains_key(key) by {
        if entries_map(after).contains_key(key) {
            let k = choose|k: int| holds_at(after, k, key);
            if k < last {
                assert(holds_at(before, k, key));
            }
        }
        if entries_map(before).contains_key(key) {
            let k = choose|k: int| holds_at(before, k, key);
            assert(holds_at(after, k, key));
        }
        if key == header@ {
            assert(holds_at(after, last, key));
        }
    }
    assert forall|key: HeadView| #[trigger] entries_map(after).contains_key(key) implies entries_map(
        after,
    )[key] == entries_map(before).insert(header@, body)[key] by {
        let k = choose|k: int| holds_at(after, k, key);
        if key == header@ {
            if k < last {
                assert(holds_at(before, k, key));
            }
            assert(k == last);
        } else {
            assert(holds_at(before, k, key));
            let kb = choose|kb: int| holds_at(before, kb, key);
            assert(holds_at(after, kb, key));
            assert(kb == k);
        }
    }
    assert(entries_map(after) =~= entries_map(before).insert(header@, body));
}

} // verus!
