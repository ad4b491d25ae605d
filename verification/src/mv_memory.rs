//! Multi-version memory: which transactions of the block wrote which location.

use crate::model::{LocationId, MemoryEntry, ReadVersion};
use crate::primitives::Key;
use crate::table::Table;
use crate::tx_dependency::TxId;
use crate::tx_set::{members, set_contains, set_items};
use ahash::AHashSet;
use std::collections::BTreeMap;
use vstd::prelude::*;

verus! {

broadcast use vstd::std_specs::btree::group_btree_axioms;

/// Per location, what each transaction left there.
pub type Cells = Seq<Map<TxId, MemoryEntry>>;

/// The last of the transactions before `bound` that wrote a cell, or -1.
pub open spec fn last_writer(cell: Map<TxId, MemoryEntry>, bound: int) -> int
    decreases bound,
{
    if bound <= 0 {
        -1
    } else if cell.contains_key((bound - 1) as usize) {
        bound - 1
    } else {
        last_writer(cell, bound - 1)
    }
}

/// The latest write to a location by a transaction before `txid`.
pub open spec fn latest_before(cells: Cells, location: LocationId, txid: TxId) -> Option<
    (TxId, MemoryEntry),
> {
    if location < cells.len() {
        let writer = last_writer(cells[location as int], txid as int);
        if writer >= 0 {
            Some((writer as usize, cells[location as int][writer as usize]))
        } else {
            None
        }
    } else {
        None
    }
}

/// The memory after `txid` recorded its writes.
pub open spec fn recorded(
    cells: Cells,
    txid: TxId,
    writes: Set<LocationId>,
    entry: MemoryEntry,
) -> Cells {
    Seq::new(
        cells.len(),
        |l: int|
            if writes.contains(l as usize) {
                cells[l].insert(txid, entry)
            } else {
                cells[l]
            },
    )
}

/// The memory after the writes of `txid` that were not repeated are taken back.
pub open spec fn retracted(
    cells: Cells,
    txid: TxId,
    old_writes: Set<LocationId>,
    new_writes: Set<LocationId>,
) -> Cells {
    Seq::new(
        cells.len(),
        |l: int|
            if old_writes.contains(l as usize) && !new_writes.contains(l as usize) {
                cells[l].remove(txid)
            } else {
                cells[l]
            },
    )
}

/// The memory after the writes of `txid` are marked as expected to change.
pub open spec fn estimated(cells: Cells, txid: TxId, writes: Set<LocationId>) -> Cells {
    Seq::new(
        cells.len(),
        |l: int|
            if writes.contains(l as usize) && cells[l].contains_key(txid) {
                cells[l].insert(txid, MemoryEntry { estimate: true, ..cells[l][txid] })
            } else {
                cells[l]
            },
    )
}

/// A read still sees what a transaction at `txid` would read now.
pub open spec fn read_valid(
    cells: Cells,
    txid: TxId,
    location: LocationId,
    version: ReadVersion,
) -> bool {
    match latest_before(cells, location, txid) {
        Some((writer, entry)) => {
            &&& !entry.estimate
            &&& version matches ReadVersion::MvMemory(seen) && seen.txid == writer
                && seen.incarnation == entry.incarnation
        },
        None => version == ReadVersion::Storage,
    }
}

/// Every read of a transaction at `txid` still sees what it would read now.
pub open spec fn reads_valid(
    cells: Cells,
    txid: TxId,
    reads: Map<LocationId, ReadVersion>,
) -> bool {
    forall|location: LocationId| #[trigger]
        reads.contains_key(location) ==> read_valid(cells, txid, location, reads[location])
}

/// The last writer is the greatest transaction before the bound that wrote the cell.
pub proof fn lemma_last_writer(cell: Map<TxId, MemoryEntry>, bound: int)
    requires
        bound <= usize::MAX,
    ensures
        -1 <= last_writer(cell, bound),
        bound >= 0 ==> last_writer(cell, bound) < bound || last_writer(cell, bound) == -1,
        last_writer(cell, bound) >= 0 ==> cell.contains_key(last_writer(cell, bound) as usize),
        forall|t: TxId|
            last_writer(cell, bound) < t < bound ==> !(#[trigger] cell.contains_key(t)),
    decreases bound,
{
    if bound > 0 && !cell.contains_key((bound - 1) as usize) {
        lemma_last_writer(cell, bound - 1);
    }
}

/// What the last writer is, from its two defining properties.
pub proof fn lemma_is_last_writer(cell: Map<TxId, MemoryEntry>, bound: int, writer: int)
    requires
        bound <= usize::MAX,
        -1 <= writer,
        writer < bound || writer == -1,
        writer >= 0 ==> cell.contains_key(writer as usize),
        forall|t: TxId| writer < t < bound ==> !(#[trigger] cell.contains_key(t)),
    ensures
        last_writer(cell, bound) == writer,
{
    lemma_last_writer(cell, bound);
    let found = last_writer(cell, bound);
    if found < writer {
        assert(!cell.contains_key(writer as usize));
    }
    if writer < found {
        assert(!cell.contains_key(found as usize));
    }
}

/// The mathematical content of an [`MVMemory`].
#[verifier::ext_equal]
pub struct MemoryView {
    /// The number of each known location.
    pub ids: Map<Key, LocationId>,
    /// Per location, what each transaction left there.
    pub cells: Cells,
}

/// The writes of every transaction, by location.
pub struct MVMemory {
    ids: Table<LocationId>,
    cells: Vec<BTreeMap<TxId, MemoryEntry>>,
}

impl View for MVMemory {
    type V = MemoryView;

    closed spec fn view(&self) -> MemoryView {
        MemoryView {
            ids: self.ids@,
            cells: self.cells@.map_values(|cell: BTreeMap<TxId, MemoryEntry>| cell@),
        }
    }
}

impl MVMemory {
    /// Every known location has its own cell.
    pub closed spec fn wf(&self) -> bool {
        &&& self.ids.wf()
        &&& forall|key: Key| #[trigger]
            self.ids@.contains_key(key) ==> self.ids@[key] < self.cells.len()
        &&& forall|a: Key, b: Key| #[trigger]
            self.ids@.contains_key(a) && #[trigger] self.ids@.contains_key(b) && self.ids@[a]
                == self.ids@[b] ==> a == b
    }

    /// Known locations have distinct numbers that address a cell.
    pub proof fn lemma_ids(&self)
        requires
            self.wf(),
        ensures
            self@.cells.len() <= usize::MAX,
            forall|key: Key| #[trigger]
                self@.ids.contains_key(key) ==> self@.ids[key] < self@.cells.len(),
            forall|a: Key, b: Key| #[trigger]
                self@.ids.contains_key(a) && #[trigger] self@.ids.contains_key(b) && self@.ids[a]
                    == self@.ids[b] ==> a == b,
    {
        assert(self@.cells.len() == self.cells.len());
    }

    /// A memory without locations.
    pub fn new() -> (memory: Self)
        ensures
            memory.wf(),
            memory@ == (MemoryView { ids: Map::empty(), cells: Seq::empty() }),
    {
        let memory = MVMemory { ids: Table::new(), cells: Vec::new() };
        assert(memory@.cells =~= Seq::empty());
        memory
    }

    /// The number of a location; an unknown location gets the next number and an empty cell.
    pub fn locate(&mut self, key: Key) -> (location: LocationId)
        requires
            old(self).wf(),
        ensures
            final(self).wf(),
            location < final(self)@.cells.len(),
            old(self)@.ids.contains_key(key) ==> location == old(self)@.ids[key] && final(self)@
                == old(self)@,
            !old(self)@.ids.contains_key(key) ==> {
                &&& location == old(self)@.cells.len()
                &&& final(self)@ == (MemoryView {
                    ids: old(self)@.ids.insert(key, location),
                    cells: old(self)@.cells.push(Map::empty()),
                })
            },
    {
        if let Some(location) = self.ids.get(&key) {
            return *location;
        }
        let ghost before = self@;
        let location: usize = self.cells.len();
        self.cells.push(BTreeMap::new());
        self.ids.insert(key, location);
        assert(self@.cells =~= before.cells.push(Map::empty()));
        location
    }

    /// The number of locations.
    pub fn len(&self) -> (len: usize)
        ensures
            len == self@.cells.len(),
    {
        self.cells.len()
    }

    /// The latest write to a location by a transaction before `txid`.
    pub fn latest_before(&self, location: LocationId, txid: TxId) -> (latest: Option<
        (TxId, MemoryEntry),
    >)
        ensures
            latest == latest_before(self@.cells, location, txid),
    {
        if location >= self.cells.len() {
            return None;
        }
        let cell: &BTreeMap<TxId, MemoryEntry> = &self.cells[location];
        let ghost content = cell@;
        assert(self@.cells[location as int] == content);
        let mut found: bool = false;
        let mut writer: usize = 0;
        for key in keys: cell.keys()
            invariant
                content == cell@,
                keys.seq().unref().to_set() == content.dom(),
                found ==> writer < txid && content.contains_key(writer),
                forall|i: int|
                    0 <= i < keys.index() && *#[trigger] keys.seq()[i] < txid ==> found
                        && *keys.seq()[i] <= writer,
        {
            proof {
                assert(keys.seq().unref()[keys.index()] == *key);
                assert(keys.seq().unref().to_set().contains(*key));
            }
            if *key < txid && (!found || writer < *key) {
                found = true;
                writer = *key;
            }
        }
        proof {
            assert forall|t: TxId| t < txid && #[trigger] content.contains_key(t) implies found && t
                <= writer by {
                assert(content.dom().contains(t));
            }
            lemma_is_last_writer(
                content,
                txid as int,
                if found {
                    writer as int
                } else {
                    -1
                },
            );
        }
        if found {
            match cell.get(&writer) {
                Some(entry) => Some((writer, *entry)),
                None => None,
            }
        } else {
            None
        }
    }

    /// Records what `txid` left at every location that it wrote.
    pub fn record(&mut self, txid: TxId, writes: &AHashSet<LocationId>, entry: MemoryEntry)
        requires
            old(self).wf(),
            forall|l: LocationId| #[trigger]
                members(*writes).contains(l) ==> l < old(self)@.cells.len(),
        ensures
            final(self).wf(),
            final(self)@ == (MemoryView {
                cells: recorded(old(self)@.cells, txid, members(*writes), entry),
                ..old(self)@
            }),
    {
        let ghost before = self@;
        proof {
            self.lemma_ids();
        }
        let items: Vec<LocationId> = set_items(writes);
        let mut i: usize = 0;
        while i < items.len()
            invariant
                self.wf(),
                i <= items.len(),
                self@.ids == before.ids,
                self@.cells.len() == before.cells.len(),
                before.cells.len() <= usize::MAX,
                forall|l: LocationId| #[trigger]
                    items@.contains(l) <==> members(*writes).contains(l),
                forall|l: LocationId| #[trigger]
                    members(*writes).contains(l) ==> l < before.cells.len(),
                forall|l: int|
                    0 <= l < before.cells.len() ==> #[trigger] self@.cells[l] == (if items@.take(
                        i as int,
                    ).contains(l as usize) {
                        before.cells[l].insert(txid, entry)
                    } else {
                        before.cells[l]
                    }),
            decreases items.len() - i,
        {
            let location: LocationId = items[i];
            assert(items@.contains(location));
            let ghost current = self@;
            self.cells[location].insert(txid, entry);
            proof {
                lemma_take_next(items@, i as int);
                assert(self@.cells =~= current.cells.update(
                    location as int,
                    current.cells[location as int].insert(txid, entry),
                ));
                assert forall|l: int| 0 <= l < before.cells.len() implies #[trigger] self@.cells[l]
                    == (if items@.take(i + 1).contains(l as usize) {
                    before.cells[l].insert(txid, entry)
                } else {
                    before.cells[l]
                }) by {
                    if l == location {
                        assert(before.cells[l].insert(txid, entry).insert(txid, entry)
                            =~= before.cells[l].insert(txid, entry));
                    }
                }
            }
            i = i + 1;
        }
        assert(items@.take(i as int) =~= items@);
        assert(self@.cells =~= recorded(before.cells, txid, members(*writes), entry));
    }

    /// Takes back the writes of `txid` that its latest incarnation did not repeat.
    pub fn retract(
        &mut self,
        txid: TxId,
        old_writes: &AHashSet<LocationId>,
        new_writes: &AHashSet<LocationId>,
    )
        requires
            old(self).wf(),
        ensures
            final(self).wf(),
            final(self)@ == (MemoryView {
                cells: retracted(
                    old(self)@.cells,
                    txid,
                    members(*old_writes),
                    members(*new_writes),
                ),
                ..old(self)@
            }),
    {
        let ghost before = self@;
        proof {
            self.lemma_ids();
        }
        let items: Vec<LocationId> = set_items(old_writes);
        let mut i: usize = 0;
        while i < items.len()
            invariant
                self.wf(),
                i <= items.len(),
                self@.ids == before.ids,
                self@.cells.len() == before.cells.len(),
                before.cells.len() <= usize::MAX,
                forall|l: LocationId| #[trigger]
                    items@.contains(l) <==> members(*old_writes).contains(l),
                forall|l: int|
                    0 <= l < before.cells.len() ==> #[trigger] self@.cells[l] == (if items@.take(
                        i as int,
                    ).contains(l as usize) && !members(*new_writes).contains(l as usize) {
                        before.cells[l].remove(txid)
                    } else {
                        before.cells[l]
                    }),
            decreases items.len() - i,
        {
            let location: LocationId = items[i];
            let ghost current = self@;
            proof {
                lemma_take_next(items@, i as int);
            }
            if !set_contains(new_writes, location) && location < self.cells.len() {
                self.cells[location].remove(&txid);
                proof {
                    assert(self@.cells[location as int] =~= current.cells[location as int].remove(
                        txid,
                    ));
                    assert(self@.cells =~= current.cells.update(
                        location as int,
                        current.cells[location as int].remove(txid),
                    ));
                    assert forall|l: int|
                        0 <= l < before.cells.len() implies #[trigger] self@.cells[l] == (
                    if items@.take(i + 1).contains(l as usize) && !members(*new_writes).contains(
                        l as usize,
                    ) {
                        before.cells[l].remove(txid)
                    } else {
                        before.cells[l]
                    }) by {
                        if l == location {
                            assert(before.cells[l].remove(txid).remove(txid)
                                =~= before.cells[l].remove(txid));
                        }
                    }
                }
            }
            i = i + 1;
        }
        assert(items@.take(i as int) =~= items@);
        assert(self@.cells =~= retracted(
            before.cells,
            txid,
            members(*old_writes),
            members(*new_writes),
        ));
    }

    /// Marks the writes of `txid` as expected to change.
    pub fn mark_estimate(&mut self, txid: TxId, writes: &AHashSet<LocationId>)
        requires
            old(self).wf(),
        ensures
            final(self).wf(),
            final(self)@ == (MemoryView {
                cells: estimated(old(self)@.cells, txid, members(*writes)),
                ..old(self)@
            }),
    {
        let ghost before = self@;
        proof {
            self.lemma_ids();
        }
        let items: Vec<LocationId> = set_items(writes);
        let mut i: usize = 0;
        while i < items.len()
            invariant
                self.wf(),
                i <= items.len(),
                self@.ids == before.ids,
                self@.cells.len() == before.cells.len(),
                before.cells.len() <= usize::MAX,
                forall|l: LocationId| #[trigger]
                    items@.contains(l) <==> members(*writes).contains(l),
                forall|l: int|
                    0 <= l < before.cells.len() ==> #[trigger] self@.cells[l] == (if items@.take(
                        i as int,
                    ).contains(l as usize) && before.cells[l].contains_key(txid) {
                        before.cells[l].insert(
                            txid,
                            MemoryEntry { estimate: true, ..before.cells[l][txid] },
                        )
                    } else {
                        before.cells[l]
                    }),
            decreases items.len() - i,
        {
            let location: LocationId = items[i];
            let ghost current = self@;
            proof {
                lemma_take_next(items@, i as int);
            }
            if location < self.cells.len() {
                let found: Option<MemoryEntry> = match self.cells[location].get(&txid) {
                    Some(entry) => Some(*entry),
                    None => None,
                };
                assert(current.cells[location as int] == self.cells@[location as int]@);
                if let Some(entry) = found {
                    let marked = MemoryEntry { incarnation: entry.incarnation, estimate: true };
                    self.cells[location].insert(txid, marked);
                    proof {
                        assert(self@.cells =~= current.cells.update(
                            location as int,
                            current.cells[location as int].insert(txid, marked),
                        ));
                        assert forall|l: int|
                            0 <= l < before.cells.len() implies #[trigger] self@.cells[l] == (
                        if items@.take(i + 1).contains(l as usize) && before.cells[l].contains_key(
                            txid,
                        ) {
                            before.cells[l].insert(
                                txid,
                                MemoryEntry { estimate: true, ..before.cells[l][txid] },
                            )
                        } else {
                            before.cells[l]
                        }) by {
                            if l == location {
                                assert(before.cells[l].insert(txid, marked).insert(txid, marked)
                                    =~= before.cells[l].insert(txid, marked));
                            }
                        }
                    }
                }
            }
            i = i + 1;
        }
        assert(items@.take(i as int) =~= items@);
        assert(self@.cells =~= estimated(before.cells, txid, members(*writes)));
    }
}

/// Taking one more item adds exactly that item.
proof fn lemma_take_next(items: Seq<LocationId>, i: int)
    requires
        0 <= i < items.len(),
    ensures
        forall|l: LocationId| #[trigger]
            items.take(i + 1).contains(l) <==> (items.take(i).contains(l) || l == items[i]),
{
    let shorter = items.take(i);
    let longer = items.take(i + 1);
    assert forall|l: LocationId| #[trigger] longer.contains(l) <==> (shorter.contains(l) || l
        == items[i]) by {
        if shorter.contains(l) {
            let k = choose|k: int| 0 <= k < shorter.len() && #[trigger] shorter[k] == l;
            assert(longer[k] == l);
        }
        if l == items[i] {
            assert(longer[i] == l);
        }
        if longer.contains(l) {
            let k = choose|k: int| 0 <= k < longer.len() && #[trigger] longer[k] == l;
            if k < i {
                assert(shorter[k] == l);
            }
        }
    }
}

} // verus!
