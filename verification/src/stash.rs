//! The checkpoint store: which IDs were visited and what they gave, kept
//! in chunks of a thousand IDs of which one at a time is held in memory.
//!
//! The store does no reading or writing itself. It says which chunk must be
//! written and which read before an ID can be looked at, and takes the
//! chunk that was read. [`Store`] is the model of the whole, storage
//! included, and the laws of the store are proved of it.

use crate::record::TorrentInfo;
use crate::text::{number_between, numbered};
use std::collections::BTreeMap;
use vstd::prelude::*;
use vstd::std_specs::btree::group_btree_axioms;

verus! {

broadcast use group_btree_axioms;

/// How many IDs a chunk spans.
pub const CHUNK_SIZE: usize = 1000;

/// The chunk that the ID `i` belongs to.
pub open spec fn chunk_of(i: usize) -> usize {
    i / CHUNK_SIZE
}

/// The place in storage of the chunk `chunk_id`.
pub open spec fn chunk_place(chunk_id: usize) -> Seq<char> {
    numbered("stash/"@, chunk_id as nat, ".json"@)
}

/// The place in storage of the chunk `chunk_id`.
pub fn chunk_path(chunk_id: usize) -> (r: String)
    ensures
        r@ == chunk_place(chunk_id),
{
    number_between("stash/", chunk_id as u64, ".json")
}

/// What a chunk holds: for each visited ID its record, `None` for an ID
/// that names no torrent.
pub type Chunk = Map<usize, Option<TorrentInfo>>;

/// What a [`Stash`] holds: the chunk in memory and its number.
pub struct StashView {
    pub loaded_chunk: usize,
    pub chunk: Chunk,
}

impl StashView {
    /// Whether the chunk in memory is the one that `i` belongs to.
    pub open spec fn owns(self, i: usize) -> bool {
        chunk_of(i) == self.loaded_chunk
    }

    /// The stash with `info` recorded for `i`.
    pub open spec fn put(self, i: usize, info: Option<TorrentInfo>) -> StashView {
        StashView { chunk: self.chunk.insert(i, info), ..self }
    }
}

/// The chunk of the checkpoint store that is held in memory.
pub struct Stash {
    loaded_chunk: usize,
    chunk: BTreeMap<usize, Option<TorrentInfo>>,
}

impl View for Stash {
    type V = StashView;

    closed spec fn view(&self) -> StashView {
        StashView { loaded_chunk: self.loaded_chunk, chunk: self.chunk@ }
    }
}

impl Stash {
    /// A stash that holds chunk 0 with the entries that were read for it.
    pub fn open(chunk: BTreeMap<usize, Option<TorrentInfo>>) -> (r: Stash)
        ensures
            r@ == (StashView { loaded_chunk: 0, chunk: chunk@ }),
    {
        Stash { loaded_chunk: 0, chunk }
    }

    /// Takes `chunk`, read from storage, for chunk `chunk_id` in place of
    /// the chunk in memory, which must have been saved before.
    pub fn load_chunk(&mut self, chunk_id: usize, chunk: BTreeMap<usize, Option<TorrentInfo>>)
        ensures
            final(self)@ == (StashView { loaded_chunk: chunk_id, chunk: chunk@ }),
    {
        self.loaded_chunk = chunk_id;
        self.chunk = chunk;
    }

    /// The chunk that must be loaded before `i` can be looked at; `None`
    /// where it is the one in memory.
    pub fn load_item_chunk(&self, i: usize) -> (r: Option<usize>)
        ensures
            r == if self@.owns(i) {
                None
            } else {
                Some(chunk_of(i))
            },
    {
        let chunk_id = i / CHUNK_SIZE;
        if self.loaded_chunk != chunk_id {
            Some(chunk_id)
        } else {
            None
        }
    }

    /// Records `info` for `i` where the chunk of `i` is in memory; hands
    /// `info` back, and changes nothing, where it is not.
    pub fn insert(&mut self, i: usize, info: Option<TorrentInfo>) -> (r: Result<
        (),
        Option<TorrentInfo>,
    >)
        ensures
            old(self)@.owns(i) ==> r is Ok && final(self)@ == old(self)@.put(i, info),
            !old(self)@.owns(i) ==> r == Err::<(), Option<TorrentInfo>>(info) && final(self)@
                == old(self)@,
    {
        if self.loaded_chunk != i / CHUNK_SIZE {
            return Err(info);
        }
        self.chunk.insert(i, info);
        Ok(())
    }

    /// Whether `i` was visited, where the chunk of `i` is in memory; `None`
    /// where it is not.
    pub fn contains_key(&self, i: &usize) -> (r: Option<bool>)
        ensures
            r == if self@.owns(*i) {
                Some(self@.chunk.contains_key(*i))
            } else {
                None
            },
    {
        if self.loaded_chunk != *i / CHUNK_SIZE {
            return None;
        }
        Some(self.chunk.contains_key(i))
    }

    /// What is to be written to storage: the number of the chunk in memory
    /// and its entries.
    pub fn save(&self) -> (r: (usize, &BTreeMap<usize, Option<TorrentInfo>>))
        ensures
            r.0 == self@.loaded_chunk,
            r.1@ == self@.chunk,
    {
        (self.loaded_chunk, &self.chunk)
    }
}

/// The checkpoint store as a whole: the chunks in storage and the stash in
/// memory.
pub struct Store {
    /// The chunks that were written, by their numbers.
    pub disk: Map<usize, Chunk>,
    pub stash: StashView,
}

impl Store {
    /// A store of which nothing was written yet, as a first run finds it.
    pub open spec fn fresh() -> Store {
        Store {
            disk: Map::empty().insert(0, Map::empty()),
            stash: StashView { loaded_chunk: 0, chunk: Map::empty() },
        }
    }

    /// What reading chunk `c` gives: a chunk that was never written reads
    /// as empty.
    pub open spec fn stored(self, c: usize) -> Chunk {
        if self.disk.contains_key(c) {
            self.disk[c]
        } else {
            Map::empty()
        }
    }

    /// The store after the chunk in memory was written.
    pub open spec fn flush(self) -> Store {
        Store { disk: self.disk.insert(self.stash.loaded_chunk, self.stash.chunk), ..self }
    }

    /// The store once the chunk of `i` is in memory: where another chunk
    /// was there, it was written first and the chunk of `i` read then.
    pub open spec fn reach(self, i: usize) -> Store {
        if self.stash.owns(i) {
            self
        } else {
            let written = self.flush();
            Store {
                disk: written.disk,
                stash: StashView {
                    loaded_chunk: chunk_of(i),
                    chunk: written.stored(chunk_of(i)),
                },
            }
        }
    }

    /// The store after `info` was recorded for `i`.
    pub open spec fn insert(self, i: usize, info: Option<TorrentInfo>) -> Store {
        let at = self.reach(i);
        Store { stash: at.stash.put(i, info), ..at }
    }

    /// Whether the store reports `i` as visited.
    pub open spec fn contains(self, i: usize) -> bool {
        self.reach(i).stash.chunk.contains_key(i)
    }

    /// What the store holds for `i`.
    pub open spec fn record(self, i: usize) -> Option<TorrentInfo> {
        self.reach(i).stash.chunk[i]
    }

    /// The store as a new run finds it: what was in memory is gone, and
    /// chunk 0 is read.
    pub open spec fn reopen(self) -> Store {
        Store { disk: self.disk, stash: StashView { loaded_chunk: 0, chunk: self.stored(0) } }
    }

    /// Whether every chunk, in storage or in memory, holds only IDs of its
    /// own range.
    pub open spec fn tidy(self) -> bool {
        &&& forall|c: usize, i: usize|
            self.disk.contains_key(c) && #[trigger] self.disk[c].contains_key(i) ==> chunk_of(i)
                == c
        &&& forall|i: usize| #[trigger]
            self.stash.chunk.contains_key(i) ==> chunk_of(i) == self.stash.loaded_chunk
    }

    /// The store after the records of `ops` were inserted one after another
    /// into a fresh store.
    pub open spec fn after(ops: Seq<(usize, Option<TorrentInfo>)>) -> Store
        decreases ops.len(),
    {
        if ops.len() == 0 {
            Store::fresh()
        } else {
            Store::after(ops.drop_last()).insert(ops.last().0, ops.last().1)
        }
    }
}

/// A record that was inserted is reported, and is the one that was
/// inserted.
pub proof fn lemma_insert_then_contains(s: Store, i: usize, info: Option<TorrentInfo>)
    ensures
        s.insert(i, info).contains(i),
        s.insert(i, info).record(i) == info,
{
}

/// Inserting the same record for the same ID a second time changes
/// nothing.
pub proof fn lemma_insert_idempotent(s: Store, i: usize, info: Option<TorrentInfo>)
    ensures
        s.insert(i, info).insert(i, info) == s.insert(i, info),
{
    let once = s.insert(i, info);
    assert(once.stash.chunk.insert(i, info) =~= once.stash.chunk);
}

/// Inserting a record for one ID changes nothing about another: neither
/// whether it is reported nor what is held for it.
pub proof fn lemma_insert_leaves_others(s: Store, i: usize, info: Option<TorrentInfo>, j: usize)
    requires
        i != j,
    ensures
        s.insert(i, info).contains(j) == s.contains(j),
        s.insert(i, info).record(j) == s.record(j),
{
}

/// Writing the chunk in memory changes nothing that the store reports.
pub proof fn lemma_flush_keeps(s: Store, j: usize)
    ensures
        s.flush().contains(j) == s.contains(j),
        s.flush().record(j) == s.record(j),
{
}

/// After the chunk in memory was written, a new run finds what the old run
/// held: whatever was recorded is reported again with the same record, and
/// nothing else is.
pub proof fn lemma_restart_keeps(s: Store, j: usize)
    ensures
        s.flush().reopen().contains(j) == s.contains(j),
        s.flush().reopen().record(j) == s.record(j),
{
}

/// A new run reports exactly what storage holds: what was recorded after the
/// chunk in memory was last written, and nothing else, is lost.
pub proof fn lemma_restart_reports_storage(s: Store, j: usize)
    ensures
        s.reopen().contains(j) == s.stored(chunk_of(j)).contains_key(j),
        s.reopen().record(j) == s.stored(chunk_of(j))[j],
{
}

/// Inserting the same ID twice with the same record, writing the chunk and
/// starting anew gives a store that reports the ID with that record.
pub proof fn lemma_insert_twice_survives_restart(s: Store, i: usize, info: Option<TorrentInfo>)
    ensures
        s.insert(i, info).insert(i, info).flush().reopen().contains(i),
        s.insert(i, info).insert(i, info).flush().reopen().record(i) == info,
{
    let twice = s.insert(i, info).insert(i, info);
    lemma_insert_then_contains(s.insert(i, info), i, info);
    lemma_restart_keeps(twice, i);
}

/// Whether `ops` inserts a record for `j`.
pub open spec fn inserts(ops: Seq<(usize, Option<TorrentInfo>)>, j: usize) -> bool {
    exists|k: int| 0 <= k < ops.len() && (#[trigger] ops[k]).0 == j
}

/// The record that `ops` inserts last for `j`.
pub open spec fn last_inserted(ops: Seq<(usize, Option<TorrentInfo>)>, j: usize) -> Option<
    TorrentInfo,
>
    decreases ops.len(),
{
    if ops.len() == 0 {
        None
    } else if ops.last().0 == j {
        ops.last().1
    } else {
        last_inserted(ops.drop_last(), j)
    }
}

/// A store that started fresh reports exactly the IDs that were inserted,
/// each with the record that was inserted last for it: an ID that was never
/// inserted is reported absent.
pub proof fn lemma_reports_what_was_inserted(ops: Seq<(usize, Option<TorrentInfo>)>, j: usize)
    ensures
        Store::after(ops).contains(j) == inserts(ops, j),
        inserts(ops, j) ==> Store::after(ops).record(j) == last_inserted(ops, j),
    decreases ops.len(),
{
    if ops.len() == 0 {
        assert(!Store::fresh().contains(j));
    } else {
        let before = ops.drop_last();
        let (i, info) = ops.last();
        lemma_reports_what_was_inserted(before, j);
        if i == j {
            lemma_insert_then_contains(Store::after(before), i, info);
            assert(ops[ops.len() - 1].0 == j);
        } else {
            lemma_insert_leaves_others(Store::after(before), i, info, j);
            if inserts(before, j) {
                let k = choose|k: int| 0 <= k < before.len() && (#[trigger] before[k]).0 == j;
                assert(ops[k].0 == j);
            }
            if inserts(ops, j) {
                let k = choose|k: int| 0 <= k < ops.len() && (#[trigger] ops[k]).0 == j;
                assert(before[k].0 == j);
            }
        }
    }
}

/// Every step of the store keeps each chunk to the IDs of its own range.
pub proof fn lemma_tidy_is_kept(s: Store, i: usize, info: Option<TorrentInfo>)
    requires
        s.tidy(),
    ensures
        s.flush().tidy(),
        s.reach(i).tidy(),
        s.insert(i, info).tidy(),
        s.reopen().tidy(),
        Store::fresh().tidy(),
{
    assert(s.flush().tidy());
    assert(s.reach(i).tidy());
    assert(s.insert(i, info).tidy());
    assert(s.reopen().tidy());
}

/// Two IDs of different chunks end up in different chunks of storage, each
/// in the chunk of its range and not in the other's.
pub proof fn lemma_chunks_part_ids(
    s: Store,
    i: usize,
    a: Option<TorrentInfo>,
    j: usize,
    b: Option<TorrentInfo>,
)
    requires
        s.tidy(),
        chunk_of(i) != chunk_of(j),
    ensures
        ({
            let t = s.insert(i, a).insert(j, b).flush();
            &&& t.stored(chunk_of(i)).contains_key(i)
            &&& !t.stored(chunk_of(i)).contains_key(j)
            &&& t.stored(chunk_of(j)).contains_key(j)
            &&& !t.stored(chunk_of(j)).contains_key(i)
        }),
{
    lemma_tidy_is_kept(s, i, a);
    lemma_tidy_is_kept(s.insert(i, a), j, b);
}

} // verus!
