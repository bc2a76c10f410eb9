//! The log store of a raft node: the hard state, the configuration, the log
//! entries and the latest snapshot.
//!
//! The log is kept in the order it was saved; the index and the term of each
//! entry are read once, when it is saved, and are what the store answers
//! from.

use vstd::prelude::*;
use raft::eraftpb::{ConfState, Entry, Snapshot};

verus! {

#[verifier::external_type_specification]
#[verifier::external_body]
pub struct ExEntry(Entry);

#[verifier::external_type_specification]
#[verifier::external_body]
pub struct ExConfState(ConfState);

#[verifier::external_type_specification]
#[verifier::external_body]
pub struct ExSnapshot(Snapshot);

/// The index that a raft entry carries.
pub uninterp spec fn index_of(e: Entry) -> u64;

/// The term that a raft entry carries.
pub uninterp spec fn term_of(e: Entry) -> u64;

/// The `index` field of a raft entry.
#[verifier::external_body]
fn entry_index(e: &Entry) -> (res: u64)
    ensures
        res == index_of(*e),
{
    e.index
}

/// The `term` field of a raft entry.
#[verifier::external_body]
fn entry_term(e: &Entry) -> (res: u64)
    ensures
        res == term_of(*e),
{
    e.term
}

/// `Entry::clone`: the clone equals the entry.
#[verifier::external_body]
fn clone_entry(e: &Entry) -> (c: Entry)
    ensures
        c == *e,
{
    e.clone()
}

/// `ConfState::clone`: the clone equals the configuration.
#[verifier::external_body]
fn clone_conf_state(c: &ConfState) -> (res: ConfState)
    ensures
        res == *c,
{
    c.clone()
}

/// `Snapshot::clone`: the clone equals the snapshot.
#[verifier::external_body]
fn clone_snapshot(s: &Snapshot) -> (c: Snapshot)
    ensures
        c == *s,
{
    s.clone()
}

/// The configuration whose voters are `voters`, all else default.
pub uninterp spec fn conf_state_for(voters: Seq<u64>) -> ConfState;

/// A `ConfState` whose voters are `voters`, all else default. Claimed: the
/// result depends on the voters alone (it is built from them and defaults);
/// what it holds is not stated further, a configuration being opaque here.
#[verifier::external_body]
fn conf_state_with_voters(voters: Vec<u64>) -> (res: ConfState)
    ensures
        res == conf_state_for(voters@),
{
    ConfState { voters, ..Default::default() }
}

/// The snapshot with empty data whose metadata holds `index`, `term` and
/// `conf_state`.
pub uninterp spec fn snapshot_for(index: u64, term: u64, conf_state: ConfState) -> Snapshot;

/// A `Snapshot` with empty data whose metadata holds `index`, `term` and
/// `conf_state`, all else default. Claimed: the result depends on these
/// arguments alone; what it holds is not stated further, a snapshot being
/// opaque here.
#[verifier::external_body]
fn snapshot_with_metadata(index: u64, term: u64, conf_state: ConfState) -> (res: Snapshot)
    ensures
        res == snapshot_for(index, term, conf_state),
{
    let metadata = raft::eraftpb::SnapshotMetadata {
        index,
        term,
        conf_state: protobuf::SingularPtrField::some(conf_state),
        ..Default::default()
    };
    Snapshot {
        metadata: protobuf::SingularPtrField::some(metadata),
        data: bytes::Bytes::new(),
        ..Default::default()
    }
}

/// The persistent state of a raft node: its current term, the node it voted
/// for, and the highest index known to be committed.
#[derive(Clone, Copy)]
pub struct HardState {
    pub term: u64,
    pub vote: u64,
    pub commit: u64,
}

impl Default for HardState {
    /// Term, vote and commit 0.
    fn default() -> (h: Self)
        ensures
            h.term == 0,
            h.vote == 0,
            h.commit == 0,
    {
        HardState { term: 0, vote: 0, commit: 0 }
    }
}

/// Why the store cannot answer.
#[derive(Debug)]
pub enum StorageError {
    /// The entry asked for is not in the log.
    Unavailable,
    /// No snapshot has been stored.
    SnapshotOutOfDate,
}

/// A log entry with the index and term it carries.
struct StoredEntry {
    index: u64,
    term: u64,
    entry: Entry,
}

/// The log store.
pub struct Storage {
    hard_state: HardState,
    conf_state: ConfState,
    entries: Vec<StoredEntry>,
    snapshot: Option<Snapshot>,
}

impl Storage {
    /// Each stored index and term is the one its entry carries.
    #[verifier::type_invariant]
    spec fn wf(&self) -> bool {
        forall|i: int|
            0 <= i < self.entries@.len() ==> {
                &&& (#[trigger] self.entries@[i]).index == index_of(self.entries@[i].entry)
                &&& self.entries@[i].term == term_of(self.entries@[i].entry)
            }
    }

    /// The entries of the log, in order.
    pub closed spec fn log(&self) -> Seq<Entry> {
        Seq::new(self.entries@.len(), |i: int| self.entries@[i].entry)
    }

    /// The stored hard state.
    pub closed spec fn hard_state(&self) -> HardState {
        self.hard_state
    }

    /// The stored configuration.
    pub closed spec fn conf_state(&self) -> ConfState {
        self.conf_state
    }

    /// The stored snapshot, if any.
    pub closed spec fn stored_snapshot(&self) -> Option<Snapshot> {
        self.snapshot
    }

    /// A store with an empty log, the default hard state and no snapshot,
    /// whose configuration has the given voters.
    pub fn new(voters: Vec<u64>) -> (s: Storage)
        ensures
            s.conf_state() == conf_state_for(voters@),
            s.hard_state() == (HardState { term: 0, vote: 0, commit: 0 }),
            s.log() == Seq::<Entry>::empty(),
            s.stored_snapshot() is None,
    {
        let s = Storage {
            hard_state: HardState::default(),
            conf_state: conf_state_with_voters(voters),
            entries: Vec::new(),
            snapshot: None,
        };
        proof {
            assert(s.log() =~= Seq::<Entry>::empty());
        }
        s
    }

    /// Appends clones of `new_entries` to the log, keeping each one's index
    /// and term.
    pub fn save_entries(&mut self, new_entries: &[Entry]) -> (res: Result<(), StorageError>)
        ensures
            res is Ok,
            final(self).log() == old(self).log() + new_entries@,
            final(self).hard_state() == old(self).hard_state(),
            final(self).conf_state() == old(self).conf_state(),
            final(self).stored_snapshot() == old(self).stored_snapshot(),
    {
        proof {
            use_type_invariant(&*self);
        }
        let mut entries: Vec<StoredEntry> = Vec::new();
        std::mem::swap(&mut entries, &mut self.entries);
        let ghost start = entries@;
        let n = new_entries.len();
        for i in 0..n
            invariant
                n == new_entries@.len(),
                entries@.len() == start.len() + i,
                forall|j: int| 0 <= j < start.len() ==> #[trigger] entries@[j] == start[j],
                forall|j: int|
                    0 <= j < i ==> (#[trigger] entries@[start.len() + j]).entry == new_entries@[j],
                forall|j: int|
                    0 <= j < entries@.len() ==> {
                        &&& (#[trigger] entries@[j]).index == index_of(entries@[j].entry)
                        &&& entries@[j].term == term_of(entries@[j].entry)
                    },
        {
            let e = &new_entries[i];
            let stored = StoredEntry { index: entry_index(e), term: entry_term(e), entry: clone_entry(e) };
            entries.push(stored);
        }
        self.entries = entries;
        proof {
            assert(self.log() =~= old(self).log() + new_entries@) by {
                assert forall|j: int| 0 <= j < self.log().len() implies self.log()[j] == (old(
                    self,
                ).log() + new_entries@)[j] by {
                    if j < start.len() {
                        assert(self.entries@[j] == start[j]);
                    } else {
                        assert(self.entries@[start.len() + (j - start.len())].entry
                            == new_entries@[j - start.len()]);
                    }
                }
            }
        }
        Ok(())
    }

    /// Replaces the hard state.
    pub fn update_hard_state(&mut self, new_hard_state: HardState) -> (res: Result<(), StorageError>)
        ensures
            res is Ok,
            final(self).hard_state() == new_hard_state,
            final(self).conf_state() == old(self).conf_state(),
            final(self).log() == old(self).log(),
            final(self).stored_snapshot() == old(self).stored_snapshot(),
    {
        proof {
            use_type_invariant(&*self);
        }
        self.hard_state = new_hard_state;
        Ok(())
    }

    /// Replaces the configuration.
    pub fn update_conf_state(&mut self, new_conf_state: ConfState) -> (res: Result<(), StorageError>)
        ensures
            res is Ok,
            final(self).conf_state() == new_conf_state,
            final(self).hard_state() == old(self).hard_state(),
            final(self).log() == old(self).log(),
            final(self).stored_snapshot() == old(self).stored_snapshot(),
    {
        proof {
            use_type_invariant(&*self);
        }
        self.conf_state = new_conf_state;
        Ok(())
    }

    /// Makes a snapshot with empty data of the given index, term and
    /// configuration, stores it and returns it.
    pub fn create_snapshot(&mut self, request_index: u64, term: u64, conf_state: ConfState) -> (res: Result<
        Snapshot,
        StorageError,
    >)
        ensures
            res is Ok,
            res.unwrap() == snapshot_for(request_index, term, conf_state),
            final(self).stored_snapshot() == Some(res.unwrap()),
            final(self).hard_state() == old(self).hard_state(),
            final(self).conf_state() == old(self).conf_state(),
            final(self).log() == old(self).log(),
    {
        proof {
            use_type_invariant(&*self);
        }
        let snapshot = snapshot_with_metadata(request_index, term, conf_state);
        self.snapshot = Some(clone_snapshot(&snapshot));
        Ok(snapshot)
    }

    /// Stores a snapshot received from the leader.
    pub fn apply_snapshot(&mut self, snapshot: Snapshot) -> (res: Result<(), StorageError>)
        ensures
            res is Ok,
            final(self).stored_snapshot() == Some(snapshot),
            final(self).hard_state() == old(self).hard_state(),
            final(self).conf_state() == old(self).conf_state(),
            final(self).log() == old(self).log(),
    {
        proof {
            use_type_invariant(&*self);
        }
        self.snapshot = Some(snapshot);
        Ok(())
    }

    /// Copies of the hard state and the configuration.
    pub fn initial_state(&self) -> (res: (HardState, ConfState))
        ensures
            res.0 == self.hard_state(),
            res.1 == self.conf_state(),
    {
        (self.hard_state, clone_conf_state(&self.conf_state))
    }

    /// Clones of the log entries at positions `low` (inclusive) to `high`
    /// (exclusive).
    pub fn entries(&self, low: u64, high: u64) -> (res: Vec<Entry>)
        requires
            low <= high <= self.log().len(),
        ensures
            res@ == self.log().subrange(low as int, high as int),
    {
        let mut res: Vec<Entry> = Vec::new();
        let mut i: u64 = low;
        let len = self.entries.len();
        while i < high
            invariant
                len == self.entries@.len(),
                low <= i <= high <= self.entries@.len(),
                res@ == self.log().subrange(low as int, i as int),
            decreases high - i,
        {
            let idx = i as usize;
            res.push(clone_entry(&self.entries[idx].entry));
            proof {
                assert(self.log()[i as int] == self.entries@[i as int].entry);
                assert(res@ =~= self.log().subrange(low as int, i + 1));
            }
            i = i + 1;
        }
        res
    }

    /// The number of entries in the log.
    pub fn entry_count(&self) -> (n: usize)
        ensures
            n == self.log().len(),
    {
        self.entries.len()
    }

    /// The term of the entry at log index `idx`, counting from 1: 0 for
    /// index 0, the term of the `idx`-th entry where the log has one,
    /// `Unavailable` otherwise.
    pub fn term(&self, idx: u64) -> (res: Result<u64, StorageError>)
        ensures
            idx == 0 ==> res == Ok::<u64, StorageError>(0),
            0 < idx <= self.log().len() ==> res == Ok::<u64, StorageError>(
                term_of(self.log()[idx - 1]),
            ),
            idx > self.log().len() ==> res matches Err(StorageError::Unavailable),
    {
        proof {
            use_type_invariant(self);
        }
        if idx == 0 {
            return Ok(0);
        }
        if idx - 1 < self.entries.len() as u64 {
            Ok(self.entries[(idx - 1) as usize].term)
        } else {
            Err(StorageError::Unavailable)
        }
    }

    /// The index of the first entry, or 1 where the log is empty.
    pub fn first_index(&self) -> (res: u64)
        ensures
            self.log().len() == 0 ==> res == 1,
            self.log().len() > 0 ==> res == index_of(self.log()[0]),
    {
        proof {
            use_type_invariant(self);
        }
        if self.entries.len() == 0 {
            1
        } else {
            self.entries[0].index
        }
    }

    /// The index of the last entry, or 1 where the log is empty.
    pub fn last_index(&self) -> (res: u64)
        ensures
            self.log().len() == 0 ==> res == 1,
            self.log().len() > 0 ==> res == index_of(self.log().last()),
    {
        proof {
            use_type_invariant(self);
        }
        if self.entries.len() == 0 {
            1
        } else {
            self.entries[self.entries.len() - 1].index
        }
    }

    /// A clone of the stored snapshot, or `SnapshotOutOfDate` where there is
    /// none.
    pub fn snapshot(&self, request_index: u64, to: u64) -> (res: Result<Snapshot, StorageError>)
        ensures
            self.stored_snapshot() is None ==> res matches Err(StorageError::SnapshotOutOfDate),
            self.stored_snapshot() is Some ==> res == Ok::<Snapshot, StorageError>(
                self.stored_snapshot().unwrap(),
            ),
    {
        match &self.snapshot {
            Some(s) => Ok(clone_snapshot(s)),
            None => Err(StorageError::SnapshotOutOfDate),
        }
    }
}

/// What was saved can be read back: after saving entries, the positions they
/// were saved at hold them.
pub proof fn lemma_saved_entries_read_back(before: Seq<Entry>, saved: Seq<Entry>, after: Seq<Entry>)
    requires
        after == before + saved,
    ensures
        after.subrange(before.len() as int, after.len() as int) == saved,
        after.subrange(0, before.len() as int) == before,
{
    assert(after.subrange(before.len() as int, after.len() as int) =~= saved);
    assert(after.subrange(0, before.len() as int) =~= before);
}

} // verus!
