//! The in-memory backend: an ordered, growable run of entries held for as
//! long as the journal lives.
use super::entry::{EntryView, JournalEntry};
use super::error::{JournalError, StorageError};
use super::interleave::{
    interleave, lemma_interleaved_grows, spec_interleaved, spec_producer_views,
    spec_schedule_fits, spec_schedule_view,
};
use super::traits::{
    spec_entry_views, spec_pending, spec_read_outcome, Journal, ReadableJournal,
    WritableJournal,
};
use vstd::prelude::*;

verus! {

/// A copy of a run of entries.
pub fn clone_entries(entries: &Vec<JournalEntry>) -> (copy: Vec<JournalEntry>)
    ensures
        spec_entry_views(copy@) == spec_entry_views(entries@),
{
    let mut copy: Vec<JournalEntry> = Vec::new();
    let mut i: usize = 0;
    while i < entries.len()
        invariant
            i <= entries@.len(),
            copy@.len() == i,
            spec_entry_views(copy@) == spec_entry_views(entries@).take(i as int),
        decreases entries@.len() - i,
    {
        let entry = entries[i].clone();
        let ghost before = copy@;
        copy.push(entry);
        i = i + 1;
        assert forall|j: int| 0 <= j < i implies spec_entry_views(copy@)[j] == spec_entry_views(
            entries@,
        ).take(i as int)[j] by {
            if j < i - 1 {
                assert(spec_entry_views(before)[j] == spec_entry_views(entries@).take(i - 1)[j]);
            }
        }
        assert(spec_entry_views(copy@) =~= spec_entry_views(entries@).take(i as int));
    }
    assert(spec_entry_views(copy@) =~= spec_entry_views(entries@));
    copy
}

/// A journal in memory. It holds the entries written to it, in order, and a
/// cursor for reading them back. It may be given a limit on how many
/// entries it holds.
#[derive(Debug)]
pub struct MemoryJournal {
    entries: Vec<JournalEntry>,
    cursor: usize,
    limit: Option<usize>,
}

impl MemoryJournal {
    /// The most entries the journal holds, if it has a limit.
    pub closed spec fn spec_limit(&self) -> Option<usize> {
        self.limit
    }

    /// An empty journal without a limit.
    pub fn new() -> (journal: MemoryJournal)
        ensures
            journal.stream() == Seq::<EntryView>::empty(),
            journal.position() == 0,
            journal.spec_limit().is_none(),
    {
        let journal = MemoryJournal { entries: Vec::new(), cursor: 0, limit: None };
        assert(journal.stream() =~= Seq::<EntryView>::empty());
        journal
    }

    /// An empty journal that holds at most `limit` entries.
    pub fn with_limit(limit: usize) -> (journal: MemoryJournal)
        ensures
            journal.stream() == Seq::<EntryView>::empty(),
            journal.position() == 0,
            journal.spec_limit() == Some(limit),
    {
        let journal = MemoryJournal { entries: Vec::new(), cursor: 0, limit: Some(limit) };
        assert(journal.stream() =~= Seq::<EntryView>::empty());
        journal
    }

    /// How many entries the journal holds.
    pub fn len(&self) -> (n: usize)
        ensures
            n == self.stream().len(),
    {
        self.entries.len()
    }

    /// How many more entries the journal takes: all of `count` where it
    /// has no limit, else what is left up to the limit.
    pub open spec fn spec_room(&self, count: nat) -> nat {
        match self.spec_limit() {
            None => count,
            Some(limit) => if self.log().len() >= limit {
                0
            } else if limit - self.log().len() >= count {
                count
            } else {
                (limit - self.log().len()) as nat
            },
        }
    }

    /// Writes entries in order until one is refused. A journal with room
    /// for all of them holds all of them afterwards, in the order given; a
    /// journal with room for fewer holds the first of them up to its limit
    /// and refuses the rest.
    pub fn extend(&mut self, entries: &[JournalEntry]) -> (res: Result<(), JournalError>)
        ensures
            final(self).spec_limit() == old(self).spec_limit(),
            final(self).position() == old(self).position(),
            final(self).log() == old(self).log() + spec_entry_views(entries@).take(
                old(self).spec_room(entries@.len()) as int,
            ),
            res == (if old(self).spec_room(entries@.len()) == entries@.len() {
                Ok::<(), JournalError>(())
            } else {
                Err::<(), JournalError>(JournalError::Storage(StorageError::CapacityExceeded))
            }),
    {
        let mut i: usize = 0;
        assert(self.log() =~= old(self).log() + spec_entry_views(entries@).take(0));
        while i < entries.len()
            invariant
                i <= entries@.len(),
                self.spec_limit() == old(self).spec_limit(),
                self.position() == old(self).position(),
                self.log() == old(self).log() + spec_entry_views(entries@).take(i as int),
                old(self).spec_room(entries@.len()) >= i,
            decreases entries@.len() - i,
        {
            let ghost before = self.log();
            match self.write(entries[i].clone()) {
                Ok(()) => {},
                Err(err) => {
                    return Err(err);
                },
            }
            i = i + 1;
            assert(self.log() =~= old(self).log() + spec_entry_views(entries@).take(i as int));
        }
        Ok(())
    }

    /// Writes what producers hold, one write at a time in the order of a
    /// schedule. The journal holds afterwards what it held before and then
    /// the entries as the schedule interleaves them, as far as it has room.
    /// A schedule that does not let every producer write all it has and no
    /// more is answered with nothing, and nothing is written.
    pub fn write_by_schedule(
        &mut self,
        producers: &Vec<Vec<JournalEntry>>,
        schedule: &Vec<usize>,
    ) -> (res: Option<Result<(), JournalError>>)
        ensures
            final(self).spec_limit() == old(self).spec_limit(),
            final(self).position() == old(self).position(),
            res.is_some() == spec_schedule_fits(
                spec_producer_views(producers@),
                spec_schedule_view(schedule@),
            ),
            res.is_none() ==> final(self).log() == old(self).log(),
            res.is_some() ==> final(self).log() == old(self).log() + spec_interleaved(
                spec_producer_views(producers@),
                spec_schedule_view(schedule@),
                schedule@.len() as int,
            ).take(old(self).spec_room(schedule@.len()) as int),
            res.is_some() ==> res.unwrap() == (if old(self).spec_room(schedule@.len())
                == schedule@.len() {
                Ok::<(), JournalError>(())
            } else {
                Err::<(), JournalError>(JournalError::Storage(StorageError::CapacityExceeded))
            }),
    {
        match interleave(producers, schedule) {
            None => None,
            Some(merged) => {
                proof {
                    lemma_interleaved_grows(
                        spec_producer_views(producers@),
                        spec_schedule_view(schedule@),
                        schedule@.len() as int,
                        schedule@.len() as int,
                    );
                }
                Some(self.extend(merged.as_slice()))
            },
        }
    }

    /// The most entries the journal holds, if it has a limit.
    pub fn limit(&self) -> (limit: Option<usize>)
        ensures
            limit == self.spec_limit(),
    {
        self.limit
    }
}

impl ReadableJournal for MemoryJournal {
    closed spec fn stream(&self) -> Seq<EntryView> {
        spec_entry_views(self.entries@)
    }

    closed spec fn position(&self) -> nat {
        self.cursor as nat
    }

    open spec fn fault(&self) -> Option<JournalError> {
        None
    }

    open spec fn restart_fault(&self) -> Option<JournalError> {
        None
    }

    /// Reading moves the cursor and leaves the limit as it was.
    fn read(&mut self) -> (res: Result<Option<JournalEntry>, JournalError>)
        ensures
            final(self).spec_limit() == old(self).spec_limit(),
    {
        if self.cursor < self.entries.len() {
            let entry = self.entries[self.cursor].clone();
            self.cursor = self.cursor + 1;
            Ok(Some(entry))
        } else {
            Ok(None)
        }
    }

    /// A journal that holds what this one holds now, with its cursor at the
    /// beginning. What is written to either afterwards the other does not
    /// see.
    fn as_restarted(&self) -> (res: Result<Self, JournalError>)
        ensures
            res.unwrap().spec_limit() == self.spec_limit(),
    {
        Ok(MemoryJournal { entries: clone_entries(&self.entries), cursor: 0, limit: self.limit })
    }
}

impl WritableJournal for MemoryJournal {
    /// What is written to the journal is what is read from it: the log is
    /// the stream.
    open spec fn log(&self) -> Seq<EntryView> {
        self.stream()
    }

    /// A journal at its limit refuses every entry.
    open spec fn refusal(&self, entry: EntryView) -> Option<JournalError> {
        match self.spec_limit() {
            Some(limit) => if self.log().len() >= limit {
                Some(JournalError::Storage(StorageError::CapacityExceeded))
            } else {
                None
            },
            None => None,
        }
    }

    open spec fn records(&self, entry: EntryView) -> bool {
        true
    }

    fn write(&mut self, entry: JournalEntry) -> (res: Result<(), JournalError>)
        ensures
            final(self).spec_limit() == old(self).spec_limit(),
            final(self).position() == old(self).position(),
    {
        match self.limit {
            Some(limit) => {
                if self.entries.len() >= limit {
                    return Err(JournalError::Storage(StorageError::CapacityExceeded));
                }
            },
            None => {},
        }
        self.entries.push(entry);
        assert(self.log() =~= old(self).log().push(entry@));
        Ok(())
    }
}

impl Journal for MemoryJournal {
    proof fn lemma_stream_is_log(&self) {
    }

    proof fn lemma_records_all(&self, entry: EntryView) {
    }
}

/// Ordering. Let `entries` be written in order to a journal without a
/// limit, and let a reader be restarted from the journal afterwards. Then
/// the reader has ahead of it what the journal held before and then the
/// entries, in the order they were written: the read at each position gives
/// the entry of that position and moves on by one, and the read at the end
/// gives the end of the stream.
pub proof fn lemma_ordering(
    before: MemoryJournal,
    after: MemoryJournal,
    reader: MemoryJournal,
    entries: Seq<EntryView>,
)
    requires
        before.spec_limit().is_none(),
        after.log() == before.log() + entries.take(before.spec_room(entries.len()) as int),
        reader.stream() == after.stream(),
        reader.position() == 0,
    ensures
        spec_pending(reader.stream(), reader.position()) == before.log() + entries,
        forall|k: nat, res: Result<Option<JournalEntry>, JournalError>, moved: nat|
            k < (before.log() + entries).len() && #[trigger] spec_read_outcome(
                reader.stream(),
                k,
                reader.fault(),
                res,
                moved,
            ) ==> res.is_ok() && res.unwrap().is_some() && res.unwrap().unwrap()@ == (before.log()
                + entries)[k as int] && moved == k + 1,
        forall|res: Result<Option<JournalEntry>, JournalError>, moved: nat| #[trigger]
            spec_read_outcome(
                reader.stream(),
                (before.log() + entries).len(),
                reader.fault(),
                res,
                moved,
            ) ==> res.is_ok() && res.unwrap().is_none(),
{
    after.lemma_stream_is_log();
    assert(entries.take(entries.len() as int) =~= entries);
    assert(reader.stream().skip(0) =~= reader.stream());
}

} // verus!
