//! A journal whose backend is chosen when the program runs. What holds an
//! [`AnyJournal`] reads, writes and restarts it without knowing which
//! backend stands behind it.
use super::codec::spec_encode;
use super::entry::{EntryView, JournalEntry};
use super::error::JournalError;
use super::log::LogJournal;
use super::memory::MemoryJournal;
use super::traits::{Journal, ReadableJournal, WritableJournal};
use vstd::prelude::*;

verus! {

/// One of the backends that are log and replay source at once.
#[derive(Debug)]
pub enum AnyJournal {
    /// A journal in memory.
    Memory(MemoryJournal),
    /// A journal over the bytes of a log.
    Log(LogJournal),
}

impl AnyJournal {
    /// The limit of the backend, if it has one: entries for a journal in
    /// memory, bytes for a log.
    pub open spec fn spec_limit(&self) -> Option<usize> {
        match self {
            AnyJournal::Memory(journal) => journal.spec_limit(),
            AnyJournal::Log(journal) => journal.spec_limit(),
        }
    }

    /// The bytes of the backend, where it is a log.
    pub open spec fn spec_bytes(&self) -> Option<Seq<u8>> {
        match self {
            AnyJournal::Memory(_) => None,
            AnyJournal::Log(journal) => Some(journal.spec_bytes()),
        }
    }
}

impl ReadableJournal for AnyJournal {
    open spec fn stream(&self) -> Seq<EntryView> {
        match self {
            AnyJournal::Memory(journal) => journal.stream(),
            AnyJournal::Log(journal) => journal.stream(),
        }
    }

    open spec fn position(&self) -> nat {
        match self {
            AnyJournal::Memory(journal) => journal.position(),
            AnyJournal::Log(journal) => journal.position(),
        }
    }

    open spec fn fault(&self) -> Option<JournalError> {
        match self {
            AnyJournal::Memory(journal) => journal.fault(),
            AnyJournal::Log(journal) => journal.fault(),
        }
    }

    open spec fn restart_fault(&self) -> Option<JournalError> {
        None
    }

    /// Reading moves the cursor and leaves the backend as it was.
    fn read(&mut self) -> (res: Result<Option<JournalEntry>, JournalError>)
        ensures
            (*final(self) is Memory) == (*old(self) is Memory),
            final(self).spec_limit() == old(self).spec_limit(),
            final(self).spec_bytes() == old(self).spec_bytes(),
    {
        match self {
            AnyJournal::Memory(journal) => journal.read(),
            AnyJournal::Log(journal) => journal.read(),
        }
    }

    /// A journal over the same backend, with its cursor at the beginning.
    fn as_restarted(&self) -> (res: Result<Self, JournalError>)
        ensures
            (res.unwrap() is Memory) == (*self is Memory),
            res.unwrap().spec_limit() == self.spec_limit(),
            res.unwrap().spec_bytes() == self.spec_bytes(),
    {
        match self {
            AnyJournal::Memory(journal) => match journal.as_restarted() {
                Ok(reader) => Ok(AnyJournal::Memory(reader)),
                Err(err) => Err(err),
            },
            AnyJournal::Log(journal) => match journal.as_restarted() {
                Ok(reader) => Ok(AnyJournal::Log(reader)),
                Err(err) => Err(err),
            },
        }
    }
}

impl WritableJournal for AnyJournal {
    open spec fn log(&self) -> Seq<EntryView> {
        match self {
            AnyJournal::Memory(journal) => journal.log(),
            AnyJournal::Log(journal) => journal.log(),
        }
    }

    open spec fn refusal(&self, entry: EntryView) -> Option<JournalError> {
        match self {
            AnyJournal::Memory(journal) => journal.refusal(entry),
            AnyJournal::Log(journal) => journal.refusal(entry),
        }
    }

    open spec fn records(&self, entry: EntryView) -> bool {
        true
    }

    /// Writing leaves the backend the backend it was, with its limit and
    /// its cursor; a log has the bytes of the entry behind its bytes.
    fn write(&mut self, entry: JournalEntry) -> (res: Result<(), JournalError>)
        ensures
            (*final(self) is Memory) == (*old(self) is Memory),
            final(self).position() == old(self).position(),
            final(self).fault() == old(self).fault(),
            final(self).spec_limit() == old(self).spec_limit(),
            final(self).spec_bytes() == (match old(self).spec_bytes() {
                Some(bytes) => if res.is_ok() {
                    Some(bytes + spec_encode(entry@))
                } else {
                    Some(bytes)
                },
                None => None::<Seq<u8>>,
            }),
    {
        match self {
            AnyJournal::Memory(journal) => journal.write(entry),
            AnyJournal::Log(journal) => journal.write(entry),
        }
    }
}

impl Journal for AnyJournal {
    proof fn lemma_stream_is_log(&self) {
    }

    proof fn lemma_records_all(&self, entry: EntryView) {
    }
}

} // verus!
