//! Journals behind a box. A boxed journal is the journal: every call is
//! handed on as it is and answered as the journal answers it.
use super::entry::{EntryView, JournalEntry};
use super::error::JournalError;
use super::traits::{Journal, ReadableJournal, WritableJournal};
use vstd::prelude::*;

verus! {

impl<T: ReadableJournal> ReadableJournal for Box<T> {
    open spec fn stream(&self) -> Seq<EntryView> {
        (**self).stream()
    }

    open spec fn position(&self) -> nat {
        (**self).position()
    }

    open spec fn fault(&self) -> Option<JournalError> {
        (**self).fault()
    }

    open spec fn restart_fault(&self) -> Option<JournalError> {
        (**self).restart_fault()
    }

    fn read(&mut self) -> (res: Result<Option<JournalEntry>, JournalError>) {
        (**self).read()
    }

    fn as_restarted(&self) -> (res: Result<Self, JournalError>) {
        match (**self).as_restarted() {
            Ok(reader) => Ok(Box::new(reader)),
            Err(err) => Err(err),
        }
    }
}

impl<T: WritableJournal + ?Sized> WritableJournal for Box<T> {
    open spec fn log(&self) -> Seq<EntryView> {
        (**self).log()
    }

    open spec fn refusal(&self, entry: EntryView) -> Option<JournalError> {
        (**self).refusal(entry)
    }

    open spec fn records(&self, entry: EntryView) -> bool {
        (**self).records(entry)
    }

    fn write(&mut self, entry: JournalEntry) -> (res: Result<(), JournalError>) {
        (**self).write(entry)
    }
}

impl<T: Journal> Journal for Box<T> {
    proof fn lemma_stream_is_log(&self) {
        (**self).lemma_stream_is_log();
    }

    proof fn lemma_records_all(&self, entry: EntryView) {
        (**self).lemma_records_all(entry);
    }
}

} // verus!
