//! The sink that keeps nothing, for when journaling is off and the call
//! sites should not have to know.
use super::entry::{EntryView, JournalEntry};
use super::error::JournalError;
use super::traits::WritableJournal;
use vstd::prelude::*;

verus! {

/// Takes every entry and records none.
#[derive(Clone, Copy, Debug, Default, PartialEq, Eq)]
pub struct NullJournal;

impl NullJournal {
    /// The sink.
    pub fn new() -> (journal: NullJournal) {
        NullJournal
    }
}

impl WritableJournal for NullJournal {
    open spec fn log(&self) -> Seq<EntryView> {
        Seq::empty()
    }

    open spec fn refusal(&self, entry: EntryView) -> Option<JournalError> {
        None
    }

    open spec fn records(&self, entry: EntryView) -> bool {
        false
    }

    fn write(&mut self, entry: JournalEntry) -> (res: Result<(), JournalError>) {
        Ok(())
    }
}

} // verus!
