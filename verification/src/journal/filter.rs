//! The filter: a journal in front of another that hands on the entries a
//! predicate holds of and takes the others without keeping them.
use super::entry::{EntryKind, EntryView, JournalEntry};
use super::error::JournalError;
use super::traits::WritableJournal;
use vstd::prelude::*;

verus! {

/// What a filter chooses by.
pub trait EntryPredicate {
    /// Whether the predicate holds of an entry.
    open spec fn holds(&self, entry: EntryView) -> bool {
        arbitrary()
    }

    /// Whether the predicate holds of an entry.
    fn test(&self, entry: &JournalEntry) -> (passes: bool)
        ensures
            passes == self.holds(entry@),
    ;
}

/// A predicate on the kind of an entry: for each kind, whether entries of
/// that kind pass.
#[derive(Clone, Copy, Debug, PartialEq, Eq, Structural)]
pub struct KindFilter {
    pub control: bool,
    pub memory: bool,
    pub file_system: bool,
    pub network: bool,
    pub process: bool,
    pub environment: bool,
    pub unknown: bool,
}

impl KindFilter {
    /// Whether entries of a kind pass.
    pub open spec fn spec_passes(self, kind: EntryKind) -> bool {
        match kind {
            EntryKind::Control => self.control,
            EntryKind::Memory => self.memory,
            EntryKind::FileSystem => self.file_system,
            EntryKind::Network => self.network,
            EntryKind::Process => self.process,
            EntryKind::Environment => self.environment,
            EntryKind::Unknown => self.unknown,
        }
    }

    /// Whether entries of a kind pass.
    #[verifier::when_used_as_spec(spec_passes)]
    pub fn passes(self, kind: EntryKind) -> (pass: bool)
        ensures
            pass == self.spec_passes(kind),
    {
        match kind {
            EntryKind::Control => self.control,
            EntryKind::Memory => self.memory,
            EntryKind::FileSystem => self.file_system,
            EntryKind::Network => self.network,
            EntryKind::Process => self.process,
            EntryKind::Environment => self.environment,
            EntryKind::Unknown => self.unknown,
        }
    }

    /// The filter every entry passes.
    pub fn everything() -> (filter: KindFilter)
        ensures
            forall|kind: EntryKind| filter.spec_passes(kind),
    {
        KindFilter {
            control: true,
            memory: true,
            file_system: true,
            network: true,
            process: true,
            environment: true,
            unknown: true,
        }
    }

    /// The filter no entry passes.
    pub fn nothing() -> (filter: KindFilter)
        ensures
            forall|kind: EntryKind| !filter.spec_passes(kind),
    {
        KindFilter {
            control: false,
            memory: false,
            file_system: false,
            network: false,
            process: false,
            environment: false,
            unknown: false,
        }
    }

    /// This filter with one kind set to pass or not.
    pub fn with(self, kind: EntryKind, pass: bool) -> (filter: KindFilter)
        ensures
            filter.spec_passes(kind) == pass,
            forall|other: EntryKind| other != kind ==> filter.spec_passes(other) == self.spec_passes(other),
    {
        let mut filter = self;
        match kind {
            EntryKind::Control => {
                filter.control = pass;
            },
            EntryKind::Memory => {
                filter.memory = pass;
            },
            EntryKind::FileSystem => {
                filter.file_system = pass;
            },
            EntryKind::Network => {
                filter.network = pass;
            },
            EntryKind::Process => {
                filter.process = pass;
            },
            EntryKind::Environment => {
                filter.environment = pass;
            },
            EntryKind::Unknown => {
                filter.unknown = pass;
            },
        }
        filter
    }
}

impl EntryPredicate for KindFilter {
    open spec fn holds(&self, entry: EntryView) -> bool {
        self.spec_passes(entry.kind())
    }

    fn test(&self, entry: &JournalEntry) -> (passes: bool) {
        self.passes(entry.kind())
    }
}

/// A journal that hands on to the journal behind it the entries its
/// predicate holds of. The others it takes and leaves out.
#[derive(Debug)]
pub struct FilteredJournal<W: WritableJournal, P: EntryPredicate> {
    inner: W,
    predicate: P,
}

impl<W: WritableJournal, P: EntryPredicate> FilteredJournal<W, P> {
    /// The journal behind the filter.
    pub closed spec fn spec_inner(&self) -> W {
        self.inner
    }

    /// The predicate of the filter.
    pub closed spec fn spec_predicate(&self) -> P {
        self.predicate
    }

    /// Puts a filter in front of a journal.
    pub fn new(inner: W, predicate: P) -> (journal: Self)
        ensures
            journal.spec_inner() == inner,
            journal.spec_predicate() == predicate,
    {
        FilteredJournal { inner, predicate }
    }

    /// The journal behind the filter.
    pub fn inner(&self) -> (inner: &W)
        ensures
            *inner == self.spec_inner(),
    {
        &self.inner
    }

    /// Takes the filter away and gives the journal behind it.
    pub fn into_inner(self) -> (inner: W)
        ensures
            inner == self.spec_inner(),
    {
        self.inner
    }
}

impl<W: WritableJournal, P: EntryPredicate> WritableJournal for FilteredJournal<W, P> {
    open spec fn log(&self) -> Seq<EntryView> {
        self.spec_inner().log()
    }

    open spec fn refusal(&self, entry: EntryView) -> Option<JournalError> {
        if self.spec_predicate().holds(entry) {
            self.spec_inner().refusal(entry)
        } else {
            None
        }
    }

    open spec fn records(&self, entry: EntryView) -> bool {
        self.spec_predicate().holds(entry) && self.spec_inner().records(entry)
    }

    fn write(&mut self, entry: JournalEntry) -> (res: Result<(), JournalError>)
        ensures
            final(self).spec_predicate() == old(self).spec_predicate(),
            !old(self).spec_predicate().holds(entry@) ==> final(self).spec_inner() == old(self).spec_inner(),
    {
        if self.predicate.test(&entry) {
            self.inner.write(entry)
        } else {
            Ok(())
        }
    }
}

} // verus!
