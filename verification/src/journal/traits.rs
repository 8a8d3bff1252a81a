//! The capabilities every backend is programmed against: reading a stream of
//! entries in order, and appending entries to a log.
use super::entry::{EntryView, JournalEntry};
use super::error::JournalError;
use vstd::prelude::*;

verus! {

/// What a read must give: the entry under the cursor and a cursor moved by
/// one, or, at the end of the stream, the end or the fault that stands
/// there, with the cursor where it was.
pub open spec fn spec_read_outcome(
    stream: Seq<EntryView>,
    position: nat,
    fault: Option<JournalError>,
    res: Result<Option<JournalEntry>, JournalError>,
    after: nat,
) -> bool {
    if position < stream.len() {
        &&& res matches Ok(Some(entry))
        &&& entry@ == stream[position as int]
        &&& after == position + 1
    } else {
        &&& after == position
        &&& match fault {
            None => res matches Ok(None),
            Some(err) => res == Err::<Option<JournalEntry>, JournalError>(err),
        }
    }
}

/// What a write must answer: the refusal, if there is one.
pub open spec fn spec_write_result(refusal: Option<JournalError>) -> Result<(), JournalError> {
    match refusal {
        Some(err) => Err(err),
        None => Ok(()),
    }
}

/// What a log holds after a write: one entry more if the write was taken
/// and the journal records the entry, else what it held.
pub open spec fn spec_log_after(
    log: Seq<EntryView>,
    refusal: Option<JournalError>,
    records: bool,
    entry: EntryView,
) -> Seq<EntryView> {
    if refusal.is_none() && records {
        log.push(entry)
    } else {
        log
    }
}

/// A cursor over a stream of entries. Reading moves the cursor and nothing
/// else.
pub trait ReadableJournal {
    /// The entries of the stream, from its beginning.
    open spec fn stream(&self) -> Seq<EntryView> {
        arbitrary()
    }

    /// How many entries lie before the cursor.
    open spec fn position(&self) -> nat {
        arbitrary()
    }

    /// What stands at the end of the stream in place of a clean end, if
    /// anything does.
    open spec fn fault(&self) -> Option<JournalError> {
        arbitrary()
    }

    /// The next entry in order, or `None` at the end of the stream.
    fn read(&mut self) -> (res: Result<Option<JournalEntry>, JournalError>)
        ensures
            final(self).stream() == old(self).stream(),
            final(self).fault() == old(self).fault(),
            spec_read_outcome(
                old(self).stream(),
                old(self).position(),
                old(self).fault(),
                res,
                final(self).position(),
            ),
    ;

    /// Why the stream cannot be read from its beginning once more, if it
    /// cannot.
    open spec fn restart_fault(&self) -> Option<JournalError> {
        arbitrary()
    }

    /// A new cursor at the beginning of the same stream. This cursor stays
    /// where it is.
    fn as_restarted(&self) -> (res: Result<Self, JournalError>) where Self: Sized
        ensures
            match self.restart_fault() {
                Some(err) => res == Err::<Self, JournalError>(err),
                None => res.is_ok() && res.unwrap().stream() == self.stream() && res.unwrap().position()
                    == 0 && res.unwrap().fault() == self.fault() && res.unwrap().restart_fault().is_none(),
            },
    ;
}

/// Append-only access to a log.
pub trait WritableJournal {
    /// The entries recorded so far, in the order they were written.
    open spec fn log(&self) -> Seq<EntryView> {
        arbitrary()
    }

    /// Why a write of this entry would be refused now, if it would.
    open spec fn refusal(&self, entry: EntryView) -> Option<JournalError> {
        arbitrary()
    }

    /// Whether this entry, once taken, is recorded. A journal may take an
    /// entry and leave it out: a filter does, and a sink that keeps nothing.
    open spec fn records(&self, entry: EntryView) -> bool {
        arbitrary()
    }

    /// Appends one entry. A refused write leaves the log as it was.
    fn write(&mut self, entry: JournalEntry) -> (res: Result<(), JournalError>)
        ensures
            res == spec_write_result(old(self).refusal(entry@)),
            final(self).log() == spec_log_after(
                old(self).log(),
                old(self).refusal(entry@),
                old(self).records(entry@),
                entry@,
            ),
    ;
}

/// What a run of entries means.
pub open spec fn spec_entry_views(entries: Seq<JournalEntry>) -> Seq<EntryView> {
    Seq::new(entries.len(), |i: int| entries[i]@)
}

/// What is left to read: the entries from the cursor on.
pub open spec fn spec_pending(stream: Seq<EntryView>, position: nat) -> Seq<EntryView> {
    if position <= stream.len() {
        stream.skip(position as int)
    } else {
        Seq::empty()
    }
}

/// Reads on until the stream ends. It gives the entries from the cursor on,
/// each once and in order, and leaves the cursor at the end of the stream;
/// where a fault stands at the end of the stream it gives the fault, with
/// the cursor at the fault.
pub fn read_to_end<R: ReadableJournal>(reader: &mut R) -> (res: Result<
    Vec<JournalEntry>,
    JournalError,
>)
    requires
        old(reader).stream().len() <= usize::MAX,
    ensures
        final(reader).stream() == old(reader).stream(),
        final(reader).fault() == old(reader).fault(),
        old(reader).position() <= old(reader).stream().len() ==> final(reader).position() == old(reader).stream().len(),
        old(reader).position() > old(reader).stream().len() ==> final(reader).position() == old(reader).position(),
        match old(reader).fault() {
            None => res.is_ok() && spec_entry_views(res.unwrap()@) == spec_pending(
                old(reader).stream(),
                old(reader).position(),
            ),
            Some(err) => res == Err::<Vec<JournalEntry>, JournalError>(err),
        },
{
    let ghost stream = reader.stream();
    let ghost start = reader.position();
    let mut entries: Vec<JournalEntry> = Vec::new();
    loop
        invariant
            stream.len() <= usize::MAX,
            reader.stream() == stream,
            reader.fault() == old(reader).fault(),
            stream == old(reader).stream(),
            start == old(reader).position(),
            start <= stream.len() ==> start <= reader.position() <= stream.len(),
            start > stream.len() ==> reader.position() == start,
            entries@.len() == reader.position() - start,
            spec_entry_views(entries@) == spec_pending(stream, start).take(
                reader.position() - start,
            ),
        decreases stream.len() - reader.position(),
    {
        let ghost before = entries@;
        let ghost at = reader.position();
        match reader.read() {
            Ok(Some(entry)) => {
                entries.push(entry);
                assert(spec_entry_views(entries@) =~= spec_pending(stream, start).take(
                    reader.position() - start,
                )) by {
                    assert forall|j: int| 0 <= j < entries@.len() implies spec_entry_views(
                        entries@,
                    )[j] == spec_pending(stream, start)[j] by {
                        if j < before.len() {
                            assert(spec_entry_views(before)[j] == spec_pending(stream, start).take(
                                at - start,
                            )[j]);
                        }
                    }
                }
            },
            Ok(None) => {
                assert(spec_entry_views(entries@) =~= spec_pending(stream, start));
                return Ok(entries);
            },
            Err(err) => {
                return Err(err);
            },
        }
    }
}

/// A backend that is log and replay source at once: what is written to it
/// is what is read from it.
pub trait Journal: ReadableJournal + WritableJournal {
    /// The stream read is the log written.
    proof fn lemma_stream_is_log(&self)
        ensures
            self.stream() == self.log(),
    ;

    /// Every entry the journal takes it records.
    proof fn lemma_records_all(&self, entry: EntryView)
        ensures
            self.records(entry),
    ;
}

/// A restarted reader starts at the beginning. Let a reader be restarted
/// from a journal that refuses no restart, wherever the cursor of the
/// journal stands. Then the reads of the new reader give the entries of the
/// stream from the first on: the read at each position gives the entry of
/// that position.
pub proof fn lemma_restart_reads_from_start<R: ReadableJournal>(journal: R, reader: R)
    requires
        journal.restart_fault().is_none(),
        reader.stream() == journal.stream(),
        reader.position() == 0,
        reader.fault() == journal.fault(),
    ensures
        spec_pending(reader.stream(), reader.position()) == journal.stream(),
        forall|k: nat, res: Result<Option<JournalEntry>, JournalError>, moved: nat|
            k < journal.stream().len() && #[trigger] spec_read_outcome(
                reader.stream(),
                k,
                reader.fault(),
                res,
                moved,
            ) ==> res.is_ok() && res.unwrap().is_some() && res.unwrap().unwrap()@
                == journal.stream()[k as int] && moved == k + 1,
{
    assert(reader.stream().skip(0) =~= reader.stream());
}

/// Read back. Let a journal take an entry, and let a reader be restarted
/// from it afterwards. Then the stream of the reader is the stream the
/// journal had before with the entry behind it, and the read at the
/// position of the entry gives the entry as it was written. For a journal
/// that was empty, that is the first read.
pub proof fn lemma_written_is_read_back<J: Journal>(
    before: J,
    after: J,
    reader: J,
    entry: EntryView,
)
    requires
        before.refusal(entry).is_none(),
        after.log() == spec_log_after(
            before.log(),
            before.refusal(entry),
            before.records(entry),
            entry,
        ),
        after.restart_fault().is_none(),
        reader.stream() == after.stream(),
        reader.position() == 0,
        reader.fault() == after.fault(),
    ensures
        reader.stream() == before.stream().push(entry),
        forall|res: Result<Option<JournalEntry>, JournalError>, moved: nat| #[trigger]
            spec_read_outcome(
                reader.stream(),
                before.stream().len(),
                reader.fault(),
                res,
                moved,
            ) ==> res.is_ok() && res.unwrap().is_some() && res.unwrap().unwrap()@ == entry,
{
    before.lemma_stream_is_log();
    before.lemma_records_all(entry);
    after.lemma_stream_is_log();
}

} // verus!
