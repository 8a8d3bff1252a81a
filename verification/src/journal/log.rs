//! The append-only log: entries laid end to end in one run of bytes, as
//! they lie in durable storage. Reading a log stops without complaint where
//! the bytes end in the middle of an entry, so a log whose last write was
//! cut short reads as the log before that write.
use super::codec::{
    lemma_encode_decode_round_trip, lemma_encode_prefix_incomplete, lemma_frame_len,
    spec_decode, spec_encode, spec_parse_frame, Decoded, DecodedView, HEADER_BYTES,
};
use super::entry::{EntryView, JournalEntry};
use super::error::{JournalError, SerializationError, StorageError};
use super::traits::{Journal, ReadableJournal, WritableJournal};
use vstd::prelude::*;

verus! {

/// What a run of bytes is, read as a log.
pub struct LogScan {
    /// The whole entries the bytes start with, in order.
    pub entries: Seq<EntryView>,
    /// How many bytes those entries take.
    pub end: nat,
    /// Why the bytes behind them are no entry, where that is so. Bytes that
    /// end before an entry does are no fault.
    pub fault: Option<SerializationError>,
}

/// Reads a run of bytes as a log: entry after entry, until the bytes end or
/// stop being entries.
pub open spec fn spec_scan(s: Seq<u8>) -> LogScan
    decreases s.len(),
{
    match spec_decode(s) {
        DecodedView::Entry { entry, len } => if 0 < len <= s.len() {
            let rest = spec_scan(s.skip(len as int));
            LogScan { entries: seq![entry] + rest.entries, end: len + rest.end, fault: rest.fault }
        } else {
            LogScan { entries: Seq::empty(), end: 0, fault: None }
        },
        DecodedView::Incomplete => LogScan { entries: Seq::empty(), end: 0, fault: None },
        DecodedView::Invalid(e) => LogScan { entries: Seq::empty(), end: 0, fault: Some(e) },
    }
}

/// Whether a run of bytes is whole entries and nothing else.
pub open spec fn spec_clean(s: Seq<u8>) -> bool {
    spec_scan(s).end == s.len() && spec_scan(s).fault.is_none()
}

/// The bytes of a log that holds these entries.
pub open spec fn spec_log_bytes(entries: Seq<EntryView>) -> Seq<u8>
    decreases entries.len(),
{
    if entries.len() == 0 {
        Seq::empty()
    } else {
        spec_encode(entries[0]) + spec_log_bytes(entries.skip(1))
    }
}

/// Whether every entry of a run can be written and read back.
pub open spec fn spec_all_well_formed(entries: Seq<EntryView>) -> bool {
    forall|i: int| 0 <= i < entries.len() ==> (#[trigger] entries[i]).well_formed()
}

/// What a whole frame is read as depends on the bytes of the frame alone.
pub proof fn lemma_decode_same_prefix(s1: Seq<u8>, s2: Seq<u8>)
    requires
        spec_decode(s1) is Entry,
        s2.len() >= spec_decode(s1)->len,
        s2.take(spec_decode(s1)->len as int) == s1.take(spec_decode(s1)->len as int),
    ensures
        spec_decode(s2) == spec_decode(s1),
        8 <= spec_decode(s1)->len <= s1.len(),
{
    let len = spec_decode(s1)->len as int;
    let p1 = spec_parse_frame(s1);
    assert(p1 is Complete);
    let count = s1[5] as int;
    assert(len >= 8);
    let t1 = s1.take(len);
    let t2 = s2.take(len);
    assert(s1[4] == t1[4] && s2[4] == t2[4]);
    assert(s1[5] == t1[5] && s2[5] == t2[5]);
    assert(s1.subrange(0, 4) =~= t1.subrange(0, 4));
    assert(s2.subrange(0, 4) =~= t2.subrange(0, 4));
    assert(s1.subrange(6, 8) =~= t1.subrange(6, 8));
    assert(s2.subrange(6, 8) =~= t2.subrange(6, 8));
    assert(s1.subrange(8, 8 + 8 * count) =~= t1.subrange(8, 8 + 8 * count));
    assert(s2.subrange(8, 8 + 8 * count) =~= t2.subrange(8, 8 + 8 * count));
    assert(s1.subrange(8 + 8 * count, len) =~= t1.subrange(8 + 8 * count, len));
    assert(s2.subrange(8 + 8 * count, len) =~= t2.subrange(8 + 8 * count, len));
}

/// A scan never runs past the bytes, and every entry it finds takes at
/// least the bytes of a header.
pub proof fn lemma_scan_bounds(s: Seq<u8>)
    ensures
        spec_scan(s).end <= s.len(),
        HEADER_BYTES * spec_scan(s).entries.len() <= spec_scan(s).end,
    decreases s.len(),
{
    match spec_decode(s) {
        DecodedView::Entry { entry, len } => {
            if 0 < len <= s.len() {
                lemma_scan_bounds(s.skip(len as int));
            }
        },
        _ => {},
    }
}

/// Bytes that follow whole entries are read as if they stood alone, after
/// those entries.
pub proof fn lemma_scan_append(s: Seq<u8>, t: Seq<u8>)
    requires
        spec_clean(s),
    ensures
        spec_scan(s + t).entries == spec_scan(s).entries + spec_scan(t).entries,
        spec_scan(s + t).end == s.len() + spec_scan(t).end,
        spec_scan(s + t).fault == spec_scan(t).fault,
    decreases s.len(),
{
    if s.len() == 0 {
        assert(s + t =~= t);
        assert(spec_scan(s).entries =~= Seq::<EntryView>::empty()) by {
            lemma_scan_bounds(s);
        }
        assert(spec_scan(s).entries + spec_scan(t).entries =~= spec_scan(t).entries);
    } else {
        match spec_decode(s) {
            DecodedView::Entry { entry, len } => {
                assert(0 < len <= s.len());
                let rest = s.skip(len as int);
                lemma_scan_bounds(rest);
                assert((s + t).take(len as int) =~= s.take(len as int));
                lemma_decode_same_prefix(s, s + t);
                assert((s + t).skip(len as int) =~= rest + t);
                lemma_scan_append(rest, t);
                assert(spec_scan(s + t).entries =~= spec_scan(s).entries + spec_scan(t).entries);
            },
            _ => {},
        }
    }
}

/// A log cut off where its whole entries end holds those entries and
/// nothing else.
pub proof fn lemma_scan_truncate(s: Seq<u8>)
    ensures
        spec_scan(s).end <= s.len(),
        spec_clean(s.take(spec_scan(s).end as int)),
        spec_scan(s.take(spec_scan(s).end as int)).entries == spec_scan(s).entries,
    decreases s.len(),
{
    lemma_scan_bounds(s);
    let end = spec_scan(s).end as int;
    let cut = s.take(end);
    match spec_decode(s) {
        DecodedView::Entry { entry, len } => {
            if 0 < len <= s.len() {
                let rest = s.skip(len as int);
                lemma_scan_truncate(rest);
                let rest_end = spec_scan(rest).end as int;
                assert(cut.take(len as int) =~= s.take(len as int));
                lemma_decode_same_prefix(s, cut);
                assert(cut.skip(len as int) =~= rest.take(rest_end));
            } else {
                assert(cut =~= Seq::<u8>::empty());
            }
        },
        _ => {
            assert(cut =~= Seq::<u8>::empty());
        },
    }
}

/// One step of a scan: where bytes start with a whole entry, the scan is
/// that entry and then the scan of what follows it.
pub proof fn lemma_scan_step(s: Seq<u8>)
    requires
        spec_decode(s) is Entry,
    ensures
        HEADER_BYTES <= spec_decode(s)->len <= s.len(),
        spec_scan(s).entries.len() > 0,
        spec_scan(s).entries[0] == spec_decode(s)->entry,
        spec_scan(s.skip(spec_decode(s)->len as int)).entries == spec_scan(s).entries.skip(1),
        spec_scan(s).end == spec_decode(s)->len + spec_scan(
            s.skip(spec_decode(s)->len as int),
        ).end,
        spec_scan(s).fault == spec_scan(s.skip(spec_decode(s)->len as int)).fault,
        spec_clean(s) ==> spec_clean(s.skip(spec_decode(s)->len as int)),
{
    lemma_decode_same_prefix(s, s);
    let len = spec_decode(s)->len as int;
    let rest = spec_scan(s.skip(len));
    assert((seq![spec_decode(s)->entry] + rest.entries).skip(1) =~= rest.entries);
}

/// Bytes that start with no whole entry hold no entries.
pub proof fn lemma_scan_stop(s: Seq<u8>)
    requires
        !(spec_decode(s) is Entry),
    ensures
        spec_scan(s).entries.len() == 0,
        spec_scan(s).end == 0,
        spec_clean(s) ==> s.len() == 0,
{
}

/// One more entry written behind whole entries gives whole entries again,
/// with the entry last.
pub proof fn lemma_scan_push(s: Seq<u8>, entry: EntryView)
    requires
        spec_clean(s),
        entry.well_formed(),
    ensures
        spec_clean(s + spec_encode(entry)),
        spec_scan(s + spec_encode(entry)).entries == spec_scan(s).entries.push(entry),
{
    let bytes = spec_encode(entry);
    reveal_with_fuel(spec_scan, 2);
    lemma_encode_decode_round_trip(entry, Seq::<u8>::empty());
    lemma_frame_len(entry.record());
    assert(bytes + Seq::<u8>::empty() =~= bytes);
    assert(bytes.skip(bytes.len() as int) =~= Seq::<u8>::empty());
    assert(spec_scan(bytes).entries =~= seq![entry]);
    lemma_scan_append(s, bytes);
    assert(spec_scan(s).entries + seq![entry] =~= spec_scan(s).entries.push(entry));
}

/// A cursor that stands between two entries of a log stands there still
/// when one more entry is written to the log.
pub proof fn lemma_cursor_keeps_place(s: Seq<u8>, offset: int, index: int, entry: EntryView)
    requires
        spec_clean(s),
        entry.well_formed(),
        0 <= offset <= s.len(),
        0 <= index <= spec_scan(s).entries.len(),
        spec_clean(s.skip(offset)),
        spec_scan(s.skip(offset)).entries == spec_scan(s).entries.skip(index),
    ensures
        spec_clean((s + spec_encode(entry)).skip(offset)),
        spec_scan((s + spec_encode(entry)).skip(offset)).entries == spec_scan(
            s + spec_encode(entry),
        ).entries.skip(index),
        index <= spec_scan(s + spec_encode(entry)).entries.len(),
{
    let bytes = spec_encode(entry);
    lemma_scan_push(s, entry);
    lemma_scan_push(s.skip(offset), entry);
    assert((s + bytes).skip(offset) =~= s.skip(offset) + bytes);
    assert(spec_scan(s).entries.push(entry).skip(index) =~= spec_scan(s).entries.skip(
        index,
    ).push(entry));
}

/// A cursor at the beginning of a log has all of the log ahead of it.
pub proof fn lemma_cursor_at_start(s: Seq<u8>)
    ensures
        s.skip(0) == s,
        spec_scan(s).entries.skip(0) == spec_scan(s).entries,
{
    assert(s.skip(0) =~= s);
    assert(spec_scan(s).entries.skip(0) =~= spec_scan(s).entries);
}

/// The log of entries that can be written is whole entries and nothing
/// else, and reads as those entries.
pub proof fn lemma_scan_log_bytes(entries: Seq<EntryView>)
    requires
        spec_all_well_formed(entries),
    ensures
        spec_clean(spec_log_bytes(entries)),
        spec_scan(spec_log_bytes(entries)).entries == entries,
    decreases entries.len(),
{
    let s = spec_log_bytes(entries);
    if entries.len() == 0 {
        assert(spec_scan(s).entries =~= entries);
    } else {
        let first = entries[0];
        let rest = entries.skip(1);
        assert(first.well_formed());
        assert(spec_all_well_formed(rest)) by {
            assert forall|i: int| 0 <= i < rest.len() implies (#[trigger] rest[i]).well_formed() by {
                assert(rest[i] == entries[i + 1]);
            }
        }
        lemma_scan_log_bytes(rest);
        let tail = spec_log_bytes(rest);
        lemma_encode_decode_round_trip(first, tail);
        lemma_frame_len(first.record());
        let len = spec_encode(first).len();
        assert(s.skip(len as int) =~= tail);
        assert(spec_scan(s).entries =~= entries);
    }
}

/// Crash-tail tolerance. Let a log hold entries that can be written, and
/// let the write of one more entry be cut short anywhere. The log then
/// reads as the entries it held before that write, and the reading meets no
/// fault.
pub proof fn lemma_torn_tail_is_end_of_stream(entries: Seq<EntryView>, last: EntryView, cut: int)
    requires
        spec_all_well_formed(entries),
        last.well_formed(),
        0 <= cut < spec_encode(last).len(),
    ensures
        spec_scan(spec_log_bytes(entries) + spec_encode(last).take(cut)).entries == entries,
        spec_scan(spec_log_bytes(entries) + spec_encode(last).take(cut)).end == spec_log_bytes(
            entries,
        ).len(),
        spec_scan(spec_log_bytes(entries) + spec_encode(last).take(cut)).fault.is_none(),
{
    let torn = spec_encode(last).take(cut);
    lemma_scan_log_bytes(entries);
    lemma_encode_prefix_incomplete(last, cut);
    lemma_scan_append(spec_log_bytes(entries), torn);
    assert(spec_scan(torn).entries =~= Seq::<EntryView>::empty());
    assert(entries + Seq::<EntryView>::empty() =~= entries);
}

/// Where a reader stands in a log: the byte its next entry starts at, and
/// how many entries lie before that byte.
#[derive(Clone, Copy, Debug, PartialEq, Eq, Structural)]
pub struct LogCursor {
    pub offset: usize,
    pub index: usize,
}

/// A journal over the bytes of a log. It appends each entry written to it
/// to the bytes, and reads the bytes back as entries. What owns the journal
/// moves the bytes to and from durable storage.
#[derive(Debug)]
pub struct LogJournal {
    image: Vec<u8>,
    fault: Option<SerializationError>,
    cursor: LogCursor,
    limit: Option<usize>,
}

impl LogJournal {
    #[verifier::type_invariant]
    spec fn well_formed(self) -> bool {
        &&& spec_clean(self.image@)
        &&& self.cursor.offset <= self.image@.len()
        &&& self.cursor.index <= spec_scan(self.image@).entries.len()
        &&& spec_clean(self.image@.skip(self.cursor.offset as int))
        &&& spec_scan(self.image@.skip(self.cursor.offset as int)).entries == spec_scan(
            self.image@,
        ).entries.skip(self.cursor.index as int)
    }

    /// The bytes of the log.
    pub closed spec fn spec_bytes(&self) -> Seq<u8> {
        self.image@
    }

    /// The most bytes the log may take, if it has a limit.
    pub closed spec fn spec_limit(&self) -> Option<usize> {
        self.limit
    }

    /// What stood in storage behind the last whole entry when the log was
    /// opened, where that was no entry at all.
    pub closed spec fn spec_fault(&self) -> Option<SerializationError> {
        self.fault
    }

    /// An empty log.
    pub fn new() -> (journal: LogJournal)
        ensures
            journal.spec_bytes() == Seq::<u8>::empty(),
            journal.stream() == Seq::<EntryView>::empty(),
            journal.position() == 0,
            journal.spec_fault().is_none(),
            journal.spec_limit().is_none(),
    {
        let image: Vec<u8> = Vec::new();
        proof {
            lemma_cursor_at_start(image@);
        }
        LogJournal { image, fault: None, cursor: LogCursor { offset: 0, index: 0 }, limit: None }
    }

    /// Opens the bytes found in storage as a log. The log holds the whole
    /// entries the bytes start with. Bytes behind them that end before an
    /// entry does, as a write cut short leaves them, are dropped; bytes
    /// behind them that are no entry are dropped too, but remembered as a
    /// fault: such a log can be read up to the fault and takes no writes.
    pub fn open(bytes: Vec<u8>, limit: Option<usize>) -> (journal: LogJournal)
        ensures
            journal.stream() == spec_scan(bytes@).entries,
            journal.spec_bytes() == bytes@.take(spec_scan(bytes@).end as int),
            journal.spec_fault() == spec_scan(bytes@).fault,
            journal.spec_limit() == limit,
            journal.position() == 0,
    {
        let mut image = bytes;
        let total = image.len();
        let mut pos: usize = 0;
        let mut fault: Option<SerializationError> = None;
        let ghost mut found: Seq<EntryView> = Seq::empty();
        proof {
            lemma_cursor_at_start(image@);
            assert(found + spec_scan(image@).entries =~= spec_scan(image@).entries);
        }
        loop
            invariant_except_break
                fault.is_none(),
            invariant
                image@ == bytes@,
                image@.len() == total,
                pos <= image@.len(),
                spec_scan(bytes@).entries == found + spec_scan(bytes@.skip(pos as int)).entries,
                spec_scan(bytes@).end == pos + spec_scan(bytes@.skip(pos as int)).end,
                spec_scan(bytes@).fault == spec_scan(bytes@.skip(pos as int)).fault,
            ensures
                image@ == bytes@,
                pos == spec_scan(bytes@).end,
                fault == spec_scan(bytes@).fault,
            decreases image@.len() - pos,
        {
            let ghost here = bytes@.skip(pos as int);
            match JournalEntry::decode(image.as_slice(), pos) {
                Decoded::Entry { entry, len } => {
                    proof {
                        lemma_scan_step(here);
                        assert(len == spec_decode(here)->len);
                        assert(here.skip(len as int) =~= bytes@.skip(pos + len));
                        assert(found.push(entry@) + spec_scan(here).entries.skip(1) =~= found
                            + spec_scan(here).entries);
                        found = found.push(entry@);
                    }
                    pos = pos + len;
                },
                Decoded::Incomplete => {
                    proof {
                        lemma_scan_stop(here);
                    }
                    break ;
                },
                Decoded::Invalid(e) => {
                    proof {
                        lemma_scan_stop(here);
                    }
                    fault = Some(e);
                    break ;
                },
            }
        }
        image.truncate(pos);
        proof {
            lemma_scan_truncate(bytes@);
            assert(image@ =~= bytes@.take(pos as int));
            lemma_cursor_at_start(image@);
        }
        LogJournal { image, fault, cursor: LogCursor { offset: 0, index: 0 }, limit }
    }

    /// The bytes of the log, as they belong in storage: whole entries and
    /// nothing else, which read as the stream of the journal.
    pub fn bytes(&self) -> (bytes: &Vec<u8>)
        ensures
            bytes@ == self.spec_bytes(),
            spec_clean(bytes@),
            spec_scan(bytes@).entries == self.stream(),
    {
        proof {
            use_type_invariant(self);
        }
        &self.image
    }

    /// The bytes that a write of this entry would put behind the log, or
    /// why the write would be refused. Nothing is written: what owns the
    /// journal can put the bytes into storage first, and write the entry
    /// once they are there.
    pub fn frame_for(&self, entry: &JournalEntry) -> (res: Result<Vec<u8>, JournalError>)
        ensures
            match self.refusal(entry@) {
                Some(err) => res == Err::<Vec<u8>, JournalError>(err),
                None => res.is_ok() && res.unwrap()@ == spec_encode(entry@),
            },
    {
        match self.fault {
            Some(e) => {
                return Err(JournalError::Serialization(e));
            },
            None => {},
        }
        let frame = match entry.encode() {
            Err(e) => {
                return Err(JournalError::Serialization(e));
            },
            Ok(frame) => frame,
        };
        let room = match self.limit {
            Some(limit) => if limit >= self.image.len() {
                limit - self.image.len()
            } else {
                0
            },
            None => usize::MAX - self.image.len(),
        };
        if frame.len() > room {
            return Err(JournalError::Storage(StorageError::CapacityExceeded));
        }
        Ok(frame)
    }

    /// The most bytes the log may take, if it has a limit.
    pub fn limit(&self) -> (limit: Option<usize>)
        ensures
            limit == self.spec_limit(),
    {
        self.limit
    }

    /// What stood in storage behind the last whole entry when the log was
    /// opened, where that was no entry at all.
    pub fn damage(&self) -> (fault: Option<SerializationError>)
        ensures
            fault == self.spec_fault(),
    {
        self.fault
    }

    /// How many bytes the log takes. The log holds no more entries than
    /// bytes.
    pub fn len(&self) -> (n: usize)
        ensures
            n == self.spec_bytes().len(),
            self.stream().len() <= n,
    {
        proof {
            use_type_invariant(self);
            lemma_scan_bounds(self.image@);
        }
        self.image.len()
    }
}

impl ReadableJournal for LogJournal {
    closed spec fn stream(&self) -> Seq<EntryView> {
        spec_scan(self.image@).entries
    }

    closed spec fn position(&self) -> nat {
        self.cursor.index as nat
    }

    open spec fn fault(&self) -> Option<JournalError> {
        match self.spec_fault() {
            Some(e) => Some(JournalError::Serialization(e)),
            None => None,
        }
    }

    open spec fn restart_fault(&self) -> Option<JournalError> {
        None
    }

    fn read(&mut self) -> (res: Result<Option<JournalEntry>, JournalError>)
        ensures
            final(self).spec_bytes() == old(self).spec_bytes(),
            final(self).spec_limit() == old(self).spec_limit(),
    {
        proof {
            use_type_invariant(&*self);
        }
        let ghost here = self.image@.skip(self.cursor.offset as int);
        let total = self.image.len();
        match JournalEntry::decode(self.image.as_slice(), self.cursor.offset) {
            Decoded::Entry { entry, len } => {
                proof {
                    lemma_scan_step(here);
                    lemma_scan_bounds(self.image@);
                    assert(len == spec_decode(here)->len);
                    assert(here.skip(len as int) =~= self.image@.skip(self.cursor.offset + len));
                    assert(spec_scan(self.image@).entries.skip(self.cursor.index as int).skip(1)
                        =~= spec_scan(self.image@).entries.skip(self.cursor.index + 1));
                }
                self.cursor = LogCursor {
                    offset: self.cursor.offset + len,
                    index: self.cursor.index + 1,
                };
                Ok(Some(entry))
            },
            _ => {
                proof {
                    lemma_scan_stop(here);
                }
                match self.fault {
                    Some(e) => Err(JournalError::Serialization(e)),
                    None => Ok(None),
                }
            },
        }
    }

    /// A journal over a copy of the bytes this one holds now, with its
    /// cursor at the beginning.
    fn as_restarted(&self) -> (res: Result<Self, JournalError>)
        ensures
            res.unwrap().spec_bytes() == self.spec_bytes(),
            res.unwrap().spec_limit() == self.spec_limit(),
    {
        proof {
            use_type_invariant(self);
        }
        let image = self.image.clone();
        proof {
            assert(image@ =~= self.image@);
            lemma_cursor_at_start(image@);
        }
        Ok(
            LogJournal {
                image,
                fault: self.fault,
                cursor: LogCursor { offset: 0, index: 0 },
                limit: self.limit,
            },
        )
    }
}

impl WritableJournal for LogJournal {
    /// What is written to the journal is what is read from it: the log is
    /// the stream.
    open spec fn log(&self) -> Seq<EntryView> {
        self.stream()
    }

    /// A log that ends in a fault takes no writes. Else an entry that
    /// cannot be written is refused for that, and an entry that would take
    /// the log beyond its limit is refused for that.
    open spec fn refusal(&self, entry: EntryView) -> Option<JournalError> {
        match self.spec_fault() {
            Some(e) => Some(JournalError::Serialization(e)),
            None => if !entry.well_formed() {
                if entry.record().well_formed() {
                    Some(JournalError::Serialization(SerializationError::Malformed))
                } else {
                    Some(JournalError::Serialization(SerializationError::PayloadTooLarge))
                }
            } else {
                match self.spec_limit() {
                    Some(limit) => if self.spec_bytes().len() + spec_encode(entry).len() > limit {
                        Some(JournalError::Storage(StorageError::CapacityExceeded))
                    } else {
                        None
                    },
                    None => if self.spec_bytes().len() + spec_encode(entry).len() > usize::MAX {
                        Some(JournalError::Storage(StorageError::CapacityExceeded))
                    } else {
                        None
                    },
                }
            },
        }
    }

    open spec fn records(&self, entry: EntryView) -> bool {
        true
    }

    fn write(&mut self, entry: JournalEntry) -> (res: Result<(), JournalError>)
        ensures
            final(self).spec_limit() == old(self).spec_limit(),
            final(self).spec_fault() == old(self).spec_fault(),
            final(self).position() == old(self).position(),
            final(self).spec_bytes() == (if res.is_ok() {
                old(self).spec_bytes() + spec_encode(entry@)
            } else {
                old(self).spec_bytes()
            }),
    {
        proof {
            use_type_invariant(&*self);
        }
        match self.fault {
            Some(e) => {
                return Err(JournalError::Serialization(e));
            },
            None => {},
        }
        let mut frame: Vec<u8> = Vec::new();
        match entry.encode_into(&mut frame) {
            Err(e) => {
                return Err(JournalError::Serialization(e));
            },
            Ok(()) => {},
        }
        assert(frame@ =~= spec_encode(entry@));
        let room = match self.limit {
            Some(limit) => if limit >= self.image.len() {
                limit - self.image.len()
            } else {
                0
            },
            None => usize::MAX - self.image.len(),
        };
        if frame.len() > room {
            return Err(JournalError::Storage(StorageError::CapacityExceeded));
        }
        let ghost before = self.image@;
        let cursor = self.cursor;
        proof {
            lemma_cursor_at_start(before);
        }
        self.cursor = LogCursor { offset: 0, index: 0 };
        let mut image: Vec<u8> = Vec::new();
        proof {
            lemma_cursor_at_start(image@);
        }
        std::mem::swap(&mut image, &mut self.image);
        image.append(&mut frame);
        proof {
            lemma_scan_push(before, entry@);
            lemma_cursor_keeps_place(before, cursor.offset as int, cursor.index as int, entry@);
            lemma_cursor_at_start(image@);
        }
        self.image = image;
        self.cursor = cursor;
        Ok(())
    }
}

impl Journal for LogJournal {
    proof fn lemma_stream_is_log(&self) {
    }

    proof fn lemma_records_all(&self, entry: EntryView) {
    }
}

} // verus!
