//! The wire format. One record is one frame:
//!
//! | bytes      | holds                                              |
//! |------------|----------------------------------------------------|
//! | 0..4       | the length of the payload, little-endian           |
//! | 4          | the format version                                 |
//! | 5          | the number of words                                |
//! | 6..8       | the tag, little-endian                             |
//! | 8..8+8w    | the words, little-endian                           |
//! | ..8+length | the bytes                                          |
//!
//! The header says how long the frame is before anything in it has to be
//! understood, so a reader can step over a frame whose tag it does not know,
//! and can tell a frame that was cut short from one that is whole.
use super::entry::{known_tag, EntryView, JournalEntry};
use super::error::SerializationError;
use super::record::{
    lemma_record_round_trip, spec_entry_of, Record, RecordView, MAX_PAYLOAD, MAX_WORDS,
};
use vstd::bytes::{
    lemma_auto_spec_u16_to_from_le_bytes, lemma_auto_spec_u32_to_from_le_bytes,
    lemma_auto_spec_u64_to_from_le_bytes, spec_u16_from_le_bytes, spec_u16_to_le_bytes,
    spec_u32_from_le_bytes, spec_u32_to_le_bytes, spec_u64_from_le_bytes, spec_u64_to_le_bytes,
    u16_from_le_bytes, u16_to_le_bytes, u32_from_le_bytes, u32_to_le_bytes, u64_from_le_bytes,
    u64_to_le_bytes,
};
use vstd::prelude::*;
use vstd::slice::{slice_subrange, slice_to_vec};

verus! {

/// The version of the wire format this code writes and reads.
pub const FORMAT_VERSION: u8 = 1;

/// How many bytes a frame has before its payload.
pub const HEADER_BYTES: usize = 8;

/// What the start of a run of bytes is, read as a frame.
pub enum FrameView {
    /// The bytes end before the frame does.
    Incomplete,
    /// The bytes do not start with a frame this code can read.
    Invalid(SerializationError),
    /// The bytes start with a whole frame, `len` bytes long.
    Complete { record: RecordView, len: nat },
}

/// What the start of a run of bytes is, read as a frame.
#[derive(Debug, PartialEq, Eq)]
pub enum Frame {
    /// The bytes end before the frame does.
    Incomplete,
    /// The bytes do not start with a frame this code can read.
    Invalid(SerializationError),
    /// The bytes start with a whole frame, `len` bytes long.
    Complete { record: Record, len: usize },
}

/// What the start of a run of bytes is, read as an entry.
pub enum DecodedView {
    /// The bytes end before the entry does.
    Incomplete,
    /// The bytes do not start with an entry this code can read.
    Invalid(SerializationError),
    /// The bytes start with a whole entry, `len` bytes long.
    Entry { entry: EntryView, len: nat },
}

/// What the start of a run of bytes is, read as an entry.
#[derive(Debug, PartialEq, Eq)]
pub enum Decoded {
    /// The bytes end before the entry does.
    Incomplete,
    /// The bytes do not start with an entry this code can read.
    Invalid(SerializationError),
    /// The bytes start with a whole entry, `len` bytes long.
    Entry { entry: JournalEntry, len: usize },
}

impl View for Frame {
    type V = FrameView;

    open spec fn view(&self) -> FrameView {
        match *self {
            Frame::Incomplete => FrameView::Incomplete,
            Frame::Invalid(e) => FrameView::Invalid(e),
            Frame::Complete { record, len } => FrameView::Complete {
                record: record@,
                len: len as nat,
            },
        }
    }
}

impl View for Decoded {
    type V = DecodedView;

    open spec fn view(&self) -> DecodedView {
        match *self {
            Decoded::Incomplete => DecodedView::Incomplete,
            Decoded::Invalid(e) => DecodedView::Invalid(e),
            Decoded::Entry { entry, len } => DecodedView::Entry { entry: entry@, len: len as nat },
        }
    }
}

/// The words of a record on the wire: eight bytes each, little-endian.
pub open spec fn spec_words_bytes(words: Seq<u64>) -> Seq<u8>
    decreases words.len(),
{
    if words.len() == 0 {
        Seq::empty()
    } else {
        spec_words_bytes(words.drop_last()) + spec_u64_to_le_bytes(words.last())
    }
}

/// The words that stand in a run of bytes, eight bytes each.
pub open spec fn spec_words_of(bytes: Seq<u8>, count: nat) -> Seq<u64> {
    Seq::new(count, |i: int| spec_u64_from_le_bytes(bytes.subrange(8 * i, 8 * i + 8)))
}

/// The header of the frame of a record.
pub open spec fn spec_header(r: RecordView) -> Seq<u8> {
    spec_u32_to_le_bytes(r.payload_len() as u32) + seq![FORMAT_VERSION, r.words.len() as u8]
        + spec_u16_to_le_bytes(r.tag)
}

/// The frame of a record: header, words, bytes.
pub open spec fn spec_frame(r: RecordView) -> Seq<u8> {
    spec_header(r) + spec_words_bytes(r.words) + r.data
}

/// Reads the start of a run of bytes as a frame.
pub open spec fn spec_parse_frame(s: Seq<u8>) -> FrameView {
    if s.len() < HEADER_BYTES {
        FrameView::Incomplete
    } else if s[4] != FORMAT_VERSION {
        FrameView::Invalid(SerializationError::UnsupportedVersion { version: s[4] })
    } else {
        let n = spec_u32_from_le_bytes(s.subrange(0, 4)) as int;
        let count = s[5] as int;
        if s.len() < HEADER_BYTES + n {
            FrameView::Incomplete
        } else if 8 * count > n {
            FrameView::Invalid(SerializationError::Malformed)
        } else {
            FrameView::Complete {
                record: RecordView {
                    tag: spec_u16_from_le_bytes(s.subrange(6, 8)),
                    words: spec_words_of(s.subrange(8, 8 + 8 * count), count as nat),
                    data: s.subrange(8 + 8 * count, 8 + n),
                },
                len: (HEADER_BYTES + n) as nat,
            }
        }
    }
}

/// The bytes an entry is written as.
pub open spec fn spec_encode(e: EntryView) -> Seq<u8> {
    spec_frame(e.record())
}

/// Reads the start of a run of bytes as an entry.
pub open spec fn spec_decode(s: Seq<u8>) -> DecodedView {
    match spec_parse_frame(s) {
        FrameView::Incomplete => DecodedView::Incomplete,
        FrameView::Invalid(e) => DecodedView::Invalid(e),
        FrameView::Complete { record, len } => match spec_entry_of(record) {
            Ok(entry) => DecodedView::Entry { entry, len },
            Err(e) => DecodedView::Invalid(e),
        },
    }
}

/// Words take eight bytes each.
pub proof fn lemma_words_bytes_len(words: Seq<u64>)
    ensures
        spec_words_bytes(words).len() == 8 * words.len(),
    decreases words.len(),
{
    lemma_auto_spec_u64_to_from_le_bytes();
    if words.len() > 0 {
        lemma_words_bytes_len(words.drop_last());
    }
}

/// One more word on the wire is eight more bytes at the end.
pub proof fn lemma_words_bytes_push(words: Seq<u64>, word: u64)
    ensures
        spec_words_bytes(words.push(word)) == spec_words_bytes(words) + spec_u64_to_le_bytes(word),
{
    assert(words.push(word).drop_last() =~= words);
}

/// Words survive the trip through their bytes.
pub proof fn lemma_words_round_trip(words: Seq<u64>)
    ensures
        spec_words_of(spec_words_bytes(words), words.len()) == words,
    decreases words.len(),
{
    lemma_auto_spec_u64_to_from_le_bytes();
    let bytes = spec_words_bytes(words);
    lemma_words_bytes_len(words);
    if words.len() > 0 {
        let front = words.drop_last();
        lemma_words_round_trip(front);
        lemma_words_bytes_len(front);
        let front_bytes = spec_words_bytes(front);
        assert forall|i: int| 0 <= i < words.len() implies spec_words_of(bytes, words.len())[i]
            == words[i] by {
            if i < front.len() {
                assert(bytes.subrange(8 * i, 8 * i + 8) =~= front_bytes.subrange(8 * i, 8 * i + 8));
                assert(spec_words_of(front_bytes, front.len())[i] == front[i]);
            } else {
                assert(bytes.subrange(8 * i, 8 * i + 8) =~= spec_u64_to_le_bytes(words.last()));
            }
        }
    }
    assert(spec_words_of(bytes, words.len()) =~= words);
}

/// The frame of a record is its header and its payload, and nothing else.
pub proof fn lemma_frame_len(r: RecordView)
    ensures
        spec_header(r).len() == HEADER_BYTES,
        spec_frame(r).len() == HEADER_BYTES + r.payload_len(),
{
    lemma_auto_spec_u16_to_from_le_bytes();
    lemma_auto_spec_u32_to_from_le_bytes();
    lemma_words_bytes_len(r.words);
}

/// What stands in the header of the frame of a record that fits the format.
pub proof fn lemma_header_fields(r: RecordView, s: Seq<u8>)
    requires
        r.well_formed(),
        s.len() >= HEADER_BYTES,
        s.subrange(0, HEADER_BYTES as int) == spec_header(r),
    ensures
        spec_u32_from_le_bytes(s.subrange(0, 4)) == r.payload_len(),
        s[4] == FORMAT_VERSION,
        s[5] == r.words.len(),
        spec_u16_from_le_bytes(s.subrange(6, 8)) == r.tag,
{
    lemma_auto_spec_u16_to_from_le_bytes();
    lemma_auto_spec_u32_to_from_le_bytes();
    let h = spec_header(r);
    let front = s.subrange(0, HEADER_BYTES as int);
    assert(s.subrange(0, 4) =~= front.subrange(0, 4));
    assert(s.subrange(6, 8) =~= front.subrange(6, 8));
    assert(s[4] == front[4]);
    assert(s[5] == front[5]);
    assert(h.subrange(0, 4) =~= spec_u32_to_le_bytes(r.payload_len() as u32));
    assert(h.subrange(6, 8) =~= spec_u16_to_le_bytes(r.tag));
    assert(h[4] == FORMAT_VERSION);
    assert(h[5] == r.words.len() as u8);
}

/// A record that fits the format is read back from its frame, whatever
/// follows the frame.
pub proof fn lemma_frame_round_trip(r: RecordView, rest: Seq<u8>)
    requires
        r.well_formed(),
    ensures
        spec_parse_frame(spec_frame(r) + rest) == (FrameView::Complete {
            record: r,
            len: spec_frame(r).len(),
        }),
{
    let frame = spec_frame(r);
    let s = frame + rest;
    let count = r.words.len() as int;
    let n = r.payload_len() as int;
    lemma_frame_len(r);
    lemma_words_bytes_len(r.words);
    lemma_words_round_trip(r.words);
    assert(s.subrange(0, HEADER_BYTES as int) =~= spec_header(r));
    lemma_header_fields(r, s);
    assert(s.subrange(8, 8 + 8 * count) =~= spec_words_bytes(r.words));
    assert(s.subrange(8 + 8 * count, 8 + n) =~= r.data);
}

/// A frame that was cut short anywhere reads as incomplete, never as
/// invalid and never as another frame.
pub proof fn lemma_frame_prefix_incomplete(r: RecordView, k: int)
    requires
        r.well_formed(),
        0 <= k < spec_frame(r).len(),
    ensures
        spec_parse_frame(spec_frame(r).take(k)) == FrameView::Incomplete,
{
    let frame = spec_frame(r);
    let s = frame.take(k);
    lemma_frame_len(r);
    if k >= HEADER_BYTES {
        assert(s.subrange(0, HEADER_BYTES as int) =~= spec_header(r));
        lemma_header_fields(r, s);
    }
}

/// Round trip: an entry that can be written is read back from its bytes as
/// it was, whatever follows them.
pub proof fn lemma_encode_decode_round_trip(e: EntryView, rest: Seq<u8>)
    requires
        e.well_formed(),
    ensures
        spec_decode(spec_encode(e) + rest) == (DecodedView::Entry {
            entry: e,
            len: spec_encode(e).len(),
        }),
{
    lemma_frame_round_trip(e.record(), rest);
    lemma_record_round_trip(e);
}

/// An entry that was cut short anywhere reads as incomplete.
pub proof fn lemma_encode_prefix_incomplete(e: EntryView, k: int)
    requires
        e.well_formed(),
        0 <= k < spec_encode(e).len(),
    ensures
        spec_decode(spec_encode(e).take(k)) == DecodedView::Incomplete,
{
    lemma_frame_prefix_incomplete(e.record(), k);
}

/// Appends bytes to a buffer.
pub fn extend_bytes(out: &mut Vec<u8>, bytes: &[u8])
    ensures
        final(out)@ == old(out)@ + bytes@,
{
    out.extend_from_slice(bytes);
    assert(out@ =~= old(out)@ + bytes@);
}

/// Appends the frame of a record to a buffer. A record that does not fit
/// the format is refused and the buffer is left as it was.
pub fn encode_record(r: &Record, out: &mut Vec<u8>) -> (res: Result<(), SerializationError>)
    ensures
        match res {
            Ok(()) => r@.well_formed() && final(out)@ == old(out)@ + spec_frame(r@),
            Err(e) => !r@.well_formed() && e == SerializationError::PayloadTooLarge && final(out)@
                == old(out)@,
        },
{
    let count = r.words.len();
    if count > MAX_WORDS {
        return Err(SerializationError::PayloadTooLarge);
    }
    let words_len: u64 = 8 * (count as u64);
    let data_len = r.data.len();
    if data_len as u64 > MAX_PAYLOAD - words_len {
        return Err(SerializationError::PayloadTooLarge);
    }
    let n: u32 = (words_len + data_len as u64) as u32;
    let mut length_bytes = u32_to_le_bytes(n);
    let mut tag_bytes = u16_to_le_bytes(r.tag);
    out.append(&mut length_bytes);
    out.push(FORMAT_VERSION);
    out.push(count as u8);
    out.append(&mut tag_bytes);
    assert(out@ =~= old(out)@ + spec_header(r@));
    let mut i: usize = 0;
    while i < count
        invariant
            i <= count,
            count == r.words@.len(),
            out@ == old(out)@ + spec_header(r@) + spec_words_bytes(r.words@.take(i as int)),
        decreases count - i,
    {
        let mut word_bytes = u64_to_le_bytes(r.words[i]);
        proof {
            lemma_words_bytes_push(r.words@.take(i as int), r.words@[i as int]);
            assert(r.words@.take(i as int).push(r.words@[i as int]) =~= r.words@.take(i + 1));
        }
        out.append(&mut word_bytes);
        i = i + 1;
        assert(out@ =~= old(out)@ + spec_header(r@) + spec_words_bytes(r.words@.take(i as int)));
    }
    assert(r.words@.take(count as int) =~= r.words@);
    extend_bytes(out, r.data.as_slice());
    assert(out@ =~= old(out)@ + spec_frame(r@));
    Ok(())
}

/// Reads what starts at `pos` as a frame.
pub fn decode_frame(buf: &[u8], pos: usize) -> (frame: Frame)
    requires
        pos <= buf@.len(),
    ensures
        frame@ == spec_parse_frame(buf@.skip(pos as int)),
{
    let ghost s = buf@.skip(pos as int);
    let left = buf.len() - pos;
    if left < HEADER_BYTES {
        return Frame::Incomplete;
    }
    let version = buf[pos + 4];
    assert(version == s[4]);
    if version != FORMAT_VERSION {
        return Frame::Invalid(SerializationError::UnsupportedVersion { version });
    }
    let n = u32_from_le_bytes(slice_subrange(buf, pos, pos + 4));
    assert(buf@.subrange(pos as int, pos + 4) =~= s.subrange(0, 4));
    let count = buf[pos + 5] as usize;
    assert(count == s[5]);
    if ((left - HEADER_BYTES) as u64) < n as u64 {
        return Frame::Incomplete;
    }
    if 8 * (count as u64) > n as u64 {
        return Frame::Invalid(SerializationError::Malformed);
    }
    let tag = u16_from_le_bytes(slice_subrange(buf, pos + 6, pos + 8));
    assert(buf@.subrange(pos + 6, pos + 8) =~= s.subrange(6, 8));
    let base = pos + HEADER_BYTES;
    let ghost word_bytes = s.subrange(8, 8 + 8 * count);
    let mut words: Vec<u64> = Vec::new();
    let mut i: usize = 0;
    while i < count
        invariant
            i <= count,
            count <= 255,
            base == pos + HEADER_BYTES,
            base + 8 * count <= buf@.len(),
            buf@.len() <= usize::MAX,
            s == buf@.skip(pos as int),
            word_bytes == s.subrange(8, 8 + 8 * count),
            words@ == spec_words_of(word_bytes, count as nat).take(i as int),
        decreases count - i,
    {
        let at = base + 8 * i;
        let word = u64_from_le_bytes(slice_subrange(buf, at, at + 8));
        assert(buf@.subrange(at as int, at + 8) =~= word_bytes.subrange(8 * i, 8 * i + 8));
        words.push(word);
        i = i + 1;
        assert(words@ =~= spec_words_of(word_bytes, count as nat).take(i as int));
    }
    assert(words@ =~= spec_words_of(word_bytes, count as nat));
    let start = base + 8 * count;
    let end = base + n as usize;
    let data = slice_to_vec(slice_subrange(buf, start, end));
    assert(data@ =~= s.subrange(8 + 8 * count, 8 + n));
    Frame::Complete { record: Record { tag, words, data }, len: HEADER_BYTES + n as usize }
}

impl JournalEntry {
    /// Whether the entry can be written and read back.
    pub fn encodable(&self) -> (ok: bool)
        ensures
            ok == self@.well_formed(),
    {
        broadcast use vstd::array::group_array_axioms;

        let payload: usize = match self {
            JournalEntry::MemorySnapshot { data, .. } => data.len(),
            JournalEntry::MemoryDiff { data, .. } => data.len(),
            JournalEntry::OpenFileDescriptor { path, .. } => path.len(),
            JournalEntry::FileDescriptorRead { data, .. } => data.len(),
            JournalEntry::FileDescriptorWrite { data, .. } => data.len(),
            JournalEntry::SocketBind { .. } => 19,
            JournalEntry::SocketConnect { .. } => 19,
            JournalEntry::SocketAccept { .. } => 19,
            JournalEntry::SocketSend { data, .. } => data.len(),
            JournalEntry::SocketReceive { data, .. } => data.len(),
            JournalEntry::Random { data } => data.len(),
            JournalEntry::Environment { data } => data.len(),
            JournalEntry::Arguments { data } => data.len(),
            JournalEntry::Unknown { data, .. } => data.len(),
            _ => 0,
        };
        let count: usize = match self {
            JournalEntry::Unknown { words, .. } => words.len(),
            _ => 4,
        };
        assert(self@.payload().len() == payload);
        assert(!(self is Unknown) ==> self@.words().len() <= 4);
        match self {
            JournalEntry::Unknown { tag, words, data } => {
                !known_tag(*tag) && words.len() <= MAX_WORDS && data.len() as u64 <= MAX_PAYLOAD
                    - 8 * (words.len() as u64)
            },
            JournalEntry::CheckpointBegin | JournalEntry::CheckpointEnd => true,
            JournalEntry::MemorySnapshot { .. } | JournalEntry::MemoryDiff { .. } => {
                payload as u64 <= MAX_PAYLOAD - 8
            },
            JournalEntry::OpenFileDescriptor { .. } => payload as u64 <= MAX_PAYLOAD - 32,
            JournalEntry::FileDescriptorRead { .. } | JournalEntry::FileDescriptorWrite { .. } => {
                payload as u64 <= MAX_PAYLOAD - 8
            },
            JournalEntry::SocketSend { .. } | JournalEntry::SocketReceive { .. } => {
                payload as u64 <= MAX_PAYLOAD - 16
            },
            JournalEntry::Random { .. }
            | JournalEntry::Environment { .. }
            | JournalEntry::Arguments { .. } => payload as u64 <= MAX_PAYLOAD,
            _ => true,
        }
    }

    /// Appends the bytes of the entry to a buffer. An entry that cannot be
    /// written is refused and the buffer is left as it was: one whose record
    /// does not fit the format as too large, one of unknown kind under a
    /// known tag as malformed.
    pub fn encode_into(self, out: &mut Vec<u8>) -> (res: Result<(), SerializationError>)
        ensures
            match res {
                Ok(()) => self@.well_formed() && final(out)@ == old(out)@ + spec_encode(self@),
                Err(e) => !self@.well_formed() && final(out)@ == old(out)@ && e == (if
                    self@.record().well_formed() {
                    SerializationError::Malformed
                } else {
                    SerializationError::PayloadTooLarge
                }),
            },
    {
        broadcast use vstd::array::group_array_axioms;

        let misplaced = match &self {
            JournalEntry::Unknown { tag, .. } => known_tag(*tag),
            _ => false,
        };
        let record = self.into_record();
        if misplaced {
            let words_fit = record.words.len() <= MAX_WORDS;
            if words_fit && record.data.len() as u64 <= MAX_PAYLOAD - 8 * (
            record.words.len() as u64) {
                return Err(SerializationError::Malformed);
            } else {
                return Err(SerializationError::PayloadTooLarge);
            }
        }
        encode_record(&record, out)
    }

    /// The bytes of the entry, or why it cannot be written.
    pub fn encode(&self) -> (res: Result<Vec<u8>, SerializationError>)
        ensures
            match res {
                Ok(bytes) => self@.well_formed() && bytes@ == spec_encode(self@),
                Err(e) => !self@.well_formed() && e == (if self@.record().well_formed() {
                    SerializationError::Malformed
                } else {
                    SerializationError::PayloadTooLarge
                }),
            },
    {
        let mut out: Vec<u8> = Vec::new();
        match self.clone().encode_into(&mut out) {
            Ok(()) => {
                assert(out@ =~= spec_encode(self@));
                Ok(out)
            },
            Err(e) => Err(e),
        }
    }

    /// Reads what starts at `pos` as an entry. A frame under a tag this
    /// version does not know is an entry of unknown kind, not an error.
    pub fn decode(buf: &[u8], pos: usize) -> (decoded: Decoded)
        requires
            pos <= buf@.len(),
        ensures
            decoded@ == spec_decode(buf@.skip(pos as int)),
    {
        match decode_frame(buf, pos) {
            Frame::Incomplete => Decoded::Incomplete,
            Frame::Invalid(e) => Decoded::Invalid(e),
            Frame::Complete { record, len } => match JournalEntry::from_record(record) {
                Ok(entry) => Decoded::Entry { entry, len },
                Err(e) => Decoded::Invalid(e),
            },
        }
    }
}

} // verus!
