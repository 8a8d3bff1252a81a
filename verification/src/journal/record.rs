//! Records: what an entry is on the way to and from the wire. A record is a
//! tag, a short run of 64-bit words and one run of bytes. Each known kind of
//! entry lays its numbers out in the words and its one buffer in the bytes;
//! a record under any other tag is kept as it is.
use super::entry::{
    spec_known_tag, EntryView, JournalEntry, SocketAddressView, Whence,
    TAG_ARGUMENTS, TAG_CHECKPOINT_BEGIN, TAG_CHECKPOINT_END, TAG_CLOCK_TIME,
    TAG_CLOSE_FILE_DESCRIPTOR, TAG_ENVIRONMENT, TAG_FILE_DESCRIPTOR_READ,
    TAG_FILE_DESCRIPTOR_WRITE, TAG_MEMORY_DIFF, TAG_MEMORY_SNAPSHOT, TAG_OPEN_FILE_DESCRIPTOR,
    TAG_PROCESS_EXIT, TAG_RANDOM, TAG_SEEK_FILE_DESCRIPTOR, TAG_SET_FILE_DESCRIPTOR_FLAGS,
    TAG_SET_FILE_DESCRIPTOR_RIGHTS, TAG_SIGNAL, TAG_SOCKET_ACCEPT, TAG_SOCKET_BIND,
    TAG_SOCKET_CONNECT, TAG_SOCKET_LISTEN, TAG_SOCKET_RECEIVE, TAG_SOCKET_SEND,
    TAG_SOCKET_SHUTDOWN, TAG_THREAD_EXIT, TAG_THREAD_SPAWN,
};
use super::error::SerializationError;
use crate::wasi_types::{Addressfamily, __wasi_addr_port_t, __wasi_addr_port_u};
use vstd::prelude::*;

verus! {

/// The most words one record can carry.
pub const MAX_WORDS: usize = 255;

/// The most bytes the words and the buffer of one record can take together.
pub const MAX_PAYLOAD: u64 = 0xffff_ffff;

/// How many bytes a socket address takes in a record.
pub const ADDRESS_BYTES: usize = 19;

/// An entry on the way to or from the wire.
#[derive(Debug, PartialEq, Eq)]
pub struct Record {
    pub tag: u16,
    pub words: Vec<u64>,
    pub data: Vec<u8>,
}

/// What a record means.
pub struct RecordView {
    pub tag: u16,
    pub words: Seq<u64>,
    pub data: Seq<u8>,
}

impl View for Record {
    type V = RecordView;

    open spec fn view(&self) -> RecordView {
        RecordView { tag: self.tag, words: self.words@, data: self.data@ }
    }
}

impl RecordView {
    /// How many bytes the words and the buffer take together.
    pub open spec fn payload_len(self) -> nat {
        8 * self.words.len() + self.data.len()
    }

    /// Whether the record fits the wire format.
    pub open spec fn well_formed(self) -> bool {
        &&& self.words.len() <= MAX_WORDS
        &&& self.payload_len() <= MAX_PAYLOAD
    }
}

/// The word that says whether an offset is negative.
pub open spec fn spec_offset_sign(offset: i64) -> u64 {
    if offset < 0 {
        1
    } else {
        0
    }
}

/// The word that holds the distance of an offset from zero.
pub open spec fn spec_offset_magnitude(offset: i64) -> u64 {
    if offset < 0 {
        (-(offset as int)) as u64
    } else {
        offset as u64
    }
}

/// The offset that a sign and a magnitude stand for, if they stand for one.
pub open spec fn spec_offset_of(sign: u64, magnitude: u64) -> Option<i64> {
    if sign == 0 && magnitude <= i64::MAX as u64 {
        Some(magnitude as i64)
    } else if sign == 1 && 1 <= magnitude <= 0x8000_0000_0000_0000u64 {
        Some((-(magnitude as int)) as i64)
    } else {
        None
    }
}

/// The bytes of a socket address: the family, then the octets.
pub open spec fn spec_address_bytes(addr: SocketAddressView) -> Seq<u8> {
    seq![addr.family.spec_raw()] + addr.octets
}

/// The socket address that bytes stand for, if they stand for one.
pub open spec fn spec_address_of(bytes: Seq<u8>) -> Option<SocketAddressView> {
    if bytes.len() == ADDRESS_BYTES {
        match Addressfamily::spec_from_raw(bytes[0]) {
            Some(family) => Some(
                SocketAddressView { family, octets: bytes.subrange(1, ADDRESS_BYTES as int) },
            ),
            None => None,
        }
    } else {
        None
    }
}

impl EntryView {
    /// The numbers of an entry, as the words of its record.
    pub open spec fn words(self) -> Seq<u64> {
        match self {
            EntryView::CheckpointBegin => seq![],
            EntryView::CheckpointEnd => seq![],
            EntryView::MemorySnapshot { offset, .. } => seq![offset],
            EntryView::MemoryDiff { offset, .. } => seq![offset],
            EntryView::OpenFileDescriptor { fd, rights_base, rights_inheriting, flags, .. } => {
                seq![fd as u64, rights_base, rights_inheriting, flags as u64]
            },
            EntryView::CloseFileDescriptor { fd } => seq![fd as u64],
            EntryView::SeekFileDescriptor { fd, offset, whence } => seq![
                fd as u64,
                whence.spec_raw() as u64,
                spec_offset_sign(offset),
                spec_offset_magnitude(offset),
            ],
            EntryView::SetFileDescriptorRights { fd, rights_base, rights_inheriting } => seq![
                fd as u64,
                rights_base,
                rights_inheriting,
            ],
            EntryView::SetFileDescriptorFlags { fd, flags } => seq![fd as u64, flags as u64],
            EntryView::FileDescriptorRead { fd, .. } => seq![fd as u64],
            EntryView::FileDescriptorWrite { fd, .. } => seq![fd as u64],
            EntryView::SocketBind { fd, .. } => seq![fd as u64],
            EntryView::SocketConnect { fd, .. } => seq![fd as u64],
            EntryView::SocketListen { fd, backlog } => seq![fd as u64, backlog as u64],
            EntryView::SocketAccept { listen_fd, fd, .. } => seq![listen_fd as u64, fd as u64],
            EntryView::SocketSend { fd, flags, .. } => seq![fd as u64, flags as u64],
            EntryView::SocketReceive { fd, flags, .. } => seq![fd as u64, flags as u64],
            EntryView::SocketShutdown { fd, how } => seq![fd as u64, how as u64],
            EntryView::ThreadSpawn { tid } => seq![tid as u64],
            EntryView::ThreadExit { tid, exit_code } => seq![tid as u64, exit_code as u64],
            EntryView::ProcessExit { exit_code } => seq![exit_code as u64],
            EntryView::Signal { signal } => seq![signal as u64],
            EntryView::ClockTime { clock_id, time } => seq![clock_id as u64, time],
            EntryView::Random { .. } => seq![],
            EntryView::Environment { .. } => seq![],
            EntryView::Arguments { .. } => seq![],
            EntryView::Unknown { words, .. } => words,
        }
    }

    /// The one buffer of an entry, as the bytes of its record.
    pub open spec fn payload(self) -> Seq<u8> {
        match self {
            EntryView::MemorySnapshot { data, .. } => data,
            EntryView::MemoryDiff { data, .. } => data,
            EntryView::OpenFileDescriptor { path, .. } => path,
            EntryView::FileDescriptorRead { data, .. } => data,
            EntryView::FileDescriptorWrite { data, .. } => data,
            EntryView::SocketBind { addr, .. } => spec_address_bytes(addr),
            EntryView::SocketConnect { addr, .. } => spec_address_bytes(addr),
            EntryView::SocketAccept { peer, .. } => spec_address_bytes(peer),
            EntryView::SocketSend { data, .. } => data,
            EntryView::SocketReceive { data, .. } => data,
            EntryView::Random { data } => data,
            EntryView::Environment { data } => data,
            EntryView::Arguments { data } => data,
            EntryView::Unknown { data, .. } => data,
            _ => seq![],
        }
    }

    /// The record an entry is written as.
    pub open spec fn record(self) -> RecordView {
        RecordView { tag: self.tag(), words: self.words(), data: self.payload() }
    }

    /// Whether every socket address in the entry has its eighteen octets.
    pub open spec fn addresses_whole(self) -> bool {
        match self {
            EntryView::SocketBind { addr, .. } => addr.octets.len() == 18,
            EntryView::SocketConnect { addr, .. } => addr.octets.len() == 18,
            EntryView::SocketAccept { peer, .. } => peer.octets.len() == 18,
            _ => true,
        }
    }

    /// Whether the entry can be written and read back: its record fits the
    /// wire format, and an entry of unknown kind does not sit under a tag
    /// that stands for a known one.
    pub open spec fn well_formed(self) -> bool {
        &&& self.record().well_formed()
        &&& self.addresses_whole()
        &&& self is Unknown ==> !spec_known_tag(self.tag())
    }
}

/// The entry a record stands for. A record under a known tag must hold
/// exactly the fields of that kind; a record under any other tag stands for
/// an entry of unknown kind.
pub open spec fn spec_entry_of(r: RecordView) -> Result<EntryView, SerializationError> {
    let w = r.words;
    let d = r.data;
    let bad = Err::<EntryView, SerializationError>(SerializationError::Malformed);
    if r.tag == TAG_CHECKPOINT_BEGIN {
        if w.len() == 0 && d.len() == 0 {
            Ok(EntryView::CheckpointBegin)
        } else {
            bad
        }
    } else if r.tag == TAG_CHECKPOINT_END {
        if w.len() == 0 && d.len() == 0 {
            Ok(EntryView::CheckpointEnd)
        } else {
            bad
        }
    } else if r.tag == TAG_MEMORY_SNAPSHOT {
        if w.len() == 1 {
            Ok(EntryView::MemorySnapshot { offset: w[0], data: d })
        } else {
            bad
        }
    } else if r.tag == TAG_MEMORY_DIFF {
        if w.len() == 1 {
            Ok(EntryView::MemoryDiff { offset: w[0], data: d })
        } else {
            bad
        }
    } else if r.tag == TAG_OPEN_FILE_DESCRIPTOR {
        if w.len() == 4 && w[0] <= u32::MAX && w[3] <= u16::MAX {
            Ok(
                EntryView::OpenFileDescriptor {
                    fd: w[0] as u32,
                    path: d,
                    rights_base: w[1],
                    rights_inheriting: w[2],
                    flags: w[3] as u16,
                },
            )
        } else {
            bad
        }
    } else if r.tag == TAG_CLOSE_FILE_DESCRIPTOR {
        if w.len() == 1 && w[0] <= u32::MAX && d.len() == 0 {
            Ok(EntryView::CloseFileDescriptor { fd: w[0] as u32 })
        } else {
            bad
        }
    } else if r.tag == TAG_SEEK_FILE_DESCRIPTOR {
        if w.len() == 4 && w[0] <= u32::MAX && d.len() == 0 {
            match (Whence::spec_from_raw(w[1]), spec_offset_of(w[2], w[3])) {
                (Some(whence), Some(offset)) => Ok(
                    EntryView::SeekFileDescriptor { fd: w[0] as u32, offset, whence },
                ),
                _ => bad,
            }
        } else {
            bad
        }
    } else if r.tag == TAG_SET_FILE_DESCRIPTOR_RIGHTS {
        if w.len() == 3 && w[0] <= u32::MAX && d.len() == 0 {
            Ok(
                EntryView::SetFileDescriptorRights {
                    fd: w[0] as u32,
                    rights_base: w[1],
                    rights_inheriting: w[2],
                },
            )
        } else {
            bad
        }
    } else if r.tag == TAG_SET_FILE_DESCRIPTOR_FLAGS {
        if w.len() == 2 && w[0] <= u32::MAX && w[1] <= u16::MAX && d.len() == 0 {
            Ok(EntryView::SetFileDescriptorFlags { fd: w[0] as u32, flags: w[1] as u16 })
        } else {
            bad
        }
    } else if r.tag == TAG_FILE_DESCRIPTOR_READ {
        if w.len() == 1 && w[0] <= u32::MAX {
            Ok(EntryView::FileDescriptorRead { fd: w[0] as u32, data: d })
        } else {
            bad
        }
    } else if r.tag == TAG_FILE_DESCRIPTOR_WRITE {
        if w.len() == 1 && w[0] <= u32::MAX {
            Ok(EntryView::FileDescriptorWrite { fd: w[0] as u32, data: d })
        } else {
            bad
        }
    } else if r.tag == TAG_SOCKET_BIND {
        if w.len() == 1 && w[0] <= u32::MAX {
            match spec_address_of(d) {
                Some(addr) => Ok(EntryView::SocketBind { fd: w[0] as u32, addr }),
                None => bad,
            }
        } else {
            bad
        }
    } else if r.tag == TAG_SOCKET_CONNECT {
        if w.len() == 1 && w[0] <= u32::MAX {
            match spec_address_of(d) {
                Some(addr) => Ok(EntryView::SocketConnect { fd: w[0] as u32, addr }),
                None => bad,
            }
        } else {
            bad
        }
    } else if r.tag == TAG_SOCKET_LISTEN {
        if w.len() == 2 && w[0] <= u32::MAX && w[1] <= u32::MAX && d.len() == 0 {
            Ok(EntryView::SocketListen { fd: w[0] as u32, backlog: w[1] as u32 })
        } else {
            bad
        }
    } else if r.tag == TAG_SOCKET_ACCEPT {
        if w.len() == 2 && w[0] <= u32::MAX && w[1] <= u32::MAX {
            match spec_address_of(d) {
                Some(peer) => Ok(
                    EntryView::SocketAccept { listen_fd: w[0] as u32, fd: w[1] as u32, peer },
                ),
                None => bad,
            }
        } else {
            bad
        }
    } else if r.tag == TAG_SOCKET_SEND {
        if w.len() == 2 && w[0] <= u32::MAX && w[1] <= u16::MAX {
            Ok(EntryView::SocketSend { fd: w[0] as u32, data: d, flags: w[1] as u16 })
        } else {
            bad
        }
    } else if r.tag == TAG_SOCKET_RECEIVE {
        if w.len() == 2 && w[0] <= u32::MAX && w[1] <= u16::MAX {
            Ok(EntryView::SocketReceive { fd: w[0] as u32, data: d, flags: w[1] as u16 })
        } else {
            bad
        }
    } else if r.tag == TAG_SOCKET_SHUTDOWN {
        if w.len() == 2 && w[0] <= u32::MAX && w[1] <= u8::MAX && d.len() == 0 {
            Ok(EntryView::SocketShutdown { fd: w[0] as u32, how: w[1] as u8 })
        } else {
            bad
        }
    } else if r.tag == TAG_THREAD_SPAWN {
        if w.len() == 1 && w[0] <= u32::MAX && d.len() == 0 {
            Ok(EntryView::ThreadSpawn { tid: w[0] as u32 })
        } else {
            bad
        }
    } else if r.tag == TAG_THREAD_EXIT {
        if w.len() == 2 && w[0] <= u32::MAX && w[1] <= u32::MAX && d.len() == 0 {
            Ok(EntryView::ThreadExit { tid: w[0] as u32, exit_code: w[1] as u32 })
        } else {
            bad
        }
    } else if r.tag == TAG_PROCESS_EXIT {
        if w.len() == 1 && w[0] <= u32::MAX && d.len() == 0 {
            Ok(EntryView::ProcessExit { exit_code: w[0] as u32 })
        } else {
            bad
        }
    } else if r.tag == TAG_SIGNAL {
        if w.len() == 1 && w[0] <= u8::MAX && d.len() == 0 {
            Ok(EntryView::Signal { signal: w[0] as u8 })
        } else {
            bad
        }
    } else if r.tag == TAG_CLOCK_TIME {
        if w.len() == 2 && w[0] <= u32::MAX && d.len() == 0 {
            Ok(EntryView::ClockTime { clock_id: w[0] as u32, time: w[1] })
        } else {
            bad
        }
    } else if r.tag == TAG_RANDOM {
        if w.len() == 0 {
            Ok(EntryView::Random { data: d })
        } else {
            bad
        }
    } else if r.tag == TAG_ENVIRONMENT {
        if w.len() == 0 {
            Ok(EntryView::Environment { data: d })
        } else {
            bad
        }
    } else if r.tag == TAG_ARGUMENTS {
        if w.len() == 0 {
            Ok(EntryView::Arguments { data: d })
        } else {
            bad
        }
    } else {
        Ok(EntryView::Unknown { tag: r.tag, words: w, data: d })
    }
}

/// An offset survives the trip through sign and magnitude.
pub proof fn lemma_offset_round_trip(offset: i64)
    ensures
        spec_offset_of(spec_offset_sign(offset), spec_offset_magnitude(offset)) == Some(offset),
{
}

/// A socket address survives the trip through its bytes.
pub proof fn lemma_address_round_trip(addr: SocketAddressView)
    requires
        addr.octets.len() == 18,
    ensures
        spec_address_bytes(addr).len() == ADDRESS_BYTES,
        spec_address_of(spec_address_bytes(addr)) == Some(addr),
{
    let bytes = spec_address_bytes(addr);
    Addressfamily::lemma_raw_round_trip(addr.family);
    assert(bytes[0] == addr.family.spec_raw());
    assert(bytes.subrange(1, ADDRESS_BYTES as int) =~= addr.octets);
}

/// An entry that can be written is the entry its record stands for.
pub proof fn lemma_record_round_trip(e: EntryView)
    requires
        e.well_formed(),
    ensures
        spec_entry_of(e.record()) == Ok::<EntryView, SerializationError>(e),
{
    match e {
        EntryView::SeekFileDescriptor { offset, whence, .. } => {
            lemma_offset_round_trip(offset);
            assert(Whence::spec_from_raw(whence.spec_raw() as u64) == Some(whence));
        },
        EntryView::SocketBind { addr, .. } => {
            lemma_address_round_trip(addr);
        },
        EntryView::SocketConnect { addr, .. } => {
            lemma_address_round_trip(addr);
        },
        EntryView::SocketAccept { peer, .. } => {
            lemma_address_round_trip(peer);
        },
        _ => {},
    }
}

/// The bytes of a socket address: the family, then the octets.
pub fn address_to_bytes(addr: &__wasi_addr_port_t) -> (bytes: Vec<u8>)
    ensures
        bytes@ == spec_address_bytes(addr@),
        bytes@.len() == ADDRESS_BYTES,
{
    let mut bytes: Vec<u8> = Vec::new();
    bytes.push(addr.tag.raw());
    let mut i: usize = 0;
    while i < 18
        invariant
            i <= 18,
            bytes@.len() == i + 1,
            bytes@[0] == addr.tag.spec_raw(),
            forall|j: int| 0 <= j < i ==> bytes@[j + 1] == addr.u.octs@[j],
        decreases 18 - i,
    {
        bytes.push(addr.u.octs[i]);
        i = i + 1;
    }
    assert(bytes@ =~= spec_address_bytes(addr@));
    bytes
}

/// The socket address that bytes stand for, if they stand for one.
pub fn address_from_bytes(bytes: &Vec<u8>) -> (addr: Option<__wasi_addr_port_t>)
    ensures
        match spec_address_of(bytes@) {
            Some(view) => addr.is_some() && addr.unwrap()@ == view,
            None => addr.is_none(),
        },
{
    if bytes.len() != ADDRESS_BYTES {
        return None;
    }
    match Addressfamily::from_raw(bytes[0]) {
        None => None,
        Some(tag) => {
            let mut octs: [u8; 18] = [0u8;18];
            let mut i: usize = 0;
            while i < 18
                invariant
                    i <= 18,
                    bytes@.len() == ADDRESS_BYTES,
                    forall|j: int| 0 <= j < i ==> octs@[j] == bytes@[j + 1],
                decreases 18 - i,
            {
                octs[i] = bytes[i + 1];
                i = i + 1;
            }
            let addr = __wasi_addr_port_t { tag, u: __wasi_addr_port_u { octs } };
            assert(addr@.octets =~= bytes@.subrange(1, ADDRESS_BYTES as int));
            Some(addr)
        },
    }
}

/// One word.
fn words1(a: u64) -> (w: Vec<u64>)
    ensures
        w@ == seq![a],
{
    let mut w: Vec<u64> = Vec::new();
    w.push(a);
    assert(w@ =~= seq![a]);
    w
}

/// Two words.
fn words2(a: u64, b: u64) -> (w: Vec<u64>)
    ensures
        w@ == seq![a, b],
{
    let mut w: Vec<u64> = Vec::new();
    w.push(a);
    w.push(b);
    assert(w@ =~= seq![a, b]);
    w
}

/// Three words.
fn words3(a: u64, b: u64, c: u64) -> (w: Vec<u64>)
    ensures
        w@ == seq![a, b, c],
{
    let mut w: Vec<u64> = Vec::new();
    w.push(a);
    w.push(b);
    w.push(c);
    assert(w@ =~= seq![a, b, c]);
    w
}

/// Four words.
fn words4(a: u64, b: u64, c: u64, d: u64) -> (w: Vec<u64>)
    ensures
        w@ == seq![a, b, c, d],
{
    let mut w: Vec<u64> = Vec::new();
    w.push(a);
    w.push(b);
    w.push(c);
    w.push(d);
    assert(w@ =~= seq![a, b, c, d]);
    w
}

/// The word that says whether an offset is negative.
fn offset_sign(offset: i64) -> (sign: u64)
    ensures
        sign == spec_offset_sign(offset),
{
    if offset < 0 {
        1
    } else {
        0
    }
}

/// The word that holds the distance of an offset from zero.
fn offset_magnitude(offset: i64) -> (magnitude: u64)
    ensures
        magnitude == spec_offset_magnitude(offset),
{
    if offset < 0 {
        let up: i64 = offset + 1;
        let flipped: i64 = -up;
        (flipped as u64) + 1
    } else {
        offset as u64
    }
}

/// The offset that a sign and a magnitude stand for, if they stand for one.
fn offset_of(sign: u64, magnitude: u64) -> (offset: Option<i64>)
    ensures
        offset == spec_offset_of(sign, magnitude),
{
    if sign == 0 && magnitude <= 0x7fff_ffff_ffff_ffff {
        Some(magnitude as i64)
    } else if sign == 1 && 1 <= magnitude && magnitude <= 0x8000_0000_0000_0000 {
        let down: u64 = magnitude - 1;
        let flipped: i64 = down as i64;
        Some(-flipped - 1)
    } else {
        None
    }
}

impl JournalEntry {
    /// Turns the entry into its record. The buffer moves; nothing is copied.
    pub fn into_record(self) -> (r: Record)
        ensures
            r@ == self@.record(),
    {
        let tag = self.tag();
        let empty: Vec<u8> = Vec::new();
        match self {
            JournalEntry::CheckpointBegin => Record { tag, words: Vec::new(), data: empty },
            JournalEntry::CheckpointEnd => Record { tag, words: Vec::new(), data: empty },
            JournalEntry::MemorySnapshot { offset, data } => Record {
                tag,
                words: words1(offset),
                data,
            },
            JournalEntry::MemoryDiff { offset, data } => Record { tag, words: words1(offset), data },
            JournalEntry::OpenFileDescriptor {
                fd,
                path,
                rights_base,
                rights_inheriting,
                flags,
            } => Record {
                tag,
                words: words4(fd as u64, rights_base, rights_inheriting, flags as u64),
                data: path,
            },
            JournalEntry::CloseFileDescriptor { fd } => Record {
                tag,
                words: words1(fd as u64),
                data: empty,
            },
            JournalEntry::SeekFileDescriptor { fd, offset, whence } => Record {
                tag,
                words: words4(
                    fd as u64,
                    whence.raw() as u64,
                    offset_sign(offset),
                    offset_magnitude(offset),
                ),
                data: empty,
            },
            JournalEntry::SetFileDescriptorRights { fd, rights_base, rights_inheriting } => {
                Record { tag, words: words3(fd as u64, rights_base, rights_inheriting), data: empty }
            },
            JournalEntry::SetFileDescriptorFlags { fd, flags } => Record {
                tag,
                words: words2(fd as u64, flags as u64),
                data: empty,
            },
            JournalEntry::FileDescriptorRead { fd, data } => Record {
                tag,
                words: words1(fd as u64),
                data,
            },
            JournalEntry::FileDescriptorWrite { fd, data } => Record {
                tag,
                words: words1(fd as u64),
                data,
            },
            JournalEntry::SocketBind { fd, addr } => Record {
                tag,
                words: words1(fd as u64),
                data: address_to_bytes(&addr),
            },
            JournalEntry::SocketConnect { fd, addr } => Record {
                tag,
                words: words1(fd as u64),
                data: address_to_bytes(&addr),
            },
            JournalEntry::SocketListen { fd, backlog } => Record {
                tag,
                words: words2(fd as u64, backlog as u64),
                data: empty,
            },
            JournalEntry::SocketAccept { listen_fd, fd, peer } => Record {
                tag,
                words: words2(listen_fd as u64, fd as u64),
                data: address_to_bytes(&peer),
            },
            JournalEntry::SocketSend { fd, data, flags } => Record {
                tag,
                words: words2(fd as u64, flags as u64),
                data,
            },
            JournalEntry::SocketReceive { fd, data, flags } => Record {
                tag,
                words: words2(fd as u64, flags as u64),
                data,
            },
            JournalEntry::SocketShutdown { fd, how } => Record {
                tag,
                words: words2(fd as u64, how as u64),
                data: empty,
            },
            JournalEntry::ThreadSpawn { tid } => Record {
                tag,
                words: words1(tid as u64),
                data: empty,
            },
            JournalEntry::ThreadExit { tid, exit_code } => Record {
                tag,
                words: words2(tid as u64, exit_code as u64),
                data: empty,
            },
            JournalEntry::ProcessExit { exit_code } => Record {
                tag,
                words: words1(exit_code as u64),
                data: empty,
            },
            JournalEntry::Signal { signal } => Record {
                tag,
                words: words1(signal as u64),
                data: empty,
            },
            JournalEntry::ClockTime { clock_id, time } => Record {
                tag,
                words: words2(clock_id as u64, time),
                data: empty,
            },
            JournalEntry::Random { data } => Record { tag, words: Vec::new(), data },
            JournalEntry::Environment { data } => Record { tag, words: Vec::new(), data },
            JournalEntry::Arguments { data } => Record { tag, words: Vec::new(), data },
            JournalEntry::Unknown { tag: _, words, data } => Record { tag, words, data },
        }
    }

    /// Reads a record as an entry. A record under a known tag whose fields
    /// do not fit that kind is malformed; a record under any other tag
    /// becomes an entry of unknown kind.
    pub fn from_record(r: Record) -> (res: Result<JournalEntry, SerializationError>)
        ensures
            match spec_entry_of(r@) {
                Ok(e) => res.is_ok() && res.unwrap()@ == e,
                Err(err) => res == Err::<JournalEntry, SerializationError>(err),
            },
    {
        let Record { tag, words, data } = r;
        let n = words.len();
        let blank = data.len() == 0;
        let bad = Err(SerializationError::Malformed);
        if tag == TAG_CHECKPOINT_BEGIN {
            if n == 0 && blank {
                Ok(JournalEntry::CheckpointBegin)
            } else {
                bad
            }
        } else if tag == TAG_CHECKPOINT_END {
            if n == 0 && blank {
                Ok(JournalEntry::CheckpointEnd)
            } else {
                bad
            }
        } else if tag == TAG_MEMORY_SNAPSHOT {
            if n == 1 {
                Ok(JournalEntry::MemorySnapshot { offset: words[0], data })
            } else {
                bad
            }
        } else if tag == TAG_MEMORY_DIFF {
            if n == 1 {
                Ok(JournalEntry::MemoryDiff { offset: words[0], data })
            } else {
                bad
            }
        } else if tag == TAG_OPEN_FILE_DESCRIPTOR {
            if n == 4 && words[0] <= 0xffff_ffff && words[3] <= 0xffff {
                Ok(
                    JournalEntry::OpenFileDescriptor {
                        fd: words[0] as u32,
                        path: data,
                        rights_base: words[1],
                        rights_inheriting: words[2],
                        flags: words[3] as u16,
                    },
                )
            } else {
                bad
            }
        } else if tag == TAG_CLOSE_FILE_DESCRIPTOR {
            if n == 1 && words[0] <= 0xffff_ffff && blank {
                Ok(JournalEntry::CloseFileDescriptor { fd: words[0] as u32 })
            } else {
                bad
            }
        } else if tag == TAG_SEEK_FILE_DESCRIPTOR {
            if n == 4 && words[0] <= 0xffff_ffff && blank {
                match (Whence::from_raw(words[1]), offset_of(words[2], words[3])) {
                    (Some(whence), Some(offset)) => Ok(
                        JournalEntry::SeekFileDescriptor { fd: words[0] as u32, offset, whence },
                    ),
                    _ => bad,
                }
            } else {
                bad
            }
        } else if tag == TAG_SET_FILE_DESCRIPTOR_RIGHTS {
            if n == 3 && words[0] <= 0xffff_ffff && blank {
                Ok(
                    JournalEntry::SetFileDescriptorRights {
                        fd: words[0] as u32,
                        rights_base: words[1],
                        rights_inheriting: words[2],
                    },
                )
            } else {
                bad
            }
        } else if tag == TAG_SET_FILE_DESCRIPTOR_FLAGS {
            if n == 2 && words[0] <= 0xffff_ffff && words[1] <= 0xffff && blank {
                Ok(
                    JournalEntry::SetFileDescriptorFlags {
                        fd: words[0] as u32,
                        flags: words[1] as u16,
                    },
                )
            } else {
                bad
            }
        } else if tag == TAG_FILE_DESCRIPTOR_READ {
            if n == 1 && words[0] <= 0xffff_ffff {
                Ok(JournalEntry::FileDescriptorRead { fd: words[0] as u32, data })
            } else {
                bad
            }
        } else if tag == TAG_FILE_DESCRIPTOR_WRITE {
            if n == 1 && words[0] <= 0xffff_ffff {
                Ok(JournalEntry::FileDescriptorWrite { fd: words[0] as u32, data })
            } else {
                bad
            }
        } else if tag == TAG_SOCKET_BIND {
            if n == 1 && words[0] <= 0xffff_ffff {
                match address_from_bytes(&data) {
                    Some(addr) => Ok(JournalEntry::SocketBind { fd: words[0] as u32, addr }),
                    None => bad,
                }
            } else {
                bad
            }
        } else if tag == TAG_SOCKET_CONNECT {
            if n == 1 && words[0] <= 0xffff_ffff {
                match address_from_bytes(&data) {
                    Some(addr) => Ok(JournalEntry::SocketConnect { fd: words[0] as u32, addr }),
                    None => bad,
                }
            } else {
                bad
            }
        } else if tag == TAG_SOCKET_LISTEN {
            if n == 2 && words[0] <= 0xffff_ffff && words[1] <= 0xffff_ffff && blank {
                Ok(JournalEntry::SocketListen { fd: words[0] as u32, backlog: words[1] as u32 })
            } else {
                bad
            }
        } else if tag == TAG_SOCKET_ACCEPT {
            if n == 2 && words[0] <= 0xffff_ffff && words[1] <= 0xffff_ffff {
                match address_from_bytes(&data) {
                    Some(peer) => Ok(
                        JournalEntry::SocketAccept {
                            listen_fd: words[0] as u32,
                            fd: words[1] as u32,
                            peer,
                        },
                    ),
                    None => bad,
                }
            } else {
                bad
            }
        } else if tag == TAG_SOCKET_SEND {
            if n == 2 && words[0] <= 0xffff_ffff && words[1] <= 0xffff {
                Ok(JournalEntry::SocketSend { fd: words[0] as u32, data, flags: words[1] as u16 })
            } else {
                bad
            }
        } else if tag == TAG_SOCKET_RECEIVE {
            if n == 2 && words[0] <= 0xffff_ffff && words[1] <= 0xffff {
                Ok(
                    JournalEntry::SocketReceive {
                        fd: words[0] as u32,
                        data,
                        flags: words[1] as u16,
                    },
                )
            } else {
                bad
            }
        } else if tag == TAG_SOCKET_SHUTDOWN {
            if n == 2 && words[0] <= 0xffff_ffff && words[1] <= 0xff && blank {
                Ok(JournalEntry::SocketShutdown { fd: words[0] as u32, how: words[1] as u8 })
            } else {
                bad
            }
        } else if tag == TAG_THREAD_SPAWN {
            if n == 1 && words[0] <= 0xffff_ffff && blank {
                Ok(JournalEntry::ThreadSpawn { tid: words[0] as u32 })
            } else {
                bad
            }
        } else if tag == TAG_THREAD_EXIT {
            if n == 2 && words[0] <= 0xffff_ffff && words[1] <= 0xffff_ffff && blank {
                Ok(JournalEntry::ThreadExit { tid: words[0] as u32, exit_code: words[1] as u32 })
            } else {
                bad
            }
        } else if tag == TAG_PROCESS_EXIT {
            if n == 1 && words[0] <= 0xffff_ffff && blank {
                Ok(JournalEntry::ProcessExit { exit_code: words[0] as u32 })
            } else {
                bad
            }
        } else if tag == TAG_SIGNAL {
            if n == 1 && words[0] <= 0xff && blank {
                Ok(JournalEntry::Signal { signal: words[0] as u8 })
            } else {
                bad
            }
        } else if tag == TAG_CLOCK_TIME {
            if n == 2 && words[0] <= 0xffff_ffff && blank {
                Ok(JournalEntry::ClockTime { clock_id: words[0] as u32, time: words[1] })
            } else {
                bad
            }
        } else if tag == TAG_RANDOM {
            if n == 0 {
                Ok(JournalEntry::Random { data })
            } else {
                bad
            }
        } else if tag == TAG_ENVIRONMENT {
            if n == 0 {
                Ok(JournalEntry::Environment { data })
            } else {
                bad
            }
        } else if tag == TAG_ARGUMENTS {
            if n == 0 {
                Ok(JournalEntry::Arguments { data })
            } else {
                bad
            }
        } else {
            Ok(JournalEntry::Unknown { tag, words, data })
        }
    }
}

} // verus!
