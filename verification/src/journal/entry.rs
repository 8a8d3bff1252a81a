//! The entry model: the closed set of effects a journal can hold.
use crate::wasi_types::{Addressfamily, Clockid, Fd, Rights, SdFlags, Timestamp};
use crate::wasi_types::__wasi_addr_port_t;
use vstd::prelude::*;

verus! {

/// The position a seek is relative to.
#[derive(Clone, Copy, Debug, PartialEq, Eq, Structural)]
pub enum Whence {
    /// The start of the file.
    Start,
    /// The current cursor.
    Current,
    /// The end of the file.
    End,
}

/// The families entries fall into; what a filter chooses by.
#[derive(Clone, Copy, Debug, PartialEq, Eq, Structural)]
pub enum EntryKind {
    /// Checkpoint markers.
    Control,
    /// Linear memory snapshots and diffs.
    Memory,
    /// Descriptor lifecycle and file data.
    FileSystem,
    /// Socket lifecycle and socket data.
    Network,
    /// Threads, the exit code and signals.
    Process,
    /// Clock readings, random data, environment and arguments.
    Environment,
    /// Entries of a kind this version does not know.
    Unknown,
}

/// A socket address as a journal sees it: the family and the eighteen
/// octets that hold port and address.
pub struct SocketAddressView {
    pub family: Addressfamily,
    pub octets: Seq<u8>,
}

impl View for __wasi_addr_port_t {
    type V = SocketAddressView;

    open spec fn view(&self) -> SocketAddressView {
        SocketAddressView { family: self.tag, octets: self.u.octs@ }
    }
}

/// One recorded effect. An entry owns all it needs to be replayed later.
#[allow(inconsistent_fields)]
#[derive(Debug, PartialEq, Eq)]
pub enum JournalEntry {
    /// A consistent restore point begins.
    CheckpointBegin,
    /// The restore point that began last is complete.
    CheckpointEnd,
    /// The bytes a region of linear memory held at a checkpoint.
    MemorySnapshot { offset: u64, data: Vec<u8> },
    /// The bytes a region of linear memory has taken since the last snapshot.
    MemoryDiff { offset: u64, data: Vec<u8> },
    /// A descriptor was opened on a resource.
    OpenFileDescriptor {
        fd: Fd,
        path: Vec<u8>,
        rights_base: Rights,
        rights_inheriting: Rights,
        flags: u16,
    },
    /// A descriptor was closed.
    CloseFileDescriptor { fd: Fd },
    /// The cursor of a descriptor was moved.
    SeekFileDescriptor { fd: Fd, offset: i64, whence: Whence },
    /// The rights of a descriptor were replaced.
    SetFileDescriptorRights { fd: Fd, rights_base: Rights, rights_inheriting: Rights },
    /// The flags of a descriptor were replaced.
    SetFileDescriptorFlags { fd: Fd, flags: u16 },
    /// The guest read these bytes from a descriptor.
    FileDescriptorRead { fd: Fd, data: Vec<u8> },
    /// The guest wrote these bytes to a descriptor.
    FileDescriptorWrite { fd: Fd, data: Vec<u8> },
    /// A socket was bound to a local address.
    SocketBind { fd: Fd, addr: __wasi_addr_port_t },
    /// A socket was connected to a peer.
    SocketConnect { fd: Fd, addr: __wasi_addr_port_t },
    /// A socket began to listen.
    SocketListen { fd: Fd, backlog: u32 },
    /// A listening socket accepted a peer on a new descriptor.
    SocketAccept { listen_fd: Fd, fd: Fd, peer: __wasi_addr_port_t },
    /// The guest sent these bytes on a socket.
    SocketSend { fd: Fd, data: Vec<u8>, flags: u16 },
    /// The guest received these bytes on a socket.
    SocketReceive { fd: Fd, data: Vec<u8>, flags: u16 },
    /// One or both directions of a socket were shut down.
    SocketShutdown { fd: Fd, how: SdFlags },
    /// A thread was spawned.
    ThreadSpawn { tid: u32 },
    /// A thread ended.
    ThreadExit { tid: u32, exit_code: u32 },
    /// The process ended.
    ProcessExit { exit_code: u32 },
    /// A signal was delivered to the process.
    Signal { signal: u8 },
    /// The guest read a clock.
    ClockTime { clock_id: Clockid, time: Timestamp },
    /// The guest was handed these random bytes.
    Random { data: Vec<u8> },
    /// The environment the guest was started with, as WASI lays it out.
    Environment { data: Vec<u8> },
    /// The arguments the guest was started with, as WASI lays them out.
    Arguments { data: Vec<u8> },
    /// An entry of a kind this version does not know, kept as it was read.
    Unknown { tag: u16, words: Vec<u64>, data: Vec<u8> },
}

/// What an entry means: the entry with its buffers read as sequences.
#[allow(inconsistent_fields)]
pub enum EntryView {
    CheckpointBegin,
    CheckpointEnd,
    MemorySnapshot { offset: u64, data: Seq<u8> },
    MemoryDiff { offset: u64, data: Seq<u8> },
    OpenFileDescriptor {
        fd: Fd,
        path: Seq<u8>,
        rights_base: Rights,
        rights_inheriting: Rights,
        flags: u16,
    },
    CloseFileDescriptor { fd: Fd },
    SeekFileDescriptor { fd: Fd, offset: i64, whence: Whence },
    SetFileDescriptorRights { fd: Fd, rights_base: Rights, rights_inheriting: Rights },
    SetFileDescriptorFlags { fd: Fd, flags: u16 },
    FileDescriptorRead { fd: Fd, data: Seq<u8> },
    FileDescriptorWrite { fd: Fd, data: Seq<u8> },
    SocketBind { fd: Fd, addr: SocketAddressView },
    SocketConnect { fd: Fd, addr: SocketAddressView },
    SocketListen { fd: Fd, backlog: u32 },
    SocketAccept { listen_fd: Fd, fd: Fd, peer: SocketAddressView },
    SocketSend { fd: Fd, data: Seq<u8>, flags: u16 },
    SocketReceive { fd: Fd, data: Seq<u8>, flags: u16 },
    SocketShutdown { fd: Fd, how: SdFlags },
    ThreadSpawn { tid: u32 },
    ThreadExit { tid: u32, exit_code: u32 },
    ProcessExit { exit_code: u32 },
    Signal { signal: u8 },
    ClockTime { clock_id: Clockid, time: Timestamp },
    Random { data: Seq<u8> },
    Environment { data: Seq<u8> },
    Arguments { data: Seq<u8> },
    Unknown { tag: u16, words: Seq<u64>, data: Seq<u8> },
}

pub const TAG_CHECKPOINT_BEGIN: u16 = 1;

pub const TAG_CHECKPOINT_END: u16 = 2;

pub const TAG_MEMORY_SNAPSHOT: u16 = 3;

pub const TAG_MEMORY_DIFF: u16 = 4;

pub const TAG_OPEN_FILE_DESCRIPTOR: u16 = 10;

pub const TAG_CLOSE_FILE_DESCRIPTOR: u16 = 11;

pub const TAG_SEEK_FILE_DESCRIPTOR: u16 = 12;

pub const TAG_SET_FILE_DESCRIPTOR_RIGHTS: u16 = 13;

pub const TAG_SET_FILE_DESCRIPTOR_FLAGS: u16 = 14;

pub const TAG_FILE_DESCRIPTOR_READ: u16 = 15;

pub const TAG_FILE_DESCRIPTOR_WRITE: u16 = 16;

pub const TAG_SOCKET_BIND: u16 = 20;

pub const TAG_SOCKET_CONNECT: u16 = 21;

pub const TAG_SOCKET_LISTEN: u16 = 22;

pub const TAG_SOCKET_ACCEPT: u16 = 23;

pub const TAG_SOCKET_SEND: u16 = 24;

pub const TAG_SOCKET_RECEIVE: u16 = 25;

pub const TAG_SOCKET_SHUTDOWN: u16 = 26;

pub const TAG_THREAD_SPAWN: u16 = 30;

pub const TAG_THREAD_EXIT: u16 = 31;

pub const TAG_PROCESS_EXIT: u16 = 32;

pub const TAG_SIGNAL: u16 = 33;

pub const TAG_CLOCK_TIME: u16 = 40;

pub const TAG_RANDOM: u16 = 41;

pub const TAG_ENVIRONMENT: u16 = 42;

pub const TAG_ARGUMENTS: u16 = 43;

impl Whence {
    /// The number that stands for this position in the WASI binary layout.
    pub open spec fn spec_raw(self) -> u8 {
        match self {
            Whence::Start => 0,
            Whence::Current => 1,
            Whence::End => 2,
        }
    }

    /// The number that stands for this position in the WASI binary layout.
    #[verifier::when_used_as_spec(spec_raw)]
    pub fn raw(self) -> (n: u8)
        ensures
            n == self.spec_raw(),
    {
        match self {
            Whence::Start => 0,
            Whence::Current => 1,
            Whence::End => 2,
        }
    }

    /// The position a number stands for, if any.
    pub open spec fn spec_from_raw(n: u64) -> Option<Whence> {
        if n == 0 {
            Some(Whence::Start)
        } else if n == 1 {
            Some(Whence::Current)
        } else if n == 2 {
            Some(Whence::End)
        } else {
            None
        }
    }

    /// The position a number stands for, if any.
    #[verifier::when_used_as_spec(spec_from_raw)]
    pub fn from_raw(n: u64) -> (whence: Option<Whence>)
        ensures
            whence == Self::spec_from_raw(n),
    {
        if n == 0 {
            Some(Whence::Start)
        } else if n == 1 {
            Some(Whence::Current)
        } else if n == 2 {
            Some(Whence::End)
        } else {
            None
        }
    }
}

/// Whether a tag names a kind of entry this version knows.
pub open spec fn spec_known_tag(tag: u16) -> bool {
    ||| 1 <= tag <= 4
    ||| 10 <= tag <= 16
    ||| 20 <= tag <= 26
    ||| 30 <= tag <= 33
    ||| 40 <= tag <= 43
}

/// Whether a tag names a kind of entry this version knows.
#[verifier::when_used_as_spec(spec_known_tag)]
pub fn known_tag(tag: u16) -> (known: bool)
    ensures
        known == spec_known_tag(tag),
{
    (1 <= tag && tag <= 4) || (10 <= tag && tag <= 16) || (20 <= tag && tag <= 26) || (30 <= tag
        && tag <= 33) || (40 <= tag && tag <= 43)
}

impl View for JournalEntry {
    type V = EntryView;

    open spec fn view(&self) -> EntryView {
        match *self {
            JournalEntry::CheckpointBegin => EntryView::CheckpointBegin,
            JournalEntry::CheckpointEnd => EntryView::CheckpointEnd,
            JournalEntry::MemorySnapshot { offset, data } => EntryView::MemorySnapshot {
                offset,
                data: data@,
            },
            JournalEntry::MemoryDiff { offset, data } => EntryView::MemoryDiff {
                offset,
                data: data@,
            },
            JournalEntry::OpenFileDescriptor {
                fd,
                path,
                rights_base,
                rights_inheriting,
                flags,
            } => EntryView::OpenFileDescriptor {
                fd,
                path: path@,
                rights_base,
                rights_inheriting,
                flags,
            },
            JournalEntry::CloseFileDescriptor { fd } => EntryView::CloseFileDescriptor { fd },
            JournalEntry::SeekFileDescriptor { fd, offset, whence } => {
                EntryView::SeekFileDescriptor { fd, offset, whence }
            },
            JournalEntry::SetFileDescriptorRights { fd, rights_base, rights_inheriting } => {
                EntryView::SetFileDescriptorRights { fd, rights_base, rights_inheriting }
            },
            JournalEntry::SetFileDescriptorFlags { fd, flags } => {
                EntryView::SetFileDescriptorFlags { fd, flags }
            },
            JournalEntry::FileDescriptorRead { fd, data } => EntryView::FileDescriptorRead {
                fd,
                data: data@,
            },
            JournalEntry::FileDescriptorWrite { fd, data } => EntryView::FileDescriptorWrite {
                fd,
                data: data@,
            },
            JournalEntry::SocketBind { fd, addr } => EntryView::SocketBind { fd, addr: addr@ },
            JournalEntry::SocketConnect { fd, addr } => EntryView::SocketConnect {
                fd,
                addr: addr@,
            },
            JournalEntry::SocketListen { fd, backlog } => EntryView::SocketListen { fd, backlog },
            JournalEntry::SocketAccept { listen_fd, fd, peer } => EntryView::SocketAccept {
                listen_fd,
                fd,
                peer: peer@,
            },
            JournalEntry::SocketSend { fd, data, flags } => EntryView::SocketSend {
                fd,
                data: data@,
                flags,
            },
            JournalEntry::SocketReceive { fd, data, flags } => EntryView::SocketReceive {
                fd,
                data: data@,
                flags,
            },
            JournalEntry::SocketShutdown { fd, how } => EntryView::SocketShutdown { fd, how },
            JournalEntry::ThreadSpawn { tid } => EntryView::ThreadSpawn { tid },
            JournalEntry::ThreadExit { tid, exit_code } => EntryView::ThreadExit {
                tid,
                exit_code,
            },
            JournalEntry::ProcessExit { exit_code } => EntryView::ProcessExit { exit_code },
            JournalEntry::Signal { signal } => EntryView::Signal { signal },
            JournalEntry::ClockTime { clock_id, time } => EntryView::ClockTime { clock_id, time },
            JournalEntry::Random { data } => EntryView::Random { data: data@ },
            JournalEntry::Environment { data } => EntryView::Environment { data: data@ },
            JournalEntry::Arguments { data } => EntryView::Arguments { data: data@ },
            JournalEntry::Unknown { tag, words, data } => EntryView::Unknown {
                tag,
                words: words@,
                data: data@,
            },
        }
    }
}

impl EntryView {
    /// The tag an entry is written under.
    pub open spec fn tag(self) -> u16 {
        match self {
            EntryView::CheckpointBegin => TAG_CHECKPOINT_BEGIN,
            EntryView::CheckpointEnd => TAG_CHECKPOINT_END,
            EntryView::MemorySnapshot { .. } => TAG_MEMORY_SNAPSHOT,
            EntryView::MemoryDiff { .. } => TAG_MEMORY_DIFF,
            EntryView::OpenFileDescriptor { .. } => TAG_OPEN_FILE_DESCRIPTOR,
            EntryView::CloseFileDescriptor { .. } => TAG_CLOSE_FILE_DESCRIPTOR,
            EntryView::SeekFileDescriptor { .. } => TAG_SEEK_FILE_DESCRIPTOR,
            EntryView::SetFileDescriptorRights { .. } => TAG_SET_FILE_DESCRIPTOR_RIGHTS,
            EntryView::SetFileDescriptorFlags { .. } => TAG_SET_FILE_DESCRIPTOR_FLAGS,
            EntryView::FileDescriptorRead { .. } => TAG_FILE_DESCRIPTOR_READ,
            EntryView::FileDescriptorWrite { .. } => TAG_FILE_DESCRIPTOR_WRITE,
            EntryView::SocketBind { .. } => TAG_SOCKET_BIND,
            EntryView::SocketConnect { .. } => TAG_SOCKET_CONNECT,
            EntryView::SocketListen { .. } => TAG_SOCKET_LISTEN,
            EntryView::SocketAccept { .. } => TAG_SOCKET_ACCEPT,
            EntryView::SocketSend { .. } => TAG_SOCKET_SEND,
            EntryView::SocketReceive { .. } => TAG_SOCKET_RECEIVE,
            EntryView::SocketShutdown { .. } => TAG_SOCKET_SHUTDOWN,
            EntryView::ThreadSpawn { .. } => TAG_THREAD_SPAWN,
            EntryView::ThreadExit { .. } => TAG_THREAD_EXIT,
            EntryView::ProcessExit { .. } => TAG_PROCESS_EXIT,
            EntryView::Signal { .. } => TAG_SIGNAL,
            EntryView::ClockTime { .. } => TAG_CLOCK_TIME,
            EntryView::Random { .. } => TAG_RANDOM,
            EntryView::Environment { .. } => TAG_ENVIRONMENT,
            EntryView::Arguments { .. } => TAG_ARGUMENTS,
            EntryView::Unknown { tag, .. } => tag,
        }
    }

    /// The family an entry belongs to.
    pub open spec fn kind(self) -> EntryKind {
        match self {
            EntryView::CheckpointBegin | EntryView::CheckpointEnd => EntryKind::Control,
            EntryView::MemorySnapshot { .. } | EntryView::MemoryDiff { .. } => EntryKind::Memory,
            EntryView::OpenFileDescriptor { .. }
            | EntryView::CloseFileDescriptor { .. }
            | EntryView::SeekFileDescriptor { .. }
            | EntryView::SetFileDescriptorRights { .. }
            | EntryView::SetFileDescriptorFlags { .. }
            | EntryView::FileDescriptorRead { .. }
            | EntryView::FileDescriptorWrite { .. } => EntryKind::FileSystem,
            EntryView::SocketBind { .. }
            | EntryView::SocketConnect { .. }
            | EntryView::SocketListen { .. }
            | EntryView::SocketAccept { .. }
            | EntryView::SocketSend { .. }
            | EntryView::SocketReceive { .. }
            | EntryView::SocketShutdown { .. } => EntryKind::Network,
            EntryView::ThreadSpawn { .. }
            | EntryView::ThreadExit { .. }
            | EntryView::ProcessExit { .. }
            | EntryView::Signal { .. } => EntryKind::Process,
            EntryView::ClockTime { .. }
            | EntryView::Random { .. }
            | EntryView::Environment { .. }
            | EntryView::Arguments { .. } => EntryKind::Environment,
            EntryView::Unknown { .. } => EntryKind::Unknown,
        }
    }
}

/// A copy of a buffer.
pub fn clone_bytes(bytes: &Vec<u8>) -> (copy: Vec<u8>)
    ensures
        copy@ == bytes@,
{
    let copy = bytes.clone();
    assert(copy@ =~= bytes@);
    copy
}

/// A copy of a sequence of words.
pub fn clone_words(words: &Vec<u64>) -> (copy: Vec<u64>)
    ensures
        copy@ == words@,
{
    let copy = words.clone();
    assert(copy@ =~= words@);
    copy
}

impl JournalEntry {
    /// The tag this entry is written under.
    pub fn tag(&self) -> (tag: u16)
        ensures
            tag == self@.tag(),
    {
        match self {
            JournalEntry::CheckpointBegin => TAG_CHECKPOINT_BEGIN,
            JournalEntry::CheckpointEnd => TAG_CHECKPOINT_END,
            JournalEntry::MemorySnapshot { .. } => TAG_MEMORY_SNAPSHOT,
            JournalEntry::MemoryDiff { .. } => TAG_MEMORY_DIFF,
            JournalEntry::OpenFileDescriptor { .. } => TAG_OPEN_FILE_DESCRIPTOR,
            JournalEntry::CloseFileDescriptor { .. } => TAG_CLOSE_FILE_DESCRIPTOR,
            JournalEntry::SeekFileDescriptor { .. } => TAG_SEEK_FILE_DESCRIPTOR,
            JournalEntry::SetFileDescriptorRights { .. } => TAG_SET_FILE_DESCRIPTOR_RIGHTS,
            JournalEntry::SetFileDescriptorFlags { .. } => TAG_SET_FILE_DESCRIPTOR_FLAGS,
            JournalEntry::FileDescriptorRead { .. } => TAG_FILE_DESCRIPTOR_READ,
            JournalEntry::FileDescriptorWrite { .. } => TAG_FILE_DESCRIPTOR_WRITE,
            JournalEntry::SocketBind { .. } => TAG_SOCKET_BIND,
            JournalEntry::SocketConnect { .. } => TAG_SOCKET_CONNECT,
            JournalEntry::SocketListen { .. } => TAG_SOCKET_LISTEN,
            JournalEntry::SocketAccept { .. } => TAG_SOCKET_ACCEPT,
            JournalEntry::SocketSend { .. } => TAG_SOCKET_SEND,
            JournalEntry::SocketReceive { .. } => TAG_SOCKET_RECEIVE,
            JournalEntry::SocketShutdown { .. } => TAG_SOCKET_SHUTDOWN,
            JournalEntry::ThreadSpawn { .. } => TAG_THREAD_SPAWN,
            JournalEntry::ThreadExit { .. } => TAG_THREAD_EXIT,
            JournalEntry::ProcessExit { .. } => TAG_PROCESS_EXIT,
            JournalEntry::Signal { .. } => TAG_SIGNAL,
            JournalEntry::ClockTime { .. } => TAG_CLOCK_TIME,
            JournalEntry::Random { .. } => TAG_RANDOM,
            JournalEntry::Environment { .. } => TAG_ENVIRONMENT,
            JournalEntry::Arguments { .. } => TAG_ARGUMENTS,
            JournalEntry::Unknown { tag, .. } => *tag,
        }
    }

    /// The family this entry belongs to.
    pub fn kind(&self) -> (kind: EntryKind)
        ensures
            kind == self@.kind(),
    {
        match self {
            JournalEntry::CheckpointBegin | JournalEntry::CheckpointEnd => EntryKind::Control,
            JournalEntry::MemorySnapshot { .. } | JournalEntry::MemoryDiff { .. } => {
                EntryKind::Memory
            },
            JournalEntry::OpenFileDescriptor { .. }
            | JournalEntry::CloseFileDescriptor { .. }
            | JournalEntry::SeekFileDescriptor { .. }
            | JournalEntry::SetFileDescriptorRights { .. }
            | JournalEntry::SetFileDescriptorFlags { .. }
            | JournalEntry::FileDescriptorRead { .. }
            | JournalEntry::FileDescriptorWrite { .. } => EntryKind::FileSystem,
            JournalEntry::SocketBind { .. }
            | JournalEntry::SocketConnect { .. }
            | JournalEntry::SocketListen { .. }
            | JournalEntry::SocketAccept { .. }
            | JournalEntry::SocketSend { .. }
            | JournalEntry::SocketReceive { .. }
            | JournalEntry::SocketShutdown { .. } => EntryKind::Network,
            JournalEntry::ThreadSpawn { .. }
            | JournalEntry::ThreadExit { .. }
            | JournalEntry::ProcessExit { .. }
            | JournalEntry::Signal { .. } => EntryKind::Process,
            JournalEntry::ClockTime { .. }
            | JournalEntry::Random { .. }
            | JournalEntry::Environment { .. }
            | JournalEntry::Arguments { .. } => EntryKind::Environment,
            JournalEntry::Unknown { .. } => EntryKind::Unknown,
        }
    }
}

impl Clone for JournalEntry {
    /// A copy that means the same.
    fn clone(&self) -> (copy: Self)
        ensures
            copy@ == self@,
    {
        match self {
            JournalEntry::CheckpointBegin => JournalEntry::CheckpointBegin,
            JournalEntry::CheckpointEnd => JournalEntry::CheckpointEnd,
            JournalEntry::MemorySnapshot { offset, data } => JournalEntry::MemorySnapshot {
                offset: *offset,
                data: clone_bytes(data),
            },
            JournalEntry::MemoryDiff { offset, data } => JournalEntry::MemoryDiff {
                offset: *offset,
                data: clone_bytes(data),
            },
            JournalEntry::OpenFileDescriptor {
                fd,
                path,
                rights_base,
                rights_inheriting,
                flags,
            } => JournalEntry::OpenFileDescriptor {
                fd: *fd,
                path: clone_bytes(path),
                rights_base: *rights_base,
                rights_inheriting: *rights_inheriting,
                flags: *flags,
            },
            JournalEntry::CloseFileDescriptor { fd } => JournalEntry::CloseFileDescriptor {
                fd: *fd,
            },
            JournalEntry::SeekFileDescriptor { fd, offset, whence } => {
                JournalEntry::SeekFileDescriptor { fd: *fd, offset: *offset, whence: *whence }
            },
            JournalEntry::SetFileDescriptorRights { fd, rights_base, rights_inheriting } => {
                JournalEntry::SetFileDescriptorRights {
                    fd: *fd,
                    rights_base: *rights_base,
                    rights_inheriting: *rights_inheriting,
                }
            },
            JournalEntry::SetFileDescriptorFlags { fd, flags } => {
                JournalEntry::SetFileDescriptorFlags { fd: *fd, flags: *flags }
            },
            JournalEntry::FileDescriptorRead { fd, data } => JournalEntry::FileDescriptorRead {
                fd: *fd,
                data: clone_bytes(data),
            },
            JournalEntry::FileDescriptorWrite { fd, data } => JournalEntry::FileDescriptorWrite {
                fd: *fd,
                data: clone_bytes(data),
            },
            JournalEntry::SocketBind { fd, addr } => JournalEntry::SocketBind {
                fd: *fd,
                addr: *addr,
            },
            JournalEntry::SocketConnect { fd, addr } => JournalEntry::SocketConnect {
                fd: *fd,
                addr: *addr,
            },
            JournalEntry::SocketListen { fd, backlog } => JournalEntry::SocketListen {
                fd: *fd,
                backlog: *backlog,
            },
            JournalEntry::SocketAccept { listen_fd, fd, peer } => JournalEntry::SocketAccept {
                listen_fd: *listen_fd,
                fd: *fd,
                peer: *peer,
            },
            JournalEntry::SocketSend { fd, data, flags } => JournalEntry::SocketSend {
                fd: *fd,
                data: clone_bytes(data),
                flags: *flags,
            },
            JournalEntry::SocketReceive { fd, data, flags } => JournalEntry::SocketReceive {
                fd: *fd,
                data: clone_bytes(data),
                flags: *flags,
            },
            JournalEntry::SocketShutdown { fd, how } => JournalEntry::SocketShutdown {
                fd: *fd,
                how: *how,
            },
            JournalEntry::ThreadSpawn { tid } => JournalEntry::ThreadSpawn { tid: *tid },
            JournalEntry::ThreadExit { tid, exit_code } => JournalEntry::ThreadExit {
                tid: *tid,
                exit_code: *exit_code,
            },
            JournalEntry::ProcessExit { exit_code } => JournalEntry::ProcessExit {
                exit_code: *exit_code,
            },
            JournalEntry::Signal { signal } => JournalEntry::Signal { signal: *signal },
            JournalEntry::ClockTime { clock_id, time } => JournalEntry::ClockTime {
                clock_id: *clock_id,
                time: *time,
            },
            JournalEntry::Random { data } => JournalEntry::Random { data: clone_bytes(data) },
            JournalEntry::Environment { data } => JournalEntry::Environment {
                data: clone_bytes(data),
            },
            JournalEntry::Arguments { data } => JournalEntry::Arguments {
                data: clone_bytes(data),
            },
            JournalEntry::Unknown { tag, words, data } => JournalEntry::Unknown {
                tag: *tag,
                words: clone_words(words),
                data: clone_bytes(data),
            },
        }
    }
}

} // verus!
