//! The guest as replay sees it: linear memory, the descriptor table, the
//! resources behind the descriptors, the threads, and what the guest was
//! told of the world. Applying an entry to a guest is one step of replay.
use super::codec::extend_bytes;
use super::entry::{clone_bytes, EntryView, JournalEntry, Whence};
use super::error::{JournalError, OrderingViolation, ReplayError, SerializationError};
use super::slots::{SlotTable, MAX_SLOTS};
use crate::wasi_types::{Clockid, Fd, Rights, SdFlags, Timestamp};
use vstd::prelude::*;

verus! {

/// The farthest a cursor goes: the largest offset a seek can name.
pub const MAX_CURSOR: u64 = 0x7fff_ffff_ffff_ffff;

/// An open descriptor.
#[derive(Clone, Copy, Debug, PartialEq, Eq, Structural)]
pub struct Descriptor {
    /// The resource behind the descriptor, by its position among the
    /// resources of the guest.
    pub file: usize,
    /// Where the next read or write takes place. A cursor never goes
    /// beyond [`MAX_CURSOR`].
    pub cursor: u64,
    pub rights_base: Rights,
    pub rights_inheriting: Rights,
    pub flags: u16,
    /// Whether the descriptor is a socket bound to a local address.
    pub bound: bool,
    /// Whether the descriptor is a socket connected to a peer.
    pub connected: bool,
    /// Whether the descriptor is a socket that listens.
    pub listening: bool,
    pub backlog: u32,
    /// The directions that were shut down.
    pub shutdown: SdFlags,
}

/// A resource of the host that descriptors are opened on.
#[derive(Debug, PartialEq, Eq)]
pub struct FileResource {
    pub path: Vec<u8>,
    pub content: Vec<u8>,
}

/// What a resource is, read as sequences.
pub struct FileView {
    pub path: Seq<u8>,
    pub content: Seq<u8>,
}

impl View for FileResource {
    type V = FileView;

    open spec fn view(&self) -> FileView {
        FileView { path: self.path@, content: self.content@ }
    }
}

/// What a guest is.
#[verifier::ext_equal]
pub struct GuestView {
    pub memory: Seq<u8>,
    pub descriptors: Map<Fd, Descriptor>,
    pub files: Seq<FileView>,
    pub threads: Set<u32>,
    pub exit_code: Option<u32>,
    pub signals: Seq<u8>,
    pub clock: Option<(Clockid, Timestamp)>,
    pub random: Seq<u8>,
    pub environment: Seq<u8>,
    pub arguments: Seq<u8>,
    pub in_checkpoint: bool,
}

/// The state of a guest that entries are applied to.
#[derive(Debug)]
pub struct Guest {
    memory: Vec<u8>,
    descriptors: SlotTable<Descriptor>,
    files: Vec<FileResource>,
    threads: SlotTable<()>,
    exit_code: Option<u32>,
    signals: Vec<u8>,
    clock: Option<(Clockid, Timestamp)>,
    random: Vec<u8>,
    environment: Vec<u8>,
    arguments: Vec<u8>,
    in_checkpoint: bool,
}

/// What a run of resources is.
pub open spec fn spec_file_views(files: Seq<FileResource>) -> Seq<FileView> {
    Seq::new(files.len(), |i: int| files[i]@)
}

/// The first resource under a path among the first `upto` resources.
pub open spec fn spec_find_file(files: Seq<FileView>, path: Seq<u8>, upto: int) -> Option<int>
    decreases upto,
{
    if upto <= 0 {
        None
    } else {
        match spec_find_file(files, path, upto - 1) {
            Some(found) => Some(found),
            None => if files[upto - 1].path == path {
                Some(upto - 1)
            } else {
                None
            },
        }
    }
}

/// Linear memory after bytes were written into it at an offset.
pub open spec fn spec_memory_write(memory: Seq<u8>, offset: int, data: Seq<u8>) -> Seq<u8> {
    Seq::new(
        memory.len(),
        |i: int|
            if offset <= i < offset + data.len() {
                data[i - offset]
            } else {
                memory[i]
            },
    )
}

/// A run of zero bytes.
pub open spec fn spec_zeros(len: int) -> Seq<u8> {
    Seq::new(len as nat, |i: int| 0u8)
}

/// The content of a resource after bytes were written into it at a cursor.
/// Bytes written beyond the end leave zeros between the end and them.
pub open spec fn spec_file_write(content: Seq<u8>, cursor: int, data: Seq<u8>) -> Seq<u8> {
    let padded = if cursor > content.len() {
        content + spec_zeros(cursor - content.len())
    } else {
        content
    };
    let end = cursor + data.len();
    if end < padded.len() {
        padded.take(cursor) + data + padded.skip(end)
    } else {
        padded.take(cursor) + data
    }
}

/// A descriptor as it is when it was just opened.
pub open spec fn spec_fresh_descriptor(
    file: usize,
    rights_base: Rights,
    rights_inheriting: Rights,
    flags: u16,
) -> Descriptor {
    Descriptor {
        file,
        cursor: 0,
        rights_base,
        rights_inheriting,
        flags,
        bound: false,
        connected: false,
        listening: false,
        backlog: 0,
        shutdown: 0,
    }
}

/// The descriptor a listening socket accepts a peer on.
pub open spec fn spec_accepted_descriptor(listener: Descriptor) -> Descriptor {
    Descriptor {
        file: listener.file,
        cursor: 0,
        rights_base: listener.rights_inheriting,
        rights_inheriting: listener.rights_inheriting,
        flags: listener.flags,
        bound: true,
        connected: true,
        listening: false,
        backlog: 0,
        shutdown: 0,
    }
}

/// Whether a descriptor fits a guest with this many resources: it has a
/// slot and a resource behind it, its cursor is in range, and it has a
/// backlog only if it listens.
pub open spec fn spec_descriptor_fits(fd: Fd, d: Descriptor, files: nat) -> bool {
    &&& (fd as int) < MAX_SLOTS
    &&& d.file < files
    &&& d.cursor <= MAX_CURSOR
    &&& !d.listening ==> d.backlog == 0
}

/// Where a seek starts from.
pub open spec fn spec_seek_base(g: GuestView, d: Descriptor, whence: Whence) -> int {
    match whence {
        Whence::Start => 0,
        Whence::Current => d.cursor as int,
        Whence::End => g.files[d.file as int].content.len() as int,
    }
}

impl GuestView {
    /// A guest with this much linear memory, all zero, and nothing else.
    pub open spec fn fresh(memory: Seq<u8>) -> GuestView {
        GuestView {
            memory,
            descriptors: Map::empty(),
            files: Seq::empty(),
            threads: Set::empty(),
            exit_code: None,
            signals: Seq::empty(),
            clock: None,
            random: Seq::empty(),
            environment: Seq::empty(),
            arguments: Seq::empty(),
            in_checkpoint: false,
        }
    }

    /// Whether the parts of the guest fit together: every descriptor has a
    /// slot and a resource behind it, every thread has a slot.
    pub open spec fn valid(self) -> bool {
        &&& self.descriptors_fit()
        &&& self.threads_fit()
        &&& self.paths_differ()
        &&& self.files_fit()
    }

    /// Whether a machine can hold the guest: its resources can be counted
    /// and each of them measured.
    pub open spec fn holdable(self) -> bool {
        &&& self.files.len() <= usize::MAX
        &&& forall|i: int| 0 <= i < self.files.len() ==> (#[trigger] self.files[i]).content.len()
            <= usize::MAX
    }

    /// Whether no resource is longer than a cursor goes.
    pub open spec fn files_fit(self) -> bool {
        forall|i: int| 0 <= i < self.files.len() ==> (#[trigger] self.files[i]).content.len()
            <= MAX_CURSOR
    }

    /// Whether every descriptor has a slot and a resource behind it.
    pub open spec fn descriptors_fit(self) -> bool {
        forall|fd: Fd| #[trigger]
            self.descriptors.contains_key(fd) ==> spec_descriptor_fits(
                fd,
                self.descriptors[fd],
                self.files.len(),
            )
    }

    /// Whether every thread has a slot.
    pub open spec fn threads_fit(self) -> bool {
        forall|tid: u32| #[trigger] self.threads.contains(tid) ==> (tid as int) < MAX_SLOTS
    }

    /// Whether no two resources stand under one path.
    pub open spec fn paths_differ(self) -> bool {
        forall|i: int, j: int|
            0 <= i < j < self.files.len() ==> (#[trigger] self.files[i]).path != (
            #[trigger] self.files[j]).path
    }

    /// The guest with one descriptor replaced.
    pub open spec fn with_descriptor(self, fd: Fd, d: Descriptor) -> GuestView {
        GuestView { descriptors: self.descriptors.insert(fd, d), ..self }
    }

    /// The error of an entry that speaks of a descriptor that is not open.
    pub open spec fn not_open(fd: Fd) -> JournalError {
        JournalError::Order(OrderingViolation::DescriptorNotOpen { fd })
    }

    /// The guest after an entry, or why the entry cannot be applied. An
    /// entry that cannot be applied leaves the guest as it was.
    pub open spec fn apply(self, e: EntryView) -> Result<GuestView, JournalError> {
        match e {
            EntryView::CheckpointBegin => if self.in_checkpoint {
                Err(JournalError::Order(OrderingViolation::UnbalancedCheckpoint))
            } else {
                Ok(GuestView { in_checkpoint: true, ..self })
            },
            EntryView::CheckpointEnd => if !self.in_checkpoint {
                Err(JournalError::Order(OrderingViolation::UnbalancedCheckpoint))
            } else {
                Ok(GuestView { in_checkpoint: false, ..self })
            },
            EntryView::MemorySnapshot { offset, data } => self.apply_memory(offset, data),
            EntryView::MemoryDiff { offset, data } => self.apply_memory(offset, data),
            EntryView::OpenFileDescriptor { fd, path, rights_base, rights_inheriting, flags } => {
                self.apply_open(fd, path, rights_base, rights_inheriting, flags)
            },
            EntryView::CloseFileDescriptor { fd } => if !self.descriptors.contains_key(fd) {
                Err(Self::not_open(fd))
            } else {
                Ok(GuestView { descriptors: self.descriptors.remove(fd), ..self })
            },
            EntryView::SeekFileDescriptor { fd, offset, whence } => {
                if !self.descriptors.contains_key(fd) {
                    Err(Self::not_open(fd))
                } else {
                    let d = self.descriptors[fd];
                    let target = spec_seek_base(self, d, whence) + offset;
                    if 0 <= target <= MAX_CURSOR {
                        Ok(self.with_descriptor(fd, Descriptor { cursor: target as u64, ..d }))
                    } else {
                        Err(JournalError::Replay(ReplayError::Overflow))
                    }
                }
            },
            EntryView::SetFileDescriptorRights { fd, rights_base, rights_inheriting } => {
                if !self.descriptors.contains_key(fd) {
                    Err(Self::not_open(fd))
                } else {
                    let d = self.descriptors[fd];
                    Ok(self.with_descriptor(fd, Descriptor { rights_base, rights_inheriting, ..d }))
                }
            },
            EntryView::SetFileDescriptorFlags { fd, flags } => {
                if !self.descriptors.contains_key(fd) {
                    Err(Self::not_open(fd))
                } else {
                    let d = self.descriptors[fd];
                    Ok(self.with_descriptor(fd, Descriptor { flags, ..d }))
                }
            },
            EntryView::FileDescriptorRead { fd, data } => {
                if !self.descriptors.contains_key(fd) {
                    Err(Self::not_open(fd))
                } else {
                    let d = self.descriptors[fd];
                    if d.cursor + data.len() > MAX_CURSOR {
                        Err(JournalError::Replay(ReplayError::Overflow))
                    } else {
                        Ok(
                            self.with_descriptor(
                                fd,
                                Descriptor { cursor: (d.cursor + data.len()) as u64, ..d },
                            ),
                        )
                    }
                }
            },
            EntryView::FileDescriptorWrite { fd, data } => self.apply_write(fd, data),
            EntryView::SocketBind { fd, addr } => {
                if !self.descriptors.contains_key(fd) {
                    Err(Self::not_open(fd))
                } else {
                    let d = self.descriptors[fd];
                    Ok(self.with_descriptor(fd, Descriptor { bound: true, ..d }))
                }
            },
            EntryView::SocketConnect { fd, addr } => {
                if !self.descriptors.contains_key(fd) {
                    Err(Self::not_open(fd))
                } else {
                    let d = self.descriptors[fd];
                    Ok(self.with_descriptor(fd, Descriptor { connected: true, ..d }))
                }
            },
            EntryView::SocketListen { fd, backlog } => {
                if !self.descriptors.contains_key(fd) {
                    Err(Self::not_open(fd))
                } else {
                    let d = self.descriptors[fd];
                    Ok(self.with_descriptor(fd, Descriptor { listening: true, backlog, ..d }))
                }
            },
            EntryView::SocketAccept { listen_fd, fd, peer } => {
                if !self.descriptors.contains_key(listen_fd) {
                    Err(Self::not_open(listen_fd))
                } else if self.descriptors.contains_key(fd) {
                    Err(JournalError::Replay(ReplayError::DescriptorInUse { fd }))
                } else if fd >= MAX_SLOTS {
                    Err(JournalError::Replay(ReplayError::DescriptorOutOfRange { fd }))
                } else {
                    Ok(
                        self.with_descriptor(
                            fd,
                            spec_accepted_descriptor(self.descriptors[listen_fd]),
                        ),
                    )
                }
            },
            EntryView::SocketSend { fd, .. } => if !self.descriptors.contains_key(fd) {
                Err(Self::not_open(fd))
            } else {
                Ok(self)
            },
            EntryView::SocketReceive { fd, .. } => if !self.descriptors.contains_key(fd) {
                Err(Self::not_open(fd))
            } else {
                Ok(self)
            },
            EntryView::SocketShutdown { fd, how } => {
                if !self.descriptors.contains_key(fd) {
                    Err(Self::not_open(fd))
                } else {
                    let d = self.descriptors[fd];
                    Ok(self.with_descriptor(fd, Descriptor { shutdown: d.shutdown | how, ..d }))
                }
            },
            EntryView::ThreadSpawn { tid } => if self.exit_code.is_some() {
                Err(JournalError::Order(OrderingViolation::ProcessExited))
            } else if self.threads.contains(tid) {
                Err(JournalError::Replay(ReplayError::ThreadInUse { tid }))
            } else if tid >= MAX_SLOTS {
                Err(JournalError::Replay(ReplayError::ThreadOutOfRange { tid }))
            } else {
                Ok(GuestView { threads: self.threads.insert(tid), ..self })
            },
            EntryView::ThreadExit { tid, exit_code } => if !self.threads.contains(tid) {
                Err(JournalError::Order(OrderingViolation::ThreadNotRunning { tid }))
            } else {
                Ok(GuestView { threads: self.threads.remove(tid), ..self })
            },
            EntryView::ProcessExit { exit_code } => if self.exit_code.is_some() {
                Err(JournalError::Order(OrderingViolation::ProcessExited))
            } else {
                Ok(GuestView { exit_code: Some(exit_code), ..self })
            },
            EntryView::Signal { signal } => Ok(
                GuestView { signals: self.signals.push(signal), ..self },
            ),
            EntryView::ClockTime { clock_id, time } => Ok(
                GuestView { clock: Some((clock_id, time)), ..self },
            ),
            EntryView::Random { data } => Ok(GuestView { random: data, ..self }),
            EntryView::Environment { data } => Ok(GuestView { environment: data, ..self }),
            EntryView::Arguments { data } => Ok(GuestView { arguments: data, ..self }),
            EntryView::Unknown { tag, .. } => if self.in_checkpoint {
                Err(
                    JournalError::Serialization(SerializationError::RequiredEntryUnknown { tag }),
                )
            } else {
                Ok(self)
            },
        }
    }

    /// The guest after bytes were written into its linear memory.
    pub open spec fn apply_memory(self, offset: u64, data: Seq<u8>) -> Result<
        GuestView,
        JournalError,
    > {
        if offset + data.len() > self.memory.len() {
            Err(
                JournalError::Replay(
                    ReplayError::MemoryOutOfBounds { offset, len: data.len() as u64 },
                ),
            )
        } else {
            Ok(GuestView { memory: spec_memory_write(self.memory, offset as int, data), ..self })
        }
    }

    /// The guest after a descriptor was opened on the resource under a
    /// path. A path no resource stands under yet gets a new, empty one.
    pub open spec fn apply_open(
        self,
        fd: Fd,
        path: Seq<u8>,
        rights_base: Rights,
        rights_inheriting: Rights,
        flags: u16,
    ) -> Result<GuestView, JournalError> {
        if self.descriptors.contains_key(fd) {
            Err(JournalError::Replay(ReplayError::DescriptorInUse { fd }))
        } else if fd >= MAX_SLOTS {
            Err(JournalError::Replay(ReplayError::DescriptorOutOfRange { fd }))
        } else {
            match spec_find_file(self.files, path, self.files.len() as int) {
                Some(file) => Ok(
                    self.with_descriptor(
                        fd,
                        spec_fresh_descriptor(file as usize, rights_base, rights_inheriting, flags),
                    ),
                ),
                None => Ok(
                    GuestView {
                        files: self.files.push(FileView { path, content: Seq::empty() }),
                        descriptors: self.descriptors.insert(
                            fd,
                            spec_fresh_descriptor(
                                self.files.len() as usize,
                                rights_base,
                                rights_inheriting,
                                flags,
                            ),
                        ),
                        ..self
                    },
                ),
            }
        }
    }

    /// The guest after bytes were written to a descriptor: they stand in
    /// the resource behind it at its cursor, and the cursor stands behind
    /// them.
    pub open spec fn apply_write(self, fd: Fd, data: Seq<u8>) -> Result<GuestView, JournalError> {
        if !self.descriptors.contains_key(fd) {
            Err(Self::not_open(fd))
        } else {
            let d = self.descriptors[fd];
            if d.cursor + data.len() > usize::MAX || d.cursor + data.len() > MAX_CURSOR {
                Err(JournalError::Replay(ReplayError::Overflow))
            } else {
                let file = self.files[d.file as int];
                Ok(
                    GuestView {
                        files: self.files.update(
                            d.file as int,
                            FileView {
                                path: file.path,
                                content: spec_file_write(file.content, d.cursor as int, data),
                            },
                        ),
                        descriptors: self.descriptors.insert(
                            fd,
                            Descriptor { cursor: (d.cursor + data.len()) as u64, ..d },
                        ),
                        ..self
                    },
                )
            }
        }
    }
}

/// Applying an entry leaves the resources of a guest in place: it changes
/// the content of one, or puts a new one last under a path that had none.
pub proof fn lemma_apply_files(g: GuestView, e: EntryView)
    requires
        g.descriptors_fit(),
        g.apply(e).is_ok(),
    ensures
        g.apply(e).unwrap().files.len() >= g.files.len(),
        forall|i: int|
            0 <= i < g.files.len() ==> (#[trigger] g.apply(e).unwrap().files[i]).path
                == g.files[i].path,
        g.apply(e).unwrap().files.len() <= g.files.len() + 1,
        g.apply(e).unwrap().files.len() == g.files.len() + 1 ==> forall|i: int|
            0 <= i < g.files.len() ==> (#[trigger] g.files[i]).path != g.apply(
                e,
            ).unwrap().files.last().path,
{
    match e {
        EntryView::OpenFileDescriptor { fd, path, rights_base, rights_inheriting, flags } => {
            lemma_find_file_none(g.files, path, g.files.len() as int);
            let after = g.apply_open(fd, path, rights_base, rights_inheriting, flags).unwrap();
            assert(g.apply(e).unwrap() == after);
            match spec_find_file(g.files, path, g.files.len() as int) {
                Some(file) => {
                    assert(after.files == g.files);
                },
                None => {
                    assert(after.files == g.files.push(FileView { path, content: Seq::empty() }));
                },
            }
        },
        EntryView::FileDescriptorWrite { fd, data } => {
            let after = g.apply_write(fd, data).unwrap();
            assert(g.apply(e).unwrap() == after);
            let d = g.descriptors[fd];
            assert(g.descriptors.contains_key(fd));
            assert(spec_descriptor_fits(fd, d, g.files.len()));
            assert(after.files.len() == g.files.len());
        },
        _ => {
            assert(g.apply(e).unwrap().files == g.files);
        },
    }
}

/// Applying an entry keeps every resource of a guest in range.
pub proof fn lemma_apply_content(g: GuestView, e: EntryView, i: int)
    requires
        g.descriptors_fit(),
        g.files_fit(),
        g.apply(e).is_ok(),
        0 <= i < g.apply(e).unwrap().files.len(),
    ensures
        g.apply(e).unwrap().files[i].content.len() <= MAX_CURSOR,
{
    lemma_apply_files(g, e);
    let after = g.apply(e).unwrap();
    match e {
        EntryView::OpenFileDescriptor { fd, path, rights_base, rights_inheriting, flags } => {
            let opened = g.apply_open(fd, path, rights_base, rights_inheriting, flags).unwrap();
            assert(after == opened);
            if i < g.files.len() {
                assert(g.files[i].content.len() <= MAX_CURSOR);
            }
        },
        EntryView::FileDescriptorWrite { fd, data } => {
            let written = g.apply_write(fd, data).unwrap();
            assert(after == written);
            let d = g.descriptors[fd];
            assert(g.descriptors.contains_key(fd));
            assert(spec_descriptor_fits(fd, d, g.files.len()));
            assert(g.files[i].content.len() <= MAX_CURSOR);
            assert(g.files[d.file as int].content.len() <= MAX_CURSOR);
        },
        _ => {
            assert(after.files == g.files);
            assert(g.files[i].content.len() <= MAX_CURSOR);
        },
    }
}

/// Applying an entry keeps every descriptor of a guest fitting.
pub proof fn lemma_apply_descriptors(g: GuestView, e: EntryView, fd: Fd)
    requires
        g.descriptors_fit(),
        g.apply(e).is_ok(),
        g.apply(e).unwrap().descriptors.contains_key(fd),
    ensures
        spec_descriptor_fits(
            fd,
            g.apply(e).unwrap().descriptors[fd],
            g.apply(e).unwrap().files.len(),
        ),
{
    let after = g.apply(e).unwrap();
    lemma_apply_files(g, e);
    if g.descriptors.contains_key(fd) {
        assert(spec_descriptor_fits(fd, g.descriptors[fd], g.files.len()));
    }
    match e {
        EntryView::OpenFileDescriptor { path, .. } => {
            lemma_find_file_in_range(g.files, path, g.files.len() as int);
        },
        EntryView::SocketAccept { listen_fd, .. } => {
            assert(g.descriptors.contains_key(listen_fd));
            assert(spec_descriptor_fits(listen_fd, g.descriptors[listen_fd], g.files.len()));
        },
        _ => {},
    }
}

/// Applying an entry keeps every thread of a guest in its slot.
pub proof fn lemma_apply_threads(g: GuestView, e: EntryView, tid: u32)
    requires
        g.threads_fit(),
        g.apply(e).is_ok(),
        g.apply(e).unwrap().threads.contains(tid),
    ensures
        (tid as int) < MAX_SLOTS,
{
    if g.threads.contains(tid) {
    }
}

/// Applying an entry keeps the parts of a guest fitting together.
pub proof fn lemma_apply_keeps_valid(g: GuestView, e: EntryView)
    requires
        g.valid(),
    ensures
        g.apply(e) matches Ok(after) ==> after.valid(),
{
    if g.apply(e).is_ok() {
        let after = g.apply(e).unwrap();
        assert forall|fd: Fd| #[trigger] after.descriptors.contains_key(fd) implies spec_descriptor_fits(
            fd,
            after.descriptors[fd],
            after.files.len(),
        ) by {
            lemma_apply_descriptors(g, e, fd);
        }
        assert forall|tid: u32| #[trigger] after.threads.contains(tid) implies (tid as int)
            < MAX_SLOTS by {
            lemma_apply_threads(g, e, tid);
        }
        lemma_apply_files(g, e);
        assert forall|i: int| 0 <= i < after.files.len() implies (#[trigger] after.files[i]).content.len()
            <= MAX_CURSOR by {
            lemma_apply_content(g, e, i);
        }
        assert forall|i: int, j: int| 0 <= i < j < after.files.len() implies (
        #[trigger] after.files[i]).path != (#[trigger] after.files[j]).path by {
            if j < g.files.len() {
                assert(g.files[i].path != g.files[j].path);
                assert(after.files[i].path == g.files[i].path);
                assert(after.files[j].path == g.files[j].path);
            } else {
                assert(after.files[i].path == g.files[i].path);
                assert(after.files[j] == after.files.last());
            }
        }
    }
}

/// Where no resource is found under a path, none of the resources that
/// were looked at stands under it.
pub proof fn lemma_find_file_none(files: Seq<FileView>, path: Seq<u8>, upto: int)
    ensures
        spec_find_file(files, path, upto).is_none() ==> forall|i: int|
            0 <= i < upto ==> (#[trigger] files[i]).path != path,
    decreases upto,
{
    if upto > 0 {
        lemma_find_file_none(files, path, upto - 1);
    }
}

/// A resource that is found is one of the resources that were looked at.
pub proof fn lemma_find_file_in_range(files: Seq<FileView>, path: Seq<u8>, upto: int)
    ensures
        spec_find_file(files, path, upto) matches Some(found) ==> 0 <= found < upto && files[found].path
            == path,
    decreases upto,
{
    if upto > 0 {
        lemma_find_file_in_range(files, path, upto - 1);
    }
}

/// Once a resource is found among the first resources, it stays the answer
/// however many more are looked at.
pub proof fn lemma_find_file_stays(files: Seq<FileView>, path: Seq<u8>, upto: int, later: int)
    requires
        0 <= upto <= later,
        spec_find_file(files, path, upto).is_some(),
    ensures
        spec_find_file(files, path, later) == spec_find_file(files, path, upto),
    decreases later - upto,
{
    if upto < later {
        lemma_find_file_stays(files, path, upto, later - 1);
    }
}

/// Whether two buffers hold the same bytes.
pub fn bytes_equal(a: &Vec<u8>, b: &Vec<u8>) -> (same: bool)
    ensures
        same == (a@ == b@),
{
    if a.len() != b.len() {
        return false;
    }
    let mut i: usize = 0;
    while i < a.len()
        invariant
            i <= a@.len(),
            a@.len() == b@.len(),
            forall|j: int| 0 <= j < i ==> a@[j] == b@[j],
        decreases a@.len() - i,
    {
        if a[i] != b[i] {
            return false;
        }
        i = i + 1;
    }
    assert(a@ =~= b@);
    true
}

/// Writes bytes into a buffer at a cursor, over what stands there and
/// beyond the end if need be.
pub fn write_at(content: &mut Vec<u8>, cursor: usize, data: &Vec<u8>)
    requires
        cursor + data@.len() <= usize::MAX,
    ensures
        final(content)@ == spec_file_write(old(content)@, cursor as int, data@),
{
    let ghost start = content@;
    while content.len() < cursor
        invariant
            start.len() < cursor ==> content@.len() <= cursor,
            start.len() >= cursor ==> content@.len() == start.len(),
            content@.len() >= start.len(),
            content@ == start + spec_zeros(content@.len() - start.len()),
        decreases cursor - content@.len(),
    {
        let ghost before = content@;
        content.push(0);
        assert(content@ =~= start + spec_zeros(content@.len() - start.len()));
    }
    let ghost padded = content@;
    assert(padded == (if cursor > start.len() {
        start + spec_zeros(cursor - start.len())
    } else {
        start
    })) by {
        if cursor <= start.len() {
            assert(start + spec_zeros(0) =~= start);
        }
    }
    let end = cursor + data.len();
    let mut tail: Vec<u8> = if end < content.len() {
        content.split_off(end)
    } else {
        Vec::new()
    };
    content.truncate(cursor);
    extend_bytes(content, data.as_slice());
    content.append(&mut tail);
    assert(content@ =~= spec_file_write(start, cursor as int, data@));
}

impl View for Guest {
    type V = GuestView;

    closed spec fn view(&self) -> GuestView {
        GuestView {
            memory: self.memory@,
            descriptors: self.descriptors@,
            files: spec_file_views(self.files@),
            threads: self.threads@.dom(),
            exit_code: self.exit_code,
            signals: self.signals@,
            clock: self.clock,
            random: self.random@,
            environment: self.environment@,
            arguments: self.arguments@,
            in_checkpoint: self.in_checkpoint,
        }
    }
}

impl Guest {
    /// Whether the parts of the guest fit together.
    pub closed spec fn well_formed(&self) -> bool {
        &&& self.descriptors.well_formed()
        &&& self.threads.well_formed()
        &&& self@.valid()
    }

    /// A guest with this linear memory and nothing else: no descriptor, no
    /// resource, no thread.
    pub fn new(memory: Vec<u8>) -> (guest: Guest)
        ensures
            guest.well_formed(),
            guest@ == GuestView::fresh(memory@),
    {
        let guest = Guest {
            memory,
            descriptors: SlotTable::new(),
            files: Vec::new(),
            threads: SlotTable::new(),
            exit_code: None,
            signals: Vec::new(),
            clock: None,
            random: Vec::new(),
            environment: Vec::new(),
            arguments: Vec::new(),
            in_checkpoint: false,
        };
        assert(guest@ =~= GuestView::fresh(memory@));
        guest
    }

    /// The linear memory of the guest.
    pub fn memory(&self) -> (memory: &Vec<u8>)
        ensures
            memory@ == self@.memory,
    {
        &self.memory
    }

    /// The descriptor open under a number, if one is.
    pub fn descriptor(&self, fd: Fd) -> (d: Option<Descriptor>)
        ensures
            d == (if self@.descriptors.contains_key(fd) {
                Some(self@.descriptors[fd])
            } else {
                None::<Descriptor>
            }),
    {
        self.descriptors.get(fd)
    }

    /// A number above the number of every open descriptor.
    pub fn descriptor_bound(&self) -> (bound: usize)
        requires
            self.well_formed(),
        ensures
            bound <= MAX_SLOTS,
            forall|fd: Fd| self@.descriptors.contains_key(fd) ==> (fd as int) < bound,
    {
        proof {
            self.descriptors.lemma_bound();
        }
        self.descriptors.bound()
    }

    /// A number above the id of every running thread.
    pub fn thread_bound(&self) -> (bound: usize)
        requires
            self.well_formed(),
        ensures
            bound <= MAX_SLOTS,
            forall|tid: u32| self@.threads.contains(tid) ==> (tid as int) < bound,
    {
        proof {
            self.threads.lemma_bound();
        }
        self.threads.bound()
    }

    /// What is known of a guest whose parts fit together.
    pub proof fn lemma_well_formed(&self)
        requires
            self.well_formed(),
        ensures
            self@.valid(),
            self@.holdable(),
    {
        assert(self.files.len() == self.files@.len());
        assert forall|i: int| 0 <= i < self@.files.len() implies (#[trigger] self@.files[i]).content.len()
            <= usize::MAX by {
            assert(self@.files[i] == self.files@[i]@);
            assert(self.files@[i].content.len() == self.files@[i].content@.len());
        }
    }

    /// How many resources the guest has.
    pub fn file_count(&self) -> (n: usize)
        ensures
            n == self@.files.len(),
    {
        self.files.len()
    }

    /// One of the resources of the guest.
    pub fn file(&self, index: usize) -> (file: &FileResource)
        requires
            index < self@.files.len(),
        ensures
            file@ == self@.files[index as int],
    {
        &self.files[index]
    }

    /// The resource under a path, by its position, if there is one.
    pub fn find_file(&self, path: &Vec<u8>) -> (found: Option<usize>)
        ensures
            match spec_find_file(self@.files, path@, self@.files.len() as int) {
                Some(index) => found == Some(index as usize) && index < self@.files.len(),
                None => found.is_none(),
            },
    {
        let ghost files = self@.files;
        let mut i: usize = 0;
        while i < self.files.len()
            invariant
                i <= self.files@.len(),
                files == self@.files,
                files.len() == self.files@.len(),
                spec_find_file(files, path@, i as int).is_none(),
            decreases self.files@.len() - i,
        {
            assert(files[i as int] == self.files@[i as int]@);
            if bytes_equal(&self.files[i].path, path) {
                proof {
                    lemma_find_file_stays(files, path@, i + 1, files.len() as int);
                }
                return Some(i);
            }
            i = i + 1;
        }
        None
    }

    /// Whether a thread is running.
    pub fn thread_running(&self, tid: u32) -> (running: bool)
        ensures
            running == self@.threads.contains(tid),
    {
        self.threads.get(tid).is_some()
    }

    /// The exit code of the process, once it has exited.
    pub fn exit_code(&self) -> (code: Option<u32>)
        ensures
            code == self@.exit_code,
    {
        self.exit_code
    }

    /// The signals delivered to the process, in order.
    pub fn signals(&self) -> (signals: &Vec<u8>)
        ensures
            signals@ == self@.signals,
    {
        &self.signals
    }

    /// The last clock reading the guest took.
    pub fn clock(&self) -> (clock: Option<(Clockid, Timestamp)>)
        ensures
            clock == self@.clock,
    {
        self.clock
    }

    /// The random bytes the guest was handed last.
    pub fn random(&self) -> (random: &Vec<u8>)
        ensures
            random@ == self@.random,
    {
        &self.random
    }

    /// The environment of the guest.
    pub fn environment(&self) -> (environment: &Vec<u8>)
        ensures
            environment@ == self@.environment,
    {
        &self.environment
    }

    /// The arguments of the guest.
    pub fn arguments(&self) -> (arguments: &Vec<u8>)
        ensures
            arguments@ == self@.arguments,
    {
        &self.arguments
    }

    /// Whether a checkpoint has begun and not ended.
    pub fn in_checkpoint(&self) -> (inside: bool)
        ensures
            inside == self@.in_checkpoint,
    {
        self.in_checkpoint
    }

    /// Puts a descriptor in place of the one open under a number.
    fn replace_descriptor(&mut self, fd: Fd, d: Descriptor)
        requires
            old(self).well_formed(),
            old(self)@.descriptors.contains_key(fd),
            spec_descriptor_fits(fd, d, old(self)@.files.len()),
        ensures
            final(self).well_formed(),
            final(self)@ == old(self)@.with_descriptor(fd, d),
    {
        proof {
            self.descriptors.lemma_bound();
        }
        let placed = self.descriptors.insert(fd, d);
        assert(self@ =~= old(self)@.with_descriptor(fd, d));
    }

    fn apply_memory(&mut self, offset: u64, data: &Vec<u8>) -> (res: Result<(), JournalError>)
        requires
            old(self).well_formed(),
        ensures
            final(self).well_formed(),
            match old(self)@.apply_memory(offset, data@) {
                Ok(after) => res.is_ok() && final(self)@ == after,
                Err(err) => res == Err::<(), JournalError>(err) && final(self)@ == old(self)@,
            },
    {
        let size = self.memory.len();
        let len = data.len();
        if offset > size as u64 || len as u64 > size as u64 - offset {
            return Err(
                JournalError::Replay(ReplayError::MemoryOutOfBounds { offset, len: len as u64 }),
            );
        }
        let base = offset as usize;
        let mut i: usize = 0;
        while i < len
            invariant
                i <= len,
                len == data@.len(),
                base + len <= size,
                size == self.memory@.len(),
                self.memory@.len() == old(self).memory@.len(),
                self.descriptors == old(self).descriptors,
                self.files == old(self).files,
                self.threads == old(self).threads,
                self.exit_code == old(self).exit_code,
                self.signals == old(self).signals,
                self.clock == old(self).clock,
                self.random == old(self).random,
                self.environment == old(self).environment,
                self.arguments == old(self).arguments,
                self.in_checkpoint == old(self).in_checkpoint,
                forall|j: int|
                    0 <= j < size ==> self.memory@[j] == (if base <= j < base + i {
                        data@[j - base]
                    } else {
                        old(self).memory@[j]
                    }),
            decreases len - i,
        {
            self.memory.set(base + i, data[i]);
            i = i + 1;
        }
        assert(self.memory@ =~= spec_memory_write(old(self).memory@, offset as int, data@));
        assert(self@ =~= old(self)@.apply_memory(offset, data@).unwrap());
        Ok(())
    }

    fn apply_open(
        &mut self,
        fd: Fd,
        path: &Vec<u8>,
        rights_base: Rights,
        rights_inheriting: Rights,
        flags: u16,
    ) -> (res: Result<(), JournalError>)
        requires
            old(self).well_formed(),
        ensures
            final(self).well_formed(),
            match old(self)@.apply_open(fd, path@, rights_base, rights_inheriting, flags) {
                Ok(after) => res.is_ok() && final(self)@ == after,
                Err(err) => res == Err::<(), JournalError>(err) && final(self)@ == old(self)@,
            },
    {
        if self.descriptors.get(fd).is_some() {
            return Err(JournalError::Replay(ReplayError::DescriptorInUse { fd }));
        }
        if fd as usize >= MAX_SLOTS {
            return Err(JournalError::Replay(ReplayError::DescriptorOutOfRange { fd }));
        }
        let file = match self.find_file(path) {
            Some(index) => index,
            None => {
                let ghost before = self.files@;
                self.files.push(FileResource { path: clone_bytes(path), content: Vec::new() });
                assert(spec_file_views(self.files@) =~= spec_file_views(before).push(
                    FileView { path: path@, content: Seq::empty() },
                ));
                self.files.len() - 1
            },
        };
        let d = Descriptor {
            file,
            cursor: 0,
            rights_base,
            rights_inheriting,
            flags,
            bound: false,
            connected: false,
            listening: false,
            backlog: 0,
            shutdown: 0,
        };
        let placed = self.descriptors.insert(fd, d);
        proof {
            let after = old(self)@.apply_open(fd, path@, rights_base, rights_inheriting, flags).unwrap();
            assert(self@ =~= after);
            lemma_apply_keeps_valid(
                old(self)@,
                EntryView::OpenFileDescriptor {
                    fd,
                    path: path@,
                    rights_base,
                    rights_inheriting,
                    flags,
                },
            );
        }
        Ok(())
    }

    fn apply_write(&mut self, fd: Fd, data: &Vec<u8>) -> (res: Result<(), JournalError>)
        requires
            old(self).well_formed(),
        ensures
            final(self).well_formed(),
            match old(self)@.apply_write(fd, data@) {
                Ok(after) => res.is_ok() && final(self)@ == after,
                Err(err) => res == Err::<(), JournalError>(err) && final(self)@ == old(self)@,
            },
    {
        let d = match self.descriptors.get(fd) {
            Some(d) => d,
            None => {
                return Err(JournalError::Order(OrderingViolation::DescriptorNotOpen { fd }));
            },
        };
        let len = data.len();
        if d.cursor > usize::MAX as u64 || len > usize::MAX - d.cursor as usize || len as u64
            > MAX_CURSOR - d.cursor {
            return Err(JournalError::Replay(ReplayError::Overflow));
        }
        let ghost before = self.files@;
        assert(d.file < self.files@.len());
        write_at(&mut self.files[d.file].content, d.cursor as usize, data);
        proof {
            assert(spec_file_views(self.files@) =~= spec_file_views(before).update(
                d.file as int,
                FileView {
                    path: before[d.file as int].path@,
                    content: spec_file_write(before[d.file as int].content@, d.cursor as int, data@),
                },
            ));
            self.descriptors.lemma_bound();
        }
        let moved = Descriptor { cursor: d.cursor + len as u64, ..d };
        let placed = self.descriptors.insert(fd, moved);
        proof {
            let after = old(self)@.apply_write(fd, data@).unwrap();
            assert(self@ =~= after);
            lemma_apply_keeps_valid(old(self)@, EntryView::FileDescriptorWrite { fd, data: data@ });
        }
        Ok(())
    }

    /// Applies an entry that changes one open descriptor and nothing else.
    fn apply_descriptor(&mut self, fd: Fd, entry: &JournalEntry) -> (res: Result<
        (),
        JournalError,
    >)
        requires
            old(self).well_formed(),
            match entry@ {
                EntryView::SeekFileDescriptor { fd: of, .. } => of == fd,
                EntryView::SetFileDescriptorRights { fd: of, .. } => of == fd,
                EntryView::SetFileDescriptorFlags { fd: of, .. } => of == fd,
                EntryView::FileDescriptorRead { fd: of, .. } => of == fd,
                EntryView::SocketBind { fd: of, .. } => of == fd,
                EntryView::SocketConnect { fd: of, .. } => of == fd,
                EntryView::SocketListen { fd: of, .. } => of == fd,
                EntryView::SocketSend { fd: of, .. } => of == fd,
                EntryView::SocketReceive { fd: of, .. } => of == fd,
                EntryView::SocketShutdown { fd: of, .. } => of == fd,
                _ => false,
            },
        ensures
            final(self).well_formed(),
            match old(self)@.apply(entry@) {
                Ok(after) => res.is_ok() && final(self)@ == after,
                Err(err) => res == Err::<(), JournalError>(err) && final(self)@ == old(self)@,
            },
    {
        let d = match self.descriptors.get(fd) {
            Some(d) => d,
            None => {
                return Err(JournalError::Order(OrderingViolation::DescriptorNotOpen { fd }));
            },
        };
        let overflow = Err(JournalError::Replay(ReplayError::Overflow));
        let moved = match entry {
            JournalEntry::SeekFileDescriptor { offset, whence, .. } => {
                let base: i128 = match whence {
                    Whence::Start => 0,
                    Whence::Current => d.cursor as i128,
                    Whence::End => {
                        assert(d.file < self.files@.len());
                        self.files[d.file].content.len() as i128
                    },
                };
                let target: i128 = base + (*offset as i128);
                if target < 0 || target > MAX_CURSOR as i128 {
                    return overflow;
                }
                Descriptor { cursor: target as u64, ..d }
            },
            JournalEntry::SetFileDescriptorRights { rights_base, rights_inheriting, .. } => {
                Descriptor { rights_base: *rights_base, rights_inheriting: *rights_inheriting, ..d }
            },
            JournalEntry::SetFileDescriptorFlags { flags, .. } => Descriptor { flags: *flags, ..d },
            JournalEntry::FileDescriptorRead { data, .. } => {
                let len = data.len() as u64;
                if len > MAX_CURSOR - d.cursor {
                    return overflow;
                }
                Descriptor { cursor: d.cursor + len, ..d }
            },
            JournalEntry::SocketBind { .. } => Descriptor { bound: true, ..d },
            JournalEntry::SocketConnect { .. } => Descriptor { connected: true, ..d },
            JournalEntry::SocketListen { backlog, .. } => Descriptor {
                listening: true,
                backlog: *backlog,
                ..d
            },
            JournalEntry::SocketSend { .. } | JournalEntry::SocketReceive { .. } => {
                return Ok(());
            },
            JournalEntry::SocketShutdown { how, .. } => Descriptor {
                shutdown: d.shutdown | *how,
                ..d
            },
            _ => d,
        };
        self.replace_descriptor(fd, moved);
        Ok(())
    }

    /// Applies an entry that opens or closes a descriptor on a socket.
    fn apply_table(&mut self, entry: &JournalEntry) -> (res: Result<(), JournalError>)
        requires
            old(self).well_formed(),
            entry@ is CloseFileDescriptor || entry@ is SocketAccept,
        ensures
            final(self).well_formed(),
            match old(self)@.apply(entry@) {
                Ok(after) => res.is_ok() && final(self)@ == after,
                Err(err) => res == Err::<(), JournalError>(err) && final(self)@ == old(self)@,
            },
    {
        proof {
            lemma_apply_keeps_valid(old(self)@, entry@);
        }
        match entry {
            JournalEntry::CloseFileDescriptor { fd } => {
                if self.descriptors.get(*fd).is_none() {
                    return Err(
                        JournalError::Order(OrderingViolation::DescriptorNotOpen { fd: *fd }),
                    );
                }
                self.descriptors.remove(*fd);
                assert(self@ =~= old(self)@.apply(entry@).unwrap());
                Ok(())
            },
            JournalEntry::SocketAccept { listen_fd, fd, .. } => {
                let listener = match self.descriptors.get(*listen_fd) {
                    Some(d) => d,
                    None => {
                        return Err(
                            JournalError::Order(
                                OrderingViolation::DescriptorNotOpen { fd: *listen_fd },
                            ),
                        );
                    },
                };
                if self.descriptors.get(*fd).is_some() {
                    return Err(JournalError::Replay(ReplayError::DescriptorInUse { fd: *fd }));
                }
                if *fd as usize >= MAX_SLOTS {
                    return Err(
                        JournalError::Replay(ReplayError::DescriptorOutOfRange { fd: *fd }),
                    );
                }
                let accepted = Descriptor {
                    file: listener.file,
                    cursor: 0,
                    rights_base: listener.rights_inheriting,
                    rights_inheriting: listener.rights_inheriting,
                    flags: listener.flags,
                    bound: true,
                    connected: true,
                    listening: false,
                    backlog: 0,
                    shutdown: 0,
                };
                let placed = self.descriptors.insert(*fd, accepted);
                assert(self@ =~= old(self)@.apply(entry@).unwrap());
                Ok(())
            },
            _ => Ok(()),
        }
    }

    /// Applies an entry that speaks of threads, the exit code or signals.
    fn apply_process(&mut self, entry: &JournalEntry) -> (res: Result<(), JournalError>)
        requires
            old(self).well_formed(),
            entry@ is ThreadSpawn || entry@ is ThreadExit || entry@ is ProcessExit
                || entry@ is Signal,
        ensures
            final(self).well_formed(),
            match old(self)@.apply(entry@) {
                Ok(after) => res.is_ok() && final(self)@ == after,
                Err(err) => res == Err::<(), JournalError>(err) && final(self)@ == old(self)@,
            },
    {
        proof {
            lemma_apply_keeps_valid(old(self)@, entry@);
        }
        match entry {
            JournalEntry::ThreadSpawn { tid } => {
                if self.exit_code.is_some() {
                    return Err(JournalError::Order(OrderingViolation::ProcessExited));
                }
                if self.threads.get(*tid).is_some() {
                    return Err(JournalError::Replay(ReplayError::ThreadInUse { tid: *tid }));
                }
                if *tid as usize >= MAX_SLOTS {
                    return Err(JournalError::Replay(ReplayError::ThreadOutOfRange { tid: *tid }));
                }
                let placed = self.threads.insert(*tid, ());
                assert(self@.threads =~= old(self)@.threads.insert(*tid));
                assert(self@ =~= old(self)@.apply(entry@).unwrap());
                Ok(())
            },
            JournalEntry::ThreadExit { tid, .. } => {
                if self.threads.get(*tid).is_none() {
                    return Err(
                        JournalError::Order(OrderingViolation::ThreadNotRunning { tid: *tid }),
                    );
                }
                self.threads.remove(*tid);
                assert(self@.threads =~= old(self)@.threads.remove(*tid));
                assert(self@ =~= old(self)@.apply(entry@).unwrap());
                Ok(())
            },
            JournalEntry::ProcessExit { exit_code } => {
                if self.exit_code.is_some() {
                    return Err(JournalError::Order(OrderingViolation::ProcessExited));
                }
                self.exit_code = Some(*exit_code);
                assert(self@ =~= old(self)@.apply(entry@).unwrap());
                Ok(())
            },
            JournalEntry::Signal { signal } => {
                self.signals.push(*signal);
                assert(self@ =~= old(self)@.apply(entry@).unwrap());
                Ok(())
            },
            _ => Ok(()),
        }
    }

    /// Applies an entry that tells the guest of the world, or marks a
    /// checkpoint, or is of a kind this version does not know.
    fn apply_plain(&mut self, entry: &JournalEntry) -> (res: Result<(), JournalError>)
        requires
            old(self).well_formed(),
            entry@ is CheckpointBegin || entry@ is CheckpointEnd || entry@ is ClockTime
                || entry@ is Random || entry@ is Environment || entry@ is Arguments
                || entry@ is Unknown,
        ensures
            final(self).well_formed(),
            match old(self)@.apply(entry@) {
                Ok(after) => res.is_ok() && final(self)@ == after,
                Err(err) => res == Err::<(), JournalError>(err) && final(self)@ == old(self)@,
            },
    {
        proof {
            lemma_apply_keeps_valid(old(self)@, entry@);
        }
        match entry {
            JournalEntry::CheckpointBegin => {
                if self.in_checkpoint {
                    return Err(JournalError::Order(OrderingViolation::UnbalancedCheckpoint));
                }
                self.in_checkpoint = true;
            },
            JournalEntry::CheckpointEnd => {
                if !self.in_checkpoint {
                    return Err(JournalError::Order(OrderingViolation::UnbalancedCheckpoint));
                }
                self.in_checkpoint = false;
            },
            JournalEntry::ClockTime { clock_id, time } => {
                self.clock = Some((*clock_id, *time));
            },
            JournalEntry::Random { data } => {
                self.random = clone_bytes(data);
            },
            JournalEntry::Environment { data } => {
                self.environment = clone_bytes(data);
            },
            JournalEntry::Arguments { data } => {
                self.arguments = clone_bytes(data);
            },
            JournalEntry::Unknown { tag, .. } => {
                if self.in_checkpoint {
                    return Err(
                        JournalError::Serialization(
                            SerializationError::RequiredEntryUnknown { tag: *tag },
                        ),
                    );
                }
            },
            _ => {},
        }
        assert(self@ =~= old(self)@.apply(entry@).unwrap());
        Ok(())
    }

    /// Applies one entry to the guest: one step of replay. An entry that
    /// cannot be applied is answered with the reason and leaves the guest
    /// as it was.
    pub fn apply(&mut self, entry: &JournalEntry) -> (res: Result<(), JournalError>)
        requires
            old(self).well_formed(),
        ensures
            final(self).well_formed(),
            match old(self)@.apply(entry@) {
                Ok(after) => res.is_ok() && final(self)@ == after,
                Err(err) => res == Err::<(), JournalError>(err) && final(self)@ == old(self)@,
            },
    {
        match entry {
            JournalEntry::MemorySnapshot { offset, data } => self.apply_memory(*offset, data),
            JournalEntry::MemoryDiff { offset, data } => self.apply_memory(*offset, data),
            JournalEntry::OpenFileDescriptor {
                fd,
                path,
                rights_base,
                rights_inheriting,
                flags,
            } => self.apply_open(*fd, path, *rights_base, *rights_inheriting, *flags),
            JournalEntry::FileDescriptorWrite { fd, data } => self.apply_write(*fd, data),
            JournalEntry::SeekFileDescriptor { fd, .. } => self.apply_descriptor(*fd, entry),
            JournalEntry::SetFileDescriptorRights { fd, .. } => self.apply_descriptor(*fd, entry),
            JournalEntry::SetFileDescriptorFlags { fd, .. } => self.apply_descriptor(*fd, entry),
            JournalEntry::FileDescriptorRead { fd, .. } => self.apply_descriptor(*fd, entry),
            JournalEntry::SocketBind { fd, .. } => self.apply_descriptor(*fd, entry),
            JournalEntry::SocketConnect { fd, .. } => self.apply_descriptor(*fd, entry),
            JournalEntry::SocketListen { fd, .. } => self.apply_descriptor(*fd, entry),
            JournalEntry::SocketSend { fd, .. } => self.apply_descriptor(*fd, entry),
            JournalEntry::SocketReceive { fd, .. } => self.apply_descriptor(*fd, entry),
            JournalEntry::SocketShutdown { fd, .. } => self.apply_descriptor(*fd, entry),
            JournalEntry::CloseFileDescriptor { .. } => self.apply_table(entry),
            JournalEntry::SocketAccept { .. } => self.apply_table(entry),
            JournalEntry::ThreadSpawn { .. } => self.apply_process(entry),
            JournalEntry::ThreadExit { .. } => self.apply_process(entry),
            JournalEntry::ProcessExit { .. } => self.apply_process(entry),
            JournalEntry::Signal { .. } => self.apply_process(entry),
            _ => self.apply_plain(entry),
        }
    }
}

} // verus!
