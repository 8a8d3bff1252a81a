use wasmer_journal::journal::checkpoint::snapshot;
use wasmer_journal::journal::entry::{JournalEntry, Whence};
use wasmer_journal::journal::error::{
    JournalError, OrderingViolation, ReplayError, SerializationError,
};
use wasmer_journal::journal::guest::{Descriptor, Guest, MAX_CURSOR};
use wasmer_journal::journal::log::LogJournal;
use wasmer_journal::journal::memory::MemoryJournal;
use wasmer_journal::journal::replay::{
    replay, scan_checkpoints, CheckpointScan, ReplayDriver, ReplayFailure, ReplayState,
};
use wasmer_journal::journal::slots::MAX_SLOTS;
use wasmer_journal::journal::traits::WritableJournal;
use wasmer_journal::wasi_types::{Addressfamily, __wasi_addr_port_t, __wasi_addr_port_u};

fn open(fd: u32, path: &[u8]) -> JournalEntry {
    JournalEntry::OpenFileDescriptor {
        fd,
        path: path.to_vec(),
        rights_base: 0xff,
        rights_inheriting: 0x0f,
        flags: 1,
    }
}

fn write(fd: u32, data: &[u8]) -> JournalEntry {
    JournalEntry::FileDescriptorWrite { fd, data: data.to_vec() }
}

fn close(fd: u32) -> JournalEntry {
    JournalEntry::CloseFileDescriptor { fd }
}

fn journal_of(entries: &[JournalEntry]) -> MemoryJournal {
    let mut journal = MemoryJournal::new();
    journal.extend(entries).unwrap();
    journal
}

fn content<'a>(guest: &'a Guest, path: &[u8]) -> Option<&'a Vec<u8>> {
    guest.find_file(&path.to_vec()).map(|i| &guest.file(i).content)
}

fn same(a: &Guest, b: &Guest) {
    assert_eq!(a.memory(), b.memory());
    assert_eq!(a.file_count(), b.file_count());
    for i in 0..a.file_count() {
        assert_eq!(a.file(i), b.file(i));
    }
    for fd in 0..64 {
        assert_eq!(a.descriptor(fd), b.descriptor(fd));
        assert_eq!(a.thread_running(fd), b.thread_running(fd));
    }
    assert_eq!(a.exit_code(), b.exit_code());
    assert_eq!(a.signals(), b.signals());
    assert_eq!(a.clock(), b.clock());
    assert_eq!(a.random(), b.random());
    assert_eq!(a.environment(), b.environment());
    assert_eq!(a.arguments(), b.arguments());
    assert_eq!(a.in_checkpoint(), b.in_checkpoint());
}

#[test]
fn record_then_replay_end_to_end() {
    // the guest as it runs, with every effect journaled
    let mut live = Guest::new(vec![0; 64]);
    let mut journal = LogJournal::new();
    for entry in [open(3, b"/out"), write(3, b"hi"), close(3)] {
        live.apply(&entry).unwrap();
        journal.write(entry).unwrap();
    }
    for entry in snapshot(&live) {
        journal.write(entry).unwrap();
    }
    // storage and back
    let stored = journal.bytes().clone();
    let reopened = LogJournal::open(stored, None);
    // a fresh runtime
    let restored = replay(&reopened, Guest::new(vec![0; 64])).unwrap();
    assert_eq!(restored.descriptor(3), None);
    assert_eq!(content(&restored, b"/out"), Some(&b"hi".to_vec()));
    same(&restored, &live);
}

#[test]
fn replay_without_a_checkpoint_starts_at_the_beginning() {
    let journal = journal_of(&[open(3, b"/out"), write(3, b"hi"), close(3)]);
    let guest = replay(&journal, Guest::new(Vec::new())).unwrap();
    assert_eq!(guest.descriptor(3), None);
    assert_eq!(content(&guest, b"/out"), Some(&b"hi".to_vec()));
    assert_eq!(scan_checkpoints(&journal), Ok(CheckpointScan { open: None, last: None }));
}

#[test]
fn replay_starts_at_the_last_complete_checkpoint() {
    let journal = journal_of(&[
        // what came before the checkpoints is stepped over
        close(9),
        JournalEntry::CheckpointBegin,
        JournalEntry::ClockTime { clock_id: 0, time: 1 },
        JournalEntry::CheckpointEnd,
        JournalEntry::Signal { signal: 1 },
        JournalEntry::CheckpointBegin,
        JournalEntry::ClockTime { clock_id: 0, time: 2 },
        JournalEntry::CheckpointEnd,
        JournalEntry::Signal { signal: 2 },
        // a checkpoint that never ended is left out, with all behind it
        JournalEntry::CheckpointBegin,
        JournalEntry::ClockTime { clock_id: 0, time: 3 },
    ]);
    assert_eq!(
        scan_checkpoints(&journal),
        Ok(CheckpointScan { open: Some(9), last: Some(5) })
    );
    let guest = replay(&journal, Guest::new(Vec::new())).unwrap();
    assert_eq!(guest.clock(), Some((0, 2)));
    assert_eq!(guest.signals(), &vec![2]);
    assert!(!guest.in_checkpoint());
}

#[test]
fn an_entry_beyond_linear_memory_fails_replay() {
    let journal = journal_of(&[
        JournalEntry::MemoryDiff { offset: 0, data: vec![1; 8] },
        JournalEntry::MemoryDiff { offset: 4, data: vec![2; 5] },
        JournalEntry::MemoryDiff { offset: 0, data: vec![3; 8] },
    ]);
    assert_eq!(
        replay(&journal, Guest::new(vec![0; 8])).unwrap_err(),
        ReplayFailure {
            index: 1,
            error: JournalError::Replay(ReplayError::MemoryOutOfBounds { offset: 4, len: 5 })
        }
    );
    let far = journal_of(&[JournalEntry::MemorySnapshot { offset: u64::MAX, data: vec![1] }]);
    assert_eq!(
        replay(&far, Guest::new(vec![0; 8])).unwrap_err().error,
        JournalError::Replay(ReplayError::MemoryOutOfBounds { offset: u64::MAX, len: 1 })
    );
}

#[test]
fn memory_entries_write_their_region() {
    let mut guest = Guest::new(vec![0; 8]);
    guest.apply(&JournalEntry::MemorySnapshot { offset: 2, data: vec![1, 2, 3] }).unwrap();
    guest.apply(&JournalEntry::MemoryDiff { offset: 4, data: vec![9, 9, 9, 9] }).unwrap();
    assert_eq!(guest.memory(), &vec![0, 0, 1, 2, 9, 9, 9, 9]);
    guest.apply(&JournalEntry::MemoryDiff { offset: 8, data: vec![] }).unwrap();
    assert_eq!(guest.memory(), &vec![0, 0, 1, 2, 9, 9, 9, 9]);
}

#[test]
fn an_entry_out_of_order_fails_replay() {
    let not_open = |fd| JournalError::Order(OrderingViolation::DescriptorNotOpen { fd });
    let mut guest = Guest::new(Vec::new());
    assert_eq!(guest.apply(&write(3, b"hi")), Err(not_open(3)));
    assert_eq!(guest.apply(&close(3)), Err(not_open(3)));
    assert_eq!(
        guest.apply(&JournalEntry::SeekFileDescriptor { fd: 3, offset: 0, whence: Whence::Start }),
        Err(not_open(3))
    );
    assert_eq!(guest.apply(&JournalEntry::SocketListen { fd: 4, backlog: 1 }), Err(not_open(4)));
    assert_eq!(
        guest.apply(&JournalEntry::SocketSend { fd: 4, data: vec![], flags: 0 }),
        Err(not_open(4))
    );
    assert_eq!(
        guest.apply(&JournalEntry::ThreadExit { tid: 1, exit_code: 0 }),
        Err(JournalError::Order(OrderingViolation::ThreadNotRunning { tid: 1 }))
    );
    assert_eq!(
        guest.apply(&JournalEntry::CheckpointEnd),
        Err(JournalError::Order(OrderingViolation::UnbalancedCheckpoint))
    );
    guest.apply(&JournalEntry::CheckpointBegin).unwrap();
    assert_eq!(
        guest.apply(&JournalEntry::CheckpointBegin),
        Err(JournalError::Order(OrderingViolation::UnbalancedCheckpoint))
    );
    guest.apply(&JournalEntry::ProcessExit { exit_code: 1 }).unwrap();
    let exited = Err(JournalError::Order(OrderingViolation::ProcessExited));
    assert_eq!(guest.apply(&JournalEntry::ProcessExit { exit_code: 2 }), exited);
    assert_eq!(guest.apply(&JournalEntry::ThreadSpawn { tid: 1 }), exited);
    assert_eq!(guest.exit_code(), Some(1));
}

#[test]
fn a_conflict_fails_replay() {
    let mut guest = Guest::new(Vec::new());
    guest.apply(&open(3, b"/a")).unwrap();
    assert_eq!(
        guest.apply(&open(3, b"/b")),
        Err(JournalError::Replay(ReplayError::DescriptorInUse { fd: 3 }))
    );
    assert_eq!(guest.file_count(), 1);
    assert_eq!(
        guest.apply(&open(MAX_SLOTS as u32, b"/b")),
        Err(JournalError::Replay(ReplayError::DescriptorOutOfRange { fd: MAX_SLOTS as u32 }))
    );
    guest.apply(&JournalEntry::ThreadSpawn { tid: 7 }).unwrap();
    assert_eq!(
        guest.apply(&JournalEntry::ThreadSpawn { tid: 7 }),
        Err(JournalError::Replay(ReplayError::ThreadInUse { tid: 7 }))
    );
    assert_eq!(
        guest.apply(&JournalEntry::ThreadSpawn { tid: u32::MAX }),
        Err(JournalError::Replay(ReplayError::ThreadOutOfRange { tid: u32::MAX }))
    );
    assert_eq!(
        guest.apply(&JournalEntry::SeekFileDescriptor { fd: 3, offset: -1, whence: Whence::Start }),
        Err(JournalError::Replay(ReplayError::Overflow))
    );
    guest
        .apply(&JournalEntry::SeekFileDescriptor {
            fd: 3,
            offset: i64::MAX,
            whence: Whence::Start,
        })
        .unwrap();
    assert_eq!(guest.descriptor(3).unwrap().cursor, MAX_CURSOR);
    assert_eq!(
        guest.apply(&JournalEntry::FileDescriptorRead { fd: 3, data: vec![1] }),
        Err(JournalError::Replay(ReplayError::Overflow))
    );
    assert_eq!(guest.apply(&write(3, b"x")), Err(JournalError::Replay(ReplayError::Overflow)));
}

#[test]
fn descriptors_follow_their_entries() {
    let addr = __wasi_addr_port_t {
        tag: Addressfamily::Inet4,
        u: __wasi_addr_port_u { octs: [1; 18] },
    };
    let mut guest = Guest::new(Vec::new());
    guest.apply(&open(3, b"/a")).unwrap();
    guest.apply(&write(3, b"hello world")).unwrap();
    guest
        .apply(&JournalEntry::SeekFileDescriptor { fd: 3, offset: -5, whence: Whence::End })
        .unwrap();
    assert_eq!(guest.descriptor(3).unwrap().cursor, 6);
    guest.apply(&write(3, b"W")).unwrap();
    guest
        .apply(&JournalEntry::SeekFileDescriptor { fd: 3, offset: 7, whence: Whence::Current })
        .unwrap();
    // a write beyond the end leaves zeros between
    guest.apply(&write(3, b"!")).unwrap();
    assert_eq!(guest.file(0).content, b"hello World\0\0\0!".to_vec());
    guest.apply(&JournalEntry::FileDescriptorRead { fd: 3, data: vec![0; 5] }).unwrap();
    guest
        .apply(&JournalEntry::SetFileDescriptorRights { fd: 3, rights_base: 1, rights_inheriting: 2 })
        .unwrap();
    guest.apply(&JournalEntry::SetFileDescriptorFlags { fd: 3, flags: 4 }).unwrap();
    guest.apply(&JournalEntry::SocketBind { fd: 3, addr }).unwrap();
    guest.apply(&JournalEntry::SocketListen { fd: 3, backlog: 10 }).unwrap();
    guest.apply(&JournalEntry::SocketShutdown { fd: 3, how: 1 }).unwrap();
    guest.apply(&JournalEntry::SocketShutdown { fd: 3, how: 2 }).unwrap();
    guest.apply(&JournalEntry::SocketSend { fd: 3, data: vec![1], flags: 0 }).unwrap();
    guest.apply(&JournalEntry::SocketReceive { fd: 3, data: vec![1], flags: 0 }).unwrap();
    let listener = Descriptor {
        file: 0,
        cursor: 20,
        rights_base: 1,
        rights_inheriting: 2,
        flags: 4,
        bound: true,
        connected: false,
        listening: true,
        backlog: 10,
        shutdown: 3,
    };
    assert_eq!(guest.descriptor(3), Some(listener));
    guest.apply(&JournalEntry::SocketAccept { listen_fd: 3, fd: 4, peer: addr }).unwrap();
    guest.apply(&JournalEntry::SocketConnect { fd: 4, addr }).unwrap();
    assert_eq!(
        guest.descriptor(4),
        Some(Descriptor {
            file: 0,
            cursor: 0,
            rights_base: 2,
            rights_inheriting: 2,
            flags: 4,
            bound: true,
            connected: true,
            listening: false,
            backlog: 0,
            shutdown: 0,
        })
    );
    // a second descriptor on the same path shares the resource
    guest.apply(&open(5, b"/a")).unwrap();
    assert_eq!(guest.file_count(), 1);
    assert_eq!(guest.descriptor(5).unwrap().file, 0);
    guest.apply(&close(3)).unwrap();
    assert_eq!(guest.descriptor(3), None);
}

#[test]
fn what_the_guest_was_told_is_kept() {
    let mut guest = Guest::new(Vec::new());
    guest.apply(&JournalEntry::ClockTime { clock_id: 1, time: 5 }).unwrap();
    guest.apply(&JournalEntry::Random { data: vec![1, 2] }).unwrap();
    guest.apply(&JournalEntry::Environment { data: b"A=1\0".to_vec() }).unwrap();
    guest.apply(&JournalEntry::Arguments { data: b"p\0".to_vec() }).unwrap();
    guest.apply(&JournalEntry::Signal { signal: 2 }).unwrap();
    guest.apply(&JournalEntry::Signal { signal: 15 }).unwrap();
    guest.apply(&JournalEntry::ThreadSpawn { tid: 1 }).unwrap();
    guest.apply(&JournalEntry::ThreadSpawn { tid: 2 }).unwrap();
    guest.apply(&JournalEntry::ThreadExit { tid: 1, exit_code: 0 }).unwrap();
    assert_eq!(guest.clock(), Some((1, 5)));
    assert_eq!(guest.random(), &vec![1, 2]);
    assert_eq!(guest.environment(), &b"A=1\0".to_vec());
    assert_eq!(guest.arguments(), &b"p\0".to_vec());
    assert_eq!(guest.signals(), &vec![2, 15]);
    assert!(!guest.thread_running(1));
    assert!(guest.thread_running(2));
}

#[test]
fn an_unknown_entry_is_stepped_over_unless_it_stands_in_a_checkpoint() {
    let unknown = JournalEntry::Unknown { tag: 500, words: vec![1], data: vec![2] };
    let mut guest = Guest::new(vec![0; 4]);
    assert_eq!(guest.apply(&unknown), Ok(()));
    guest.apply(&JournalEntry::CheckpointBegin).unwrap();
    assert_eq!(
        guest.apply(&unknown),
        Err(JournalError::Serialization(SerializationError::RequiredEntryUnknown { tag: 500 }))
    );
}

#[test]
fn a_checkpoint_restores_the_guest_it_was_taken_of() {
    let mut live = Guest::new(vec![0; 16]);
    let addr = __wasi_addr_port_t {
        tag: Addressfamily::Inet6,
        u: __wasi_addr_port_u { octs: [7; 18] },
    };
    let history = vec![
        JournalEntry::Arguments { data: b"prog\0".to_vec() },
        JournalEntry::Environment { data: b"HOME=/\0".to_vec() },
        JournalEntry::MemoryDiff { offset: 3, data: vec![1, 2, 3] },
        open(0, b"/dev/stdin"),
        open(3, b"/a"),
        write(3, b"first"),
        open(4, b"/b"),
        write(4, b"second"),
        close(3),
        open(7, b"/a"),
        JournalEntry::SeekFileDescriptor { fd: 7, offset: 2, whence: Whence::Start },
        open(9, b"tcp"),
        JournalEntry::SocketBind { fd: 9, addr },
        JournalEntry::SocketListen { fd: 9, backlog: 3 },
        JournalEntry::SocketAccept { listen_fd: 9, fd: 10, peer: addr },
        JournalEntry::SocketShutdown { fd: 10, how: 2 },
        JournalEntry::ThreadSpawn { tid: 1 },
        JournalEntry::ThreadSpawn { tid: 5 },
        JournalEntry::Signal { signal: 3 },
        JournalEntry::ClockTime { clock_id: 2, time: 99 },
        JournalEntry::Random { data: vec![4, 4] },
        JournalEntry::ProcessExit { exit_code: 3 },
    ];
    let mut journal = MemoryJournal::new();
    for entry in history {
        live.apply(&entry).unwrap();
        journal.write(entry).unwrap();
    }
    let checkpoint = snapshot(&live);
    assert_eq!(checkpoint.first(), Some(&JournalEntry::CheckpointBegin));
    assert_eq!(checkpoint.last(), Some(&JournalEntry::CheckpointEnd));
    // the checkpoint alone
    same(&replay(&journal_of(&checkpoint), Guest::new(vec![0; 16])).unwrap(), &live);
    // the checkpoint behind the history
    journal.extend(&checkpoint).unwrap();
    same(&replay(&journal, Guest::new(vec![0; 16])).unwrap(), &live);
    // and the guest goes on from there
    let mut next = live;
    for entry in [JournalEntry::Signal { signal: 4 }, write(4, b"!")] {
        next.apply(&entry).unwrap();
        journal.write(entry).unwrap();
    }
    same(&replay(&journal, Guest::new(vec![0; 16])).unwrap(), &next);
}

#[test]
fn a_checkpoint_of_a_new_guest() {
    let live = Guest::new(vec![5; 3]);
    assert_eq!(
        snapshot(&live),
        vec![
            JournalEntry::CheckpointBegin,
            JournalEntry::MemorySnapshot { offset: 0, data: vec![5; 3] },
            JournalEntry::Environment { data: vec![] },
            JournalEntry::Arguments { data: vec![] },
            JournalEntry::Random { data: vec![] },
            JournalEntry::CheckpointEnd,
        ]
    );
}

#[test]
fn the_driver_gives_the_guest_only_when_it_is_done() {
    let mut driver = ReplayDriver::new(Guest::new(vec![0; 4]));
    assert_eq!(driver.state(), ReplayState::Scanning);
    // a driver that scans is not fed
    assert_eq!(driver.feed(Some(&JournalEntry::CheckpointBegin)), ReplayState::Scanning);
    driver.begin(1, 3);
    assert_eq!(driver.state(), ReplayState::Replaying);
    // before the start: stepped over
    assert_eq!(driver.feed(Some(&close(1))), ReplayState::Replaying);
    assert_eq!(
        driver.feed(Some(&JournalEntry::MemoryDiff { offset: 0, data: vec![1] })),
        ReplayState::Replaying
    );
    assert_eq!(driver.feed(Some(&JournalEntry::Signal { signal: 1 })), ReplayState::Replaying);
    // from the end on: stepped over
    assert_eq!(driver.feed(Some(&close(1))), ReplayState::Replaying);
    assert_eq!(driver.position(), 4);
    assert_eq!(driver.feed(None), ReplayState::Done);
    assert_eq!(driver.feed(Some(&close(1))), ReplayState::Done);
    assert_eq!(driver.failure(), None);
    let guest = driver.finish().unwrap();
    assert_eq!(guest.memory(), &vec![1, 0, 0, 0]);
    assert_eq!(guest.signals(), &vec![1]);

    let mut failing = ReplayDriver::new(Guest::new(Vec::new()));
    failing.begin(0, 10);
    assert_eq!(failing.feed(Some(&JournalEntry::Signal { signal: 1 })), ReplayState::Replaying);
    assert_eq!(failing.feed(Some(&close(1))), ReplayState::Failed);
    assert_eq!(failing.feed(None), ReplayState::Failed);
    let failure = ReplayFailure {
        index: 1,
        error: JournalError::Order(OrderingViolation::DescriptorNotOpen { fd: 1 }),
    };
    assert_eq!(failing.failure(), Some(failure));
    assert_eq!(failing.finish().unwrap_err(), failure);

    // a driver that was stopped between two entries does not give the guest
    let mut stopped = ReplayDriver::new(Guest::new(Vec::new()));
    stopped.begin(0, 10);
    stopped.feed(Some(&JournalEntry::Signal { signal: 1 }));
    assert_eq!(
        stopped.finish().unwrap_err(),
        ReplayFailure { index: 1, error: JournalError::Replay(ReplayError::NotReplaying) }
    );
}

#[test]
fn a_log_that_ends_in_a_fault_fails_replay() {
    let mut bytes = JournalEntry::Signal { signal: 1 }.encode().unwrap();
    bytes.extend_from_slice(&[0, 0, 0, 0, 7, 0, 0, 0]);
    let journal = LogJournal::open(bytes, None);
    assert_eq!(
        replay(&journal, Guest::new(Vec::new())).unwrap_err(),
        ReplayFailure {
            index: 1,
            error: JournalError::Serialization(SerializationError::UnsupportedVersion {
                version: 7
            })
        }
    );
}
