use wasmer_journal::journal::fanout::BroadcastJournal;
use wasmer_journal::journal::compact::CompactingJournal;
use wasmer_journal::journal::entry::{EntryKind, JournalEntry};
use wasmer_journal::journal::error::{Fault, JournalError, StorageError};
use wasmer_journal::journal::filter::{FilteredJournal, KindFilter};
use wasmer_journal::journal::guest::Guest;
use wasmer_journal::journal::log::LogJournal;
use wasmer_journal::journal::memory::MemoryJournal;
use wasmer_journal::journal::null::NullJournal;
use wasmer_journal::journal::replay::replay;
use wasmer_journal::journal::traits::{read_to_end, ReadableJournal, WritableJournal};

fn entries_of(journal: &MemoryJournal) -> Vec<JournalEntry> {
    read_to_end(&mut journal.as_restarted().unwrap()).unwrap()
}

#[test]
fn a_filter_hands_on_what_its_predicate_holds_of() {
    let filter = KindFilter::everything().with(EntryKind::Memory, false);
    assert!(filter.passes(EntryKind::Control));
    assert!(!filter.passes(EntryKind::Memory));
    let mut journal = FilteredJournal::new(MemoryJournal::new(), filter);
    let memory = JournalEntry::MemoryDiff { offset: 0, data: vec![1] };
    let close = JournalEntry::CloseFileDescriptor { fd: 3 };
    assert_eq!(journal.write(memory), Ok(()));
    assert_eq!(journal.write(close.clone()), Ok(()));
    assert_eq!(journal.write(JournalEntry::CheckpointBegin), Ok(()));
    assert_eq!(entries_of(journal.inner()), vec![close, JournalEntry::CheckpointBegin]);
    let mut none = FilteredJournal::new(MemoryJournal::with_limit(0), KindFilter::nothing());
    // what is left out is never refused
    assert_eq!(none.write(JournalEntry::CheckpointBegin), Ok(()));
    let mut only = FilteredJournal::new(
        MemoryJournal::with_limit(0),
        KindFilter::nothing().with(EntryKind::Control, true),
    );
    assert_eq!(
        only.write(JournalEntry::CheckpointBegin),
        Err(JournalError::Storage(StorageError::CapacityExceeded))
    );
    assert_eq!(only.into_inner().len(), 0);
}

#[test]
fn a_compacted_stream_replays_as_the_whole_stream() {
    let a = JournalEntry::MemoryDiff { offset: 0, data: vec![0xaa; 10] };
    let b = JournalEntry::MemoryDiff { offset: 0, data: vec![0xbb; 10] };
    let written = vec![a.clone(), b.clone()];
    let mut whole = MemoryJournal::new();
    let mut compactor = CompactingJournal::new(MemoryJournal::new(), 1024);
    for entry in written {
        whole.write(entry.clone()).unwrap();
        compactor.write(entry).unwrap();
    }
    let compacted = compactor.into_inner();
    let from_whole = replay(&whole, Guest::new(vec![0; 32])).unwrap();
    let from_compacted = replay(&compacted, Guest::new(vec![0; 32])).unwrap();
    assert_eq!(&from_compacted.memory()[..10], &[0xbb; 10]);
    assert_eq!(from_compacted.memory(), from_whole.memory());
}

#[test]
fn a_compactor_leaves_out_what_says_again_what_it_remembers() {
    let a = JournalEntry::MemoryDiff { offset: 4, data: vec![1, 2, 3] };
    let b = JournalEntry::MemorySnapshot { offset: 5, data: vec![1, 2, 3] };
    let clock = JournalEntry::ClockTime { clock_id: 0, time: 77 };
    let env = JournalEntry::Environment { data: b"A=1\0".to_vec() };
    let args = JournalEntry::Arguments { data: b"prog\0".to_vec() };
    let random = JournalEntry::Random { data: vec![4] };
    let big = JournalEntry::MemoryDiff { offset: 0, data: vec![7; 9] };
    let written = vec![
        a.clone(),
        a.clone(),
        // a snapshot of the same region with the same bytes says the same
        JournalEntry::MemorySnapshot { offset: 4, data: vec![1, 2, 3] },
        b.clone(),
        a.clone(),
        clock.clone(),
        clock.clone(),
        env.clone(),
        env.clone(),
        args.clone(),
        args.clone(),
        // random bytes are never left out
        random.clone(),
        random.clone(),
        // what is too big to remember is never left out
        big.clone(),
        big.clone(),
        // a checkpoint is handed on whole
        JournalEntry::CheckpointBegin,
        clock.clone(),
        JournalEntry::CheckpointEnd,
        clock.clone(),
    ];
    let mut whole = MemoryJournal::new();
    let mut compactor = CompactingJournal::new(MemoryJournal::new(), 8);
    for entry in written {
        whole.write(entry.clone()).unwrap();
        compactor.write(entry).unwrap();
    }
    assert_eq!(
        entries_of(compactor.inner()),
        vec![
            a.clone(),
            b,
            a,
            clock.clone(),
            env,
            args,
            random.clone(),
            random,
            big.clone(),
            big,
            JournalEntry::CheckpointBegin,
            clock,
            JournalEntry::CheckpointEnd,
        ]
    );
}

#[test]
fn a_compactor_remembers_nothing_of_a_write_that_was_refused() {
    let a = JournalEntry::ClockTime { clock_id: 0, time: 1 };
    let mut compactor = CompactingJournal::new(MemoryJournal::with_limit(0), 64);
    let full = Err(JournalError::Storage(StorageError::CapacityExceeded));
    assert_eq!(compactor.write(a.clone()), full);
    // had it remembered the entry, it would take it now
    assert_eq!(compactor.write(a), full);
}

#[test]
fn a_broadcast_reaches_every_journal() {
    let mut journal = BroadcastJournal::new(vec![MemoryJournal::new(), MemoryJournal::new()]);
    assert_eq!(journal.len(), 2);
    assert_eq!(journal.write(JournalEntry::CheckpointBegin), Ok(()));
    assert_eq!(journal.write(JournalEntry::CheckpointEnd), Ok(()));
    for i in 0..2 {
        assert_eq!(
            entries_of(journal.backend(i)),
            vec![JournalEntry::CheckpointBegin, JournalEntry::CheckpointEnd]
        );
    }
    let mut empty: BroadcastJournal<MemoryJournal> = BroadcastJournal::new(Vec::new());
    assert_eq!(empty.write(JournalEntry::CheckpointBegin), Ok(()));
}

#[test]
fn a_broadcast_names_the_journal_that_refused() {
    let mut journal = BroadcastJournal::new(vec![
        MemoryJournal::new(),
        MemoryJournal::with_limit(1),
        MemoryJournal::new(),
    ]);
    assert_eq!(journal.write(JournalEntry::CheckpointBegin), Ok(()));
    assert_eq!(
        journal.write(JournalEntry::CheckpointEnd),
        Err(JournalError::Backend {
            index: 1,
            fault: Fault::Storage(StorageError::CapacityExceeded)
        })
    );
    // the journals that are well hold the entry, the one that refused does not
    let both = vec![JournalEntry::CheckpointBegin, JournalEntry::CheckpointEnd];
    assert_eq!(entries_of(journal.backend(0)), both);
    assert_eq!(entries_of(journal.backend(1)), vec![JournalEntry::CheckpointBegin]);
    assert_eq!(entries_of(journal.backend(2)), both);
    // the caller drops the failed journal and goes on with the rest
    let failed = journal.remove(1);
    assert_eq!(failed.len(), 1);
    assert_eq!(journal.write(JournalEntry::CheckpointBegin), Ok(()));
    assert_eq!(journal.len(), 2);
    assert_eq!(journal.into_backends().iter().map(|j| j.len()).collect::<Vec<_>>(), vec![3, 3]);
}

#[test]
fn a_broadcast_of_two_where_one_refuses() {
    let mut journal =
        BroadcastJournal::new(vec![MemoryJournal::with_limit(0), MemoryJournal::new()]);
    let err = journal.write(JournalEntry::CheckpointBegin).unwrap_err();
    assert_eq!(
        err,
        JournalError::Backend { index: 0, fault: Fault::Storage(StorageError::CapacityExceeded) }
    );
    assert_eq!(err.fault(), Fault::Storage(StorageError::CapacityExceeded));
    assert_eq!(journal.backend(0).len(), 0);
    assert_eq!(journal.backend(1).len(), 1);
}

#[test]
fn a_broadcast_holds_journals_of_any_kind() {
    let backends: Vec<Box<dyn WritableJournal>> = vec![
        Box::new(MemoryJournal::new()),
        Box::new(LogJournal::new()),
        Box::new(NullJournal::new()),
        Box::new(FilteredJournal::new(MemoryJournal::with_limit(0), KindFilter::nothing())),
    ];
    let mut journal = BroadcastJournal::new(backends);
    journal.push(Box::new(CompactingJournal::new(MemoryJournal::new(), 16)));
    assert_eq!(journal.write(JournalEntry::CheckpointBegin), Ok(()));
    journal.push(Box::new(MemoryJournal::with_limit(0)));
    assert_eq!(
        journal.write(JournalEntry::CheckpointEnd),
        Err(JournalError::Backend {
            index: 5,
            fault: Fault::Storage(StorageError::CapacityExceeded)
        })
    );
}

#[test]
fn a_compacted_stream_restores_from_its_checkpoints_as_the_whole_stream() {
    let clock = JournalEntry::ClockTime { clock_id: 0, time: 5 };
    let region = JournalEntry::MemorySnapshot { offset: 0, data: vec![9; 4] };
    let written = vec![
        clock.clone(),
        region.clone(),
        JournalEntry::CheckpointBegin,
        // these say again what came before the checkpoint, and are needed in it
        region.clone(),
        clock.clone(),
        JournalEntry::CheckpointEnd,
        clock.clone(),
        region.clone(),
        JournalEntry::Signal { signal: 1 },
        JournalEntry::CheckpointBegin,
        region.clone(),
    ];
    let mut whole = MemoryJournal::new();
    let mut compactor = CompactingJournal::new(MemoryJournal::new(), 64);
    for entry in written {
        whole.write(entry.clone()).unwrap();
        compactor.write(entry).unwrap();
    }
    let compacted = compactor.into_inner();
    assert_eq!(whole.len(), 11);
    assert_eq!(compacted.len(), 9);
    let a = replay(&whole, Guest::new(vec![0; 8])).unwrap();
    let b = replay(&compacted, Guest::new(vec![0; 8])).unwrap();
    assert_eq!(a.memory(), &vec![9, 9, 9, 9, 0, 0, 0, 0]);
    assert_eq!(a.memory(), b.memory());
    assert_eq!(a.clock(), Some((0, 5)));
    assert_eq!(a.clock(), b.clock());
    assert_eq!(a.signals(), b.signals());
    assert_eq!(a.in_checkpoint(), b.in_checkpoint());
}
