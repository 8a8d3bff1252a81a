use wasmer_journal::journal::any::AnyJournal;
use wasmer_journal::journal::entry::JournalEntry;
use wasmer_journal::journal::interleave::interleave;
use wasmer_journal::journal::error::{JournalError, SerializationError, StorageError};
use wasmer_journal::journal::log::LogJournal;
use wasmer_journal::journal::memory::MemoryJournal;
use wasmer_journal::journal::null::NullJournal;
use wasmer_journal::journal::traits::{read_to_end, ReadableJournal, WritableJournal};

fn numbered(n: u32) -> Vec<JournalEntry> {
    (0..n)
        .map(|i| JournalEntry::FileDescriptorWrite { fd: i, data: vec![i as u8; (i % 5) as usize] })
        .collect()
}

#[test]
fn what_is_written_in_order_is_read_in_order_and_then_the_stream_ends() {
    let entries = numbered(100);
    let mut journal = MemoryJournal::new();
    for entry in entries.iter() {
        journal.write(entry.clone()).unwrap();
    }
    let mut reader = journal.as_restarted().unwrap();
    for entry in entries.iter() {
        assert_eq!(reader.read(), Ok(Some(entry.clone())));
    }
    assert_eq!(reader.read(), Ok(None));
    assert_eq!(reader.read(), Ok(None));
    // the cursor of the journal itself has not moved
    assert_eq!(journal.read(), Ok(Some(entries[0].clone())));
}

#[test]
fn read_to_end_gives_what_is_left() {
    let entries = numbered(10);
    let mut journal = MemoryJournal::new();
    assert_eq!(journal.extend(&entries), Ok(()));
    assert_eq!(journal.len(), 10);
    journal.read().unwrap();
    journal.read().unwrap();
    assert_eq!(read_to_end(&mut journal), Ok(entries[2..].to_vec()));
    assert_eq!(read_to_end(&mut journal), Ok(vec![]));
}

#[test]
fn a_restarted_reader_does_not_see_later_writes() {
    let mut journal = MemoryJournal::new();
    journal.write(JournalEntry::CheckpointBegin).unwrap();
    let mut reader = journal.as_restarted().unwrap();
    journal.write(JournalEntry::CheckpointEnd).unwrap();
    assert_eq!(read_to_end(&mut reader), Ok(vec![JournalEntry::CheckpointBegin]));
    assert_eq!(
        read_to_end(&mut journal),
        Ok(vec![JournalEntry::CheckpointBegin, JournalEntry::CheckpointEnd])
    );
}

#[test]
fn a_journal_at_its_limit_refuses() {
    let mut journal = MemoryJournal::with_limit(2);
    assert_eq!(journal.limit(), Some(2));
    assert_eq!(journal.write(JournalEntry::CheckpointBegin), Ok(()));
    assert_eq!(journal.write(JournalEntry::CheckpointEnd), Ok(()));
    assert_eq!(
        journal.write(JournalEntry::CheckpointBegin),
        Err(JournalError::Storage(StorageError::CapacityExceeded))
    );
    assert_eq!(journal.len(), 2);
    let mut other = MemoryJournal::with_limit(3);
    assert_eq!(
        other.extend(&numbered(5)),
        Err(JournalError::Storage(StorageError::CapacityExceeded))
    );
    assert_eq!(read_to_end(&mut other), Ok(numbered(3)));
    assert_eq!(MemoryJournal::new().limit(), None);
}

#[test]
fn many_producers_lose_nothing() {
    // the writes of eight producers, taken in turns of uneven length
    let producers: u32 = 8;
    let each: u32 = 50;
    let mut journal = MemoryJournal::new();
    let mut next = vec![0u32; producers as usize];
    let mut turn: u32 = 0;
    while next.iter().any(|n| *n < each) {
        let p = (turn * 3) % producers;
        let burst = 1 + (turn / producers) % 4;
        for _ in 0..burst {
            if next[p as usize] < each {
                let k = next[p as usize];
                journal
                    .write(JournalEntry::FileDescriptorWrite { fd: p, data: vec![k as u8; 16] })
                    .unwrap();
                next[p as usize] += 1;
            }
        }
        turn += 1;
    }
    let mut reader = journal.as_restarted().unwrap();
    let entries = read_to_end(&mut reader).unwrap();
    assert_eq!(entries.len() as u32, producers * each);
    let mut seen = vec![0u32; producers as usize];
    for entry in entries {
        match entry {
            JournalEntry::FileDescriptorWrite { fd, data } => {
                // intact, and in the order its producer wrote it
                assert_eq!(data, vec![seen[fd as usize] as u8; 16]);
                seen[fd as usize] += 1;
            }
            other => panic!("{:?}", other),
        }
    }
    assert_eq!(seen, vec![each; producers as usize]);
}

#[test]
fn the_null_journal_takes_everything_and_keeps_nothing() {
    let mut journal = NullJournal::new();
    for entry in numbered(10) {
        assert_eq!(journal.write(entry), Ok(()));
    }
    assert_eq!(journal, NullJournal);
}

#[test]
fn a_log_is_its_entries_end_to_end() {
    let entries = numbered(4);
    let mut journal = LogJournal::new();
    let mut expected = Vec::new();
    for entry in entries.iter() {
        journal.write(entry.clone()).unwrap();
        expected.extend_from_slice(&entry.encode().unwrap());
        assert_eq!(journal.bytes(), &expected);
    }
    assert_eq!(journal.len(), expected.len());
    assert_eq!(read_to_end(&mut journal), Ok(entries.clone()));
    let mut again = journal.as_restarted().unwrap();
    assert_eq!(read_to_end(&mut again), Ok(entries));
}

#[test]
fn a_log_cut_short_reads_up_to_its_last_whole_entry() {
    let entries = numbered(5);
    let mut journal = LogJournal::new();
    for entry in entries.iter() {
        journal.write(entry.clone()).unwrap();
    }
    let whole = journal.bytes().clone();
    let last = entries[4].encode().unwrap().len();
    let before_last = whole.len() - last;
    for cut in before_last..whole.len() {
        let mut torn = LogJournal::open(whole[..cut].to_vec(), None);
        assert_eq!(read_to_end(&mut torn), Ok(entries[..4].to_vec()));
        assert_eq!(torn.len(), before_last);
        // and the log can be written on from there
        torn.write(JournalEntry::CheckpointEnd).unwrap();
        let mut reader = torn.as_restarted().unwrap();
        let mut expected = entries[..4].to_vec();
        expected.push(JournalEntry::CheckpointEnd);
        assert_eq!(read_to_end(&mut reader), Ok(expected));
    }
    let mut all = LogJournal::open(whole, None);
    assert_eq!(read_to_end(&mut all), Ok(entries));
}

#[test]
fn bytes_that_are_no_entry_are_a_fault_behind_the_entries_before_them() {
    let mut bytes = JournalEntry::CheckpointBegin.encode().unwrap();
    let mut bad = JournalEntry::CheckpointEnd.encode().unwrap();
    bad[4] = 9;
    bytes.extend_from_slice(&bad);
    let mut journal = LogJournal::open(bytes, None);
    assert_eq!(journal.read(), Ok(Some(JournalEntry::CheckpointBegin)));
    let fault = JournalError::Serialization(SerializationError::UnsupportedVersion { version: 9 });
    assert_eq!(journal.read(), Err(fault));
    assert_eq!(journal.read(), Err(fault));
    assert_eq!(journal.write(JournalEntry::CheckpointEnd), Err(fault));
    assert_eq!(journal.len(), 8);
}

#[test]
fn a_log_refuses_what_it_cannot_write_or_hold() {
    let mut journal = LogJournal::open(Vec::new(), Some(20));
    assert_eq!(journal.write(JournalEntry::CheckpointBegin), Ok(()));
    assert_eq!(journal.write(JournalEntry::CheckpointEnd), Ok(()));
    assert_eq!(
        journal.write(JournalEntry::CheckpointBegin),
        Err(JournalError::Storage(StorageError::CapacityExceeded))
    );
    assert_eq!(journal.len(), 16);
    let mut free = LogJournal::new();
    assert_eq!(
        free.write(JournalEntry::Unknown { tag: 9000, words: vec![0; 300], data: vec![] }),
        Err(JournalError::Serialization(SerializationError::PayloadTooLarge))
    );
    assert_eq!(
        free.write(JournalEntry::Unknown { tag: 2, words: vec![], data: vec![] }),
        Err(JournalError::Serialization(SerializationError::Malformed))
    );
    assert_eq!(free.len(), 0);
}

#[test]
fn a_boxed_journal_is_the_journal() {
    let entries = numbered(6);
    let mut plain = MemoryJournal::new();
    let mut boxed = Box::new(MemoryJournal::new());
    for entry in entries.iter() {
        assert_eq!(plain.write(entry.clone()), boxed.write(entry.clone()));
    }
    let mut a = plain.as_restarted().unwrap();
    let mut b = boxed.as_restarted().unwrap();
    loop {
        let x = a.read();
        assert_eq!(x, b.read());
        if x == Ok(None) {
            break;
        }
    }
    let mut erased: Box<dyn WritableJournal> = Box::new(MemoryJournal::with_limit(1));
    assert_eq!(erased.write(JournalEntry::CheckpointBegin), Ok(()));
    assert_eq!(
        erased.write(JournalEntry::CheckpointBegin),
        Err(JournalError::Storage(StorageError::CapacityExceeded))
    );
}

#[test]
fn a_log_knows_its_limit_and_its_damage() {
    let fine = LogJournal::open(JournalEntry::CheckpointBegin.encode().unwrap(), Some(100));
    assert_eq!(fine.limit(), Some(100));
    assert_eq!(fine.damage(), None);
    let mut torn = JournalEntry::CheckpointBegin.encode().unwrap();
    torn.extend_from_slice(&[1, 2, 3]);
    assert_eq!(LogJournal::open(torn, None).damage(), None);
    let mut bad = JournalEntry::CheckpointBegin.encode().unwrap();
    // a close entry without its descriptor
    bad.extend_from_slice(&[0, 0, 0, 0, 1, 0, 11, 0]);
    assert_eq!(LogJournal::open(bad, None).damage(), Some(SerializationError::Malformed));
}

#[test]
fn producers_write_in_the_order_of_their_turns() {
    let a = |k: u8| JournalEntry::Signal { signal: k };
    let b = |k: u8| JournalEntry::ProcessExit { exit_code: k as u32 };
    let producers = vec![vec![a(1), a(2), a(3)], vec![b(1), b(2)], vec![]];
    let schedule = vec![1, 0, 0, 1, 0];
    assert_eq!(
        interleave(&producers, &schedule),
        Some(vec![b(1), a(1), a(2), b(2), a(3)])
    );
    // a schedule must let every producer write all it has, and no more
    assert_eq!(interleave(&producers, &vec![1, 0, 0, 1]), None);
    assert_eq!(interleave(&producers, &vec![1, 0, 0, 1, 0, 0]), None);
    assert_eq!(interleave(&producers, &vec![1, 0, 0, 1, 0, 2]), None);
    assert_eq!(interleave(&producers, &vec![1, 0, 0, 1, 3]), None);
    assert_eq!(interleave(&vec![], &vec![]), Some(vec![]));

    let mut journal = MemoryJournal::new();
    journal.write(JournalEntry::CheckpointBegin).unwrap();
    assert_eq!(journal.write_by_schedule(&producers, &schedule), Some(Ok(())));
    assert_eq!(
        read_to_end(&mut journal),
        Ok(vec![JournalEntry::CheckpointBegin, b(1), a(1), a(2), b(2), a(3)])
    );
    assert_eq!(journal.write_by_schedule(&producers, &vec![0]), None);
    assert_eq!(journal.len(), 6);
    let mut small = MemoryJournal::with_limit(2);
    assert_eq!(
        small.write_by_schedule(&producers, &schedule),
        Some(Err(JournalError::Storage(StorageError::CapacityExceeded)))
    );
    assert_eq!(read_to_end(&mut small), Ok(vec![b(1), a(1)]));
}

#[test]
fn a_log_says_what_a_write_would_put_behind_it() {
    let mut journal = LogJournal::open(Vec::new(), Some(12));
    let entry = JournalEntry::CheckpointBegin;
    assert_eq!(journal.frame_for(&entry), Ok(entry.encode().unwrap()));
    // nothing was written
    assert_eq!(journal.len(), 0);
    journal.write(entry.clone()).unwrap();
    assert_eq!(
        journal.frame_for(&entry),
        Err(JournalError::Storage(StorageError::CapacityExceeded))
    );
    assert_eq!(
        LogJournal::new().frame_for(&JournalEntry::Unknown { tag: 3, words: vec![], data: vec![] }),
        Err(JournalError::Serialization(SerializationError::Malformed))
    );
}

#[test]
fn a_journal_chosen_at_run_time_is_the_journal_chosen() {
    for persistent in [false, true] {
        let mut journal = if persistent {
            AnyJournal::Log(LogJournal::new())
        } else {
            AnyJournal::Memory(MemoryJournal::with_limit(3))
        };
        let entries = numbered(3);
        for entry in entries.iter() {
            assert_eq!(journal.write(entry.clone()), Ok(()));
        }
        assert_eq!(journal.read(), Ok(Some(entries[0].clone())));
        let mut reader = journal.as_restarted().unwrap();
        assert_eq!(matches!(reader, AnyJournal::Log(_)), persistent);
        assert_eq!(read_to_end(&mut reader), Ok(entries.clone()));
        assert_eq!(read_to_end(&mut journal), Ok(entries[1..].to_vec()));
        let refused = journal.write(JournalEntry::CheckpointBegin);
        if persistent {
            assert_eq!(refused, Ok(()));
        } else {
            assert_eq!(refused, Err(JournalError::Storage(StorageError::CapacityExceeded)));
        }
    }
}
