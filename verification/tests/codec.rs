use wasmer_journal::journal::codec::{Decoded, FORMAT_VERSION, HEADER_BYTES};
use wasmer_journal::journal::entry::{EntryKind, JournalEntry, Whence};
use wasmer_journal::journal::error::SerializationError;
use wasmer_journal::journal::record::Record;
use wasmer_journal::wasi_types::{Addressfamily, __wasi_addr_port_t, __wasi_addr_port_u};

fn address(family: Addressfamily, first: u8) -> __wasi_addr_port_t {
    let mut octs = [0u8; 18];
    octs[0] = first;
    octs[17] = 0xee;
    __wasi_addr_port_t { tag: family, u: __wasi_addr_port_u { octs } }
}

fn one_of_each() -> Vec<JournalEntry> {
    vec![
        JournalEntry::CheckpointBegin,
        JournalEntry::CheckpointEnd,
        JournalEntry::MemorySnapshot { offset: 16, data: vec![1, 2, 3] },
        JournalEntry::MemoryDiff { offset: u64::MAX, data: vec![] },
        JournalEntry::OpenFileDescriptor {
            fd: 3,
            path: b"/tmp/out.txt".to_vec(),
            rights_base: 0x1fff_ffff,
            rights_inheriting: u64::MAX,
            flags: 0x8001,
        },
        JournalEntry::CloseFileDescriptor { fd: u32::MAX },
        JournalEntry::SeekFileDescriptor { fd: 3, offset: -7, whence: Whence::End },
        JournalEntry::SeekFileDescriptor { fd: 3, offset: i64::MIN, whence: Whence::Current },
        JournalEntry::SeekFileDescriptor { fd: 3, offset: i64::MAX, whence: Whence::Start },
        JournalEntry::SetFileDescriptorRights { fd: 4, rights_base: 1, rights_inheriting: 2 },
        JournalEntry::SetFileDescriptorFlags { fd: 4, flags: u16::MAX },
        JournalEntry::FileDescriptorRead { fd: 0, data: vec![9; 40] },
        JournalEntry::FileDescriptorWrite { fd: 1, data: b"hi".to_vec() },
        JournalEntry::SocketBind { fd: 5, addr: address(Addressfamily::Inet4, 127) },
        JournalEntry::SocketConnect { fd: 5, addr: address(Addressfamily::Inet6, 1) },
        JournalEntry::SocketListen { fd: 5, backlog: 128 },
        JournalEntry::SocketAccept { listen_fd: 5, fd: 6, peer: address(Addressfamily::Unix, 2) },
        JournalEntry::SocketSend { fd: 6, data: vec![7, 7], flags: 1 },
        JournalEntry::SocketReceive { fd: 6, data: vec![8], flags: 2 },
        JournalEntry::SocketShutdown { fd: 6, how: 3 },
        JournalEntry::ThreadSpawn { tid: 2 },
        JournalEntry::ThreadExit { tid: 2, exit_code: 1 },
        JournalEntry::ProcessExit { exit_code: 42 },
        JournalEntry::Signal { signal: 9 },
        JournalEntry::ClockTime { clock_id: 1, time: 1_700_000_000_000_000_000 },
        JournalEntry::Random { data: vec![0xde, 0xad] },
        JournalEntry::Environment { data: b"A=1\0B=2\0".to_vec() },
        JournalEntry::Arguments { data: b"prog\0-v\0".to_vec() },
        JournalEntry::Unknown { tag: 9000, words: vec![1, u64::MAX], data: vec![5, 6, 7] },
    ]
}

#[test]
fn every_kind_of_entry_survives_the_round_trip() {
    for entry in one_of_each() {
        assert!(entry.encodable());
        let bytes = entry.encode().unwrap();
        match JournalEntry::decode(&bytes, 0) {
            Decoded::Entry { entry: back, len } => {
                assert_eq!(back, entry);
                assert_eq!(len, bytes.len());
            }
            other => panic!("{:?} came back as {:?}", entry, other),
        }
    }
}

#[test]
fn an_entry_is_read_back_whatever_follows_it_and_wherever_it_starts() {
    let entry = JournalEntry::FileDescriptorWrite { fd: 3, data: b"hi".to_vec() };
    let mut bytes = vec![0xaa, 0xbb, 0xcc];
    let frame = entry.encode().unwrap();
    bytes.extend_from_slice(&frame);
    bytes.extend_from_slice(&[1, 2, 3, 4, 5, 6, 7, 8, 9]);
    assert_eq!(
        JournalEntry::decode(&bytes, 3),
        Decoded::Entry { entry, len: frame.len() }
    );
}

#[test]
fn the_wire_format_is_header_words_bytes() {
    let entry = JournalEntry::FileDescriptorWrite { fd: 3, data: b"hi".to_vec() };
    assert_eq!(
        entry.encode().unwrap(),
        vec![
            // payload length: one word and two bytes
            10, 0, 0, 0, //
            // version, number of words
            FORMAT_VERSION, 1, //
            // tag 16
            16, 0, //
            // the descriptor
            3, 0, 0, 0, 0, 0, 0, 0, //
            // the data
            b'h', b'i',
        ]
    );
    assert_eq!(JournalEntry::CheckpointBegin.encode().unwrap(), vec![0, 0, 0, 0, 1, 0, 1, 0]);
    assert_eq!(HEADER_BYTES, 8);
}

#[test]
fn a_negative_offset_is_written_as_sign_and_magnitude() {
    let entry = JournalEntry::SeekFileDescriptor { fd: 1, offset: -2, whence: Whence::Current };
    let record = entry.into_record();
    assert_eq!(record, Record { tag: 12, words: vec![1, 1, 1, 2], data: vec![] });
    let least = JournalEntry::SeekFileDescriptor { fd: 1, offset: i64::MIN, whence: Whence::Start };
    assert_eq!(least.into_record().words, vec![1, 0, 1, 1u64 << 63]);
}

#[test]
fn an_unknown_tag_is_an_entry_of_unknown_kind_and_no_error() {
    // a frame under tag 777 with one word and one byte
    let bytes = vec![9, 0, 0, 0, FORMAT_VERSION, 1, 0x09, 0x03, 5, 0, 0, 0, 0, 0, 0, 0, 0xff];
    match JournalEntry::decode(&bytes, 0) {
        Decoded::Entry { entry, len } => {
            assert_eq!(entry, JournalEntry::Unknown { tag: 777, words: vec![5], data: vec![0xff] });
            assert_eq!(entry.kind(), EntryKind::Unknown);
            assert_eq!(len, 17);
            // and it is written back as it was read
            assert_eq!(entry.encode().unwrap(), bytes);
        }
        other => panic!("{:?}", other),
    }
}

#[test]
fn bytes_that_end_early_are_incomplete() {
    let bytes = JournalEntry::OpenFileDescriptor {
        fd: 3,
        path: b"file".to_vec(),
        rights_base: 0,
        rights_inheriting: 0,
        flags: 0,
    }
    .encode()
    .unwrap();
    for cut in 0..bytes.len() {
        assert_eq!(JournalEntry::decode(&bytes[..cut], 0), Decoded::Incomplete);
    }
    assert!(matches!(JournalEntry::decode(&bytes, 0), Decoded::Entry { .. }));
}

#[test]
fn a_frame_of_another_version_is_refused() {
    let mut bytes = JournalEntry::CheckpointEnd.encode().unwrap();
    bytes[4] = 2;
    assert_eq!(
        JournalEntry::decode(&bytes, 0),
        Decoded::Invalid(SerializationError::UnsupportedVersion { version: 2 })
    );
}

#[test]
fn a_known_tag_with_the_wrong_fields_is_malformed() {
    // a close entry with two words
    let two_words = Record { tag: 11, words: vec![3, 4], data: vec![] };
    assert_eq!(JournalEntry::from_record(two_words), Err(SerializationError::Malformed));
    // a close entry whose descriptor does not fit 32 bits
    let wide = Record { tag: 11, words: vec![1 << 32], data: vec![] };
    assert_eq!(JournalEntry::from_record(wide), Err(SerializationError::Malformed));
    // a seek with a whence that stands for nothing
    let whence = Record { tag: 12, words: vec![3, 3, 0, 0], data: vec![] };
    assert_eq!(JournalEntry::from_record(whence), Err(SerializationError::Malformed));
    // a seek with minus zero
    let zero = Record { tag: 12, words: vec![3, 0, 1, 0], data: vec![] };
    assert_eq!(JournalEntry::from_record(zero), Err(SerializationError::Malformed));
    // a bind whose address has the wrong length, or no known family
    let short = Record { tag: 20, words: vec![3], data: vec![1; 18] };
    assert_eq!(JournalEntry::from_record(short), Err(SerializationError::Malformed));
    let family = Record { tag: 20, words: vec![3], data: vec![4; 19] };
    assert_eq!(JournalEntry::from_record(family), Err(SerializationError::Malformed));
    // a frame that claims more words than its payload holds
    let bytes = vec![8, 0, 0, 0, FORMAT_VERSION, 2, 3, 0, 0, 0, 0, 0, 0, 0, 0, 0];
    assert_eq!(
        JournalEntry::decode(&bytes, 0),
        Decoded::Invalid(SerializationError::Malformed)
    );
}

#[test]
fn an_entry_that_does_not_fit_a_frame_is_refused() {
    let many = JournalEntry::Unknown { tag: 9000, words: vec![0; 256], data: vec![] };
    assert!(!many.encodable());
    assert_eq!(many.encode(), Err(SerializationError::PayloadTooLarge));
    let fits = JournalEntry::Unknown { tag: 9000, words: vec![0; 255], data: vec![] };
    assert!(fits.encodable());
    assert_eq!(fits.encode().unwrap().len(), 8 + 8 * 255);
    // an entry of unknown kind may not sit under a tag that stands for a known one
    let misplaced = JournalEntry::Unknown { tag: 1, words: vec![], data: vec![] };
    assert!(!misplaced.encodable());
    assert_eq!(misplaced.encode(), Err(SerializationError::Malformed));
    let mut out = vec![1, 2, 3];
    assert_eq!(misplaced.encode_into(&mut out), Err(SerializationError::Malformed));
    assert_eq!(out, vec![1, 2, 3]);
}

#[test]
fn kinds_and_tags() {
    assert_eq!(JournalEntry::CheckpointBegin.kind(), EntryKind::Control);
    assert_eq!(JournalEntry::MemoryDiff { offset: 0, data: vec![] }.kind(), EntryKind::Memory);
    assert_eq!(JournalEntry::CloseFileDescriptor { fd: 1 }.kind(), EntryKind::FileSystem);
    assert_eq!(JournalEntry::SocketListen { fd: 1, backlog: 1 }.kind(), EntryKind::Network);
    assert_eq!(JournalEntry::Signal { signal: 1 }.kind(), EntryKind::Process);
    assert_eq!(JournalEntry::Random { data: vec![] }.kind(), EntryKind::Environment);
    assert_eq!(JournalEntry::CheckpointBegin.tag(), 1);
    assert_eq!(JournalEntry::Arguments { data: vec![] }.tag(), 43);
    let copy = JournalEntry::Random { data: vec![1, 2] }.clone();
    assert_eq!(copy, JournalEntry::Random { data: vec![1, 2] });
}
