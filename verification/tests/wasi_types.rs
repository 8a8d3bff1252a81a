use wasmer_journal::wasi_types::{
    dirent_to_le_bytes, right_set_names, Dirent, EventType, Eventtype, Filetype,
    SubscriptionClock, SubscriptionFsReadwrite,
};

#[test]
fn test_dirent_to_le_bytes() {
    let s = Dirent {
        d_next: 0x0123456789abcdef,
        d_ino: 0xfedcba9876543210,
        d_namlen: 0xaabbccdd,
        d_type: Filetype::Directory,
    };

    assert_eq!(
        vec![
            // d_next
            0xef,
            0xcd,
            0xab,
            0x89,
            0x67,
            0x45,
            0x23,
            0x01,
            //
            // d_ino
            0x10,
            0x32,
            0x54,
            0x76,
            0x98,
            0xba,
            0xdc,
            0xfe,
            //
            // d_namelen
            0xdd,
            0xcc,
            0xbb,
            0xaa,
            //
            // d_type
            // plus padding
            Filetype::Directory as u8,
            0x00,
            0x00,
            0x00,
        ],
        dirent_to_le_bytes(&s)
    );
}

#[test]
fn dirent_is_twenty_four_bytes() {
    let s = Dirent { d_next: 0, d_ino: 0, d_namlen: 0, d_type: Filetype::Fifo };
    let bytes = dirent_to_le_bytes(&s);
    assert_eq!(bytes.len(), 24);
    assert_eq!(bytes[20], 8);
    assert_eq!(Filetype::Directory.raw(), 3);
}

#[test]
fn raw_tag_follows_the_subscription() {
    let clock = SubscriptionClock { clock_id: 0, timeout: 5, precision: 1, flags: 0 };
    let rw = SubscriptionFsReadwrite { file_descriptor: 3 };
    assert_eq!(EventType::Clock(clock).raw_tag(), Eventtype::Clock);
    assert_eq!(EventType::Read(rw).raw_tag(), Eventtype::FdRead);
    assert_eq!(EventType::Write(rw).raw_tag(), Eventtype::FdWrite);
}

#[test]
fn right_names_come_sorted_and_once() {
    // FD_READ (bit 1), FD_WRITE (bit 6), FD_DATASYNC (bit 0), PATH_OPEN (bit 13)
    let rights: u64 = (1 << 1) | (1 << 6) | (1 << 0) | (1 << 13);
    assert_eq!(right_set_names(rights), vec!["FD_DATASYNC", "FD_READ", "FD_WRITE", "PATH_OPEN"]);
    assert_eq!(right_set_names(0), Vec::<&'static str>::new());
    // bit 28 and above are not looked at
    assert_eq!(right_set_names(1 << 28), Vec::<&'static str>::new());
    let all = right_set_names(u64::MAX);
    assert_eq!(all.len(), 28);
    let mut sorted = all.clone();
    sorted.sort();
    sorted.dedup();
    assert_eq!(all, sorted);
}
