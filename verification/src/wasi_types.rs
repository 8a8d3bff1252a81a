//! The WASI vocabulary that journal entries are expressed in: descriptor
//! numbers, rights, timestamps, socket addresses and directory entries.
#![allow(non_camel_case_types, non_upper_case_globals)]

use vstd::bytes::{
    spec_u32_to_le_bytes, spec_u64_to_le_bytes, u32_to_le_bytes, u64_to_le_bytes,
};
use vstd::prelude::*;

verus! {

pub type __wasi_exitcode_t = u32;

pub type __wasi_userdata_t = u64;

/// A file descriptor number as the guest sees it.
pub type Fd = u32;

/// Nanoseconds.
pub type Timestamp = u64;

pub type Filesize = u64;

pub type Dircookie = u64;

pub type Inode = u64;

pub type Clockid = u32;

/// A set of rights, one bit each.
pub type Rights = u64;

pub type EventFdFlags = u16;

pub type LookupFlags = u32;

pub type RiFlags = u16;

pub type RoFlags = u16;

pub type SdFlags = u8;

pub const __WASI_STDIN_FILENO: Fd = 0;

pub const __WASI_STDOUT_FILENO: Fd = 1;

pub const __WASI_STDERR_FILENO: Fd = 2;

pub const EventFdFlags_SEMAPHORE: EventFdFlags = 1;

pub const __WASI_LOOKUP_SYMLINK_FOLLOW: LookupFlags = 1;

pub const __WASI_DIRCOOKIE_START: Dircookie = 0;

pub const __WASI_SOCK_RECV_INPUT_PEEK: RiFlags = 1 << 0;

pub const __WASI_SOCK_RECV_INPUT_WAITALL: RiFlags = 1 << 1;

pub const __WASI_SOCK_RECV_INPUT_DATA_TRUNCATED: RiFlags = 1 << 2;

pub const __WASI_SOCK_RECV_OUTPUT_DATA_TRUNCATED: RoFlags = 1 << 0;

pub const __WASI_SHUT_RD: SdFlags = 1 << 0;

pub const __WASI_SHUT_WR: SdFlags = 1 << 1;

/// How many rights [`right_set_names`] looks at: the rights of bits 0 to 27.
pub const NAMED_RIGHTS: usize = 28;

/// The type of a file descriptor or file.
#[derive(Clone, Copy, Debug, PartialEq, Eq, Structural)]
pub enum Filetype {
    Unknown,
    BlockDevice,
    CharacterDevice,
    Directory,
    RegularFile,
    SocketDgram,
    SocketStream,
    SymbolicLink,
    Fifo,
}

/// A directory entry.
#[derive(Clone, Copy, Debug, PartialEq, Eq, Structural)]
pub struct Dirent {
    /// The offset of the next directory entry stored in this directory.
    pub d_next: Dircookie,
    /// The serial number of the file referred to by this directory entry.
    pub d_ino: Inode,
    /// The length of the name of the directory entry.
    pub d_namlen: u32,
    /// The type of the file referred to by this directory entry.
    pub d_type: Filetype,
}

/// Type of a subscription to an event or its occurrence.
#[derive(Clone, Copy, Debug, PartialEq, Eq, Structural)]
pub enum Eventtype {
    Clock,
    FdRead,
    FdWrite,
}

/// The contents of a subscription when the type is `Clock`.
#[derive(Clone, Copy, Debug, PartialEq, Eq, Structural)]
pub struct SubscriptionClock {
    pub clock_id: Clockid,
    pub timeout: Timestamp,
    pub precision: Timestamp,
    pub flags: u16,
}

/// The contents of a subscription when the type is `FdRead` or `FdWrite`.
#[derive(Clone, Copy, Debug, PartialEq, Eq, Structural)]
pub struct SubscriptionFsReadwrite {
    pub file_descriptor: Fd,
}

/// A subscription's type together with its contents.
#[derive(Clone, Copy, Debug)]
pub enum EventType {
    Clock(SubscriptionClock),
    Read(SubscriptionFsReadwrite),
    Write(SubscriptionFsReadwrite),
}

#[derive(Clone, Copy, Debug, PartialEq, Eq, Structural)]
pub enum Addressfamily {
    Unspec,
    Inet4,
    Inet6,
    Unix,
}

#[derive(Clone, Copy, Debug, PartialEq, Eq, Structural)]
pub struct OptionTimestamp {
    /// 0 where there is no timestamp, 1 where `u` holds one.
    pub tag: u8,
    pub u: Timestamp,
}

/// How wide the addresses of a guest are.
pub trait MemorySize {
    /// An address, or a length, in the linear memory of the guest.
    type Offset: Copy;
}

/// A guest with 32-bit addresses.
#[derive(Clone, Copy, Debug, PartialEq, Eq)]
pub struct Memory32;

/// A guest with 64-bit addresses.
#[derive(Clone, Copy, Debug, PartialEq, Eq)]
pub struct Memory64;

impl MemorySize for Memory32 {
    type Offset = u32;
}

impl MemorySize for Memory64 {
    type Offset = u64;
}

/// A buffer of the guest that is read from.
pub struct __wasi_ciovec_t<M: MemorySize> {
    pub buf: M::Offset,
    pub buf_len: M::Offset,
}

/// A buffer of the guest that is written to.
pub struct __wasi_iovec_t<M: MemorySize> {
    pub buf: M::Offset,
    pub buf_len: M::Offset,
}

/// The number of a call on the bus.
pub type Cid = u32;

/// A call number that may be absent.
#[derive(Clone, Copy, Debug, PartialEq, Eq, Structural)]
pub struct OptionCid {
    /// 0 where there is no call, 1 where `cid` holds one.
    pub tag: u8,
    pub cid: Cid,
}

/// How the data of a bus call is laid out.
#[derive(Clone, Copy, Debug, PartialEq, Eq, Structural)]
pub enum BusDataFormat {
    Raw,
    Bincode,
    MessagePack,
    Json,
    Yaml,
    Xml,
    Rkyv,
}

/// A call that came in on the bus.
pub struct __wasi_busevent_call_t<M: MemorySize> {
    pub parent: OptionCid,
    pub cid: Cid,
    pub format: BusDataFormat,
    pub topic_ptr: M::Offset,
    pub topic_len: M::Offset,
    pub buf_ptr: M::Offset,
    pub buf_len: M::Offset,
}

/// The result of a call that went out on the bus.
pub struct __wasi_busevent_result_t<M: MemorySize> {
    pub format: BusDataFormat,
    pub cid: Cid,
    pub buf_ptr: M::Offset,
    pub buf_len: M::Offset,
}

#[derive(Clone, Copy, Debug, PartialEq, Eq)]
pub struct __wasi_hardwareaddress_t {
    pub octs: [u8; 6],
}

#[derive(Clone, Copy, Debug, PartialEq, Eq)]
pub struct __wasi_addr_ip4_t {
    pub octs: [u8; 4],
}

#[derive(Clone, Copy, Debug, PartialEq, Eq)]
pub struct __wasi_addr_ip4_port_t {
    pub port: u16,
    pub ip: __wasi_addr_ip4_t,
}

#[derive(Clone, Copy, Debug, PartialEq, Eq)]
pub struct __wasi_cidr_ip4_t {
    pub ip: __wasi_addr_ip4_t,
    pub prefix: u8,
}

#[derive(Clone, Copy, Debug, PartialEq, Eq)]
pub struct __wasi_addr_unix_t {
    pub octs: [u8; 16],
}

#[derive(Clone, Copy, Debug, PartialEq, Eq)]
pub struct __wasi_addr_unix_port_t {
    pub port: u16,
    pub unix: __wasi_addr_unix_t,
}

#[derive(Clone, Copy, Debug, PartialEq, Eq)]
pub struct __wasi_cidr_unix_t {
    pub unix: __wasi_addr_unix_t,
    pub prefix: u8,
}

#[derive(Clone, Copy, Debug, PartialEq, Eq)]
pub struct __wasi_addr_ip6_t {
    pub segs: [u8; 16],
}

#[derive(Clone, Copy, Debug, PartialEq, Eq)]
pub struct __wasi_addr_ip6_port_t {
    pub port: u16,
    pub ip: __wasi_addr_ip6_t,
}

#[derive(Clone, Copy, Debug, PartialEq, Eq)]
pub struct __wasi_cidr_ip6_t {
    pub ip: __wasi_addr_ip6_t,
    pub prefix: u8,
}

#[derive(Clone, Copy, Debug, PartialEq, Eq)]
pub struct __wasi_addr_u {
    pub octs: [u8; 16],
}

#[derive(Clone, Copy, Debug, PartialEq, Eq)]
pub struct __wasi_addr_t {
    pub tag: Addressfamily,
    pub u: __wasi_addr_u,
}

#[derive(Clone, Copy, Debug, PartialEq, Eq)]
pub struct __wasi_addr_port_u {
    pub octs: [u8; 18],
}

#[derive(Clone, Copy, Debug, PartialEq, Eq)]
pub struct __wasi_addr_port_t {
    pub tag: Addressfamily,
    pub u: __wasi_addr_port_u,
}

#[derive(Clone, Copy, Debug, PartialEq, Eq)]
pub struct __wasi_cidr_u {
    pub octs: [u8; 17],
}

#[derive(Clone, Copy, Debug, PartialEq, Eq)]
pub struct __wasi_cidr_t {
    pub tag: Addressfamily,
    pub u: __wasi_cidr_u,
}

#[derive(Clone, Copy, Debug, PartialEq, Eq)]
pub struct Route {
    pub cidr: __wasi_cidr_t,
    pub via_router: __wasi_addr_t,
    pub preferred_until: OptionTimestamp,
    pub expires_at: OptionTimestamp,
}

impl Filetype {
    /// The number that stands for this type in the WASI binary layout.
    pub open spec fn spec_raw(self) -> u8 {
        match self {
            Filetype::Unknown => 0,
            Filetype::BlockDevice => 1,
            Filetype::CharacterDevice => 2,
            Filetype::Directory => 3,
            Filetype::RegularFile => 4,
            Filetype::SocketDgram => 5,
            Filetype::SocketStream => 6,
            Filetype::SymbolicLink => 7,
            Filetype::Fifo => 8,
        }
    }

    /// The number that stands for this type in the WASI binary layout.
    #[verifier::when_used_as_spec(spec_raw)]
    pub fn raw(self) -> (n: u8)
        ensures
            n == self.spec_raw(),
    {
        match self {
            Filetype::Unknown => 0,
            Filetype::BlockDevice => 1,
            Filetype::CharacterDevice => 2,
            Filetype::Directory => 3,
            Filetype::RegularFile => 4,
            Filetype::SocketDgram => 5,
            Filetype::SocketStream => 6,
            Filetype::SymbolicLink => 7,
            Filetype::Fifo => 8,
        }
    }
}

impl Addressfamily {
    /// The number that stands for this family in the WASI binary layout.
    pub open spec fn spec_raw(self) -> u8 {
        match self {
            Addressfamily::Unspec => 0,
            Addressfamily::Inet4 => 1,
            Addressfamily::Inet6 => 2,
            Addressfamily::Unix => 3,
        }
    }

    /// The number that stands for this family in the WASI binary layout.
    #[verifier::when_used_as_spec(spec_raw)]
    pub fn raw(self) -> (n: u8)
        ensures
            n == self.spec_raw(),
    {
        match self {
            Addressfamily::Unspec => 0,
            Addressfamily::Inet4 => 1,
            Addressfamily::Inet6 => 2,
            Addressfamily::Unix => 3,
        }
    }

    /// The family a number stands for, if any.
    pub open spec fn spec_from_raw(n: u8) -> Option<Addressfamily> {
        match n {
            0 => Some(Addressfamily::Unspec),
            1 => Some(Addressfamily::Inet4),
            2 => Some(Addressfamily::Inet6),
            3 => Some(Addressfamily::Unix),
            _ => None,
        }
    }

    /// The family a number stands for, if any.
    #[verifier::when_used_as_spec(spec_from_raw)]
    pub fn from_raw(n: u8) -> (family: Option<Addressfamily>)
        ensures
            family == Self::spec_from_raw(n),
    {
        match n {
            0 => Some(Addressfamily::Unspec),
            1 => Some(Addressfamily::Inet4),
            2 => Some(Addressfamily::Inet6),
            3 => Some(Addressfamily::Unix),
            _ => None,
        }
    }

    /// A family survives the trip through its number.
    pub proof fn lemma_raw_round_trip(family: Addressfamily)
        ensures
            Self::spec_from_raw(family.spec_raw()) == Some(family),
    {
    }
}

/// The bytes of a directory entry in the WASI binary layout: the cookie, the
/// inode and the name length in little-endian order, then the file type
/// widened to four bytes.
pub open spec fn spec_dirent_le_bytes(ent: Dirent) -> Seq<u8> {
    spec_u64_to_le_bytes(ent.d_next) + spec_u64_to_le_bytes(ent.d_ino) + spec_u32_to_le_bytes(
        ent.d_namlen,
    ) + spec_u32_to_le_bytes(ent.d_type.spec_raw() as u32)
}

/// Lays a directory entry out as the guest expects to read it: 24 bytes.
pub fn dirent_to_le_bytes(ent: &Dirent) -> (out: Vec<u8>)
    ensures
        out@ == spec_dirent_le_bytes(*ent),
        out@.len() == 24,
{
    let mut out: Vec<u8> = u64_to_le_bytes(ent.d_next);
    let mut ino: Vec<u8> = u64_to_le_bytes(ent.d_ino);
    let mut namlen: Vec<u8> = u32_to_le_bytes(ent.d_namlen);
    let mut ty: Vec<u8> = u32_to_le_bytes(ent.d_type.raw() as u32);
    out.append(&mut ino);
    out.append(&mut namlen);
    out.append(&mut ty);
    out
}

impl EventType {
    /// The tag of the subscription.
    pub open spec fn spec_raw_tag(&self) -> Eventtype {
        match self {
            EventType::Clock(_) => Eventtype::Clock,
            EventType::Read(_) => Eventtype::FdRead,
            EventType::Write(_) => Eventtype::FdWrite,
        }
    }

    /// The tag of the subscription.
    #[verifier::when_used_as_spec(spec_raw_tag)]
    pub fn raw_tag(&self) -> (tag: Eventtype)
        ensures
            tag == self.spec_raw_tag(),
    {
        match self {
            EventType::Clock(_) => Eventtype::Clock,
            EventType::Read(_) => Eventtype::FdRead,
            EventType::Write(_) => Eventtype::FdWrite,
        }
    }
}

/// Whether a set of rights holds the right of a bit.
pub open spec fn spec_has_right(rights: Rights, bit: u8) -> bool {
    bit < 64 && rights & (1u64 << (bit as u64)) != 0
}

/// Whether a set of rights holds the right of a bit.
#[verifier::when_used_as_spec(spec_has_right)]
pub fn has_right(rights: Rights, bit: u8) -> (held: bool)
    ensures
        held == spec_has_right(rights, bit),
{
    bit < 64 && rights & (1u64 << (bit as u64)) != 0
}

/// The name of the right of a bit.
pub open spec fn spec_right_name(bit: u8) -> Seq<char> {
    match bit {
        0 => "FD_DATASYNC"@,
        1 => "FD_READ"@,
        2 => "FD_SEEK"@,
        3 => "FD_FDSTAT_SET_FLAGS"@,
        4 => "FD_SYNC"@,
        5 => "FD_TELL"@,
        6 => "FD_WRITE"@,
        7 => "FD_ADVISE"@,
        8 => "FD_ALLOCATE"@,
        9 => "PATH_CREATE_DIRECTORY"@,
        10 => "PATH_CREATE_FILE"@,
        11 => "PATH_LINK_SOURCE"@,
        12 => "PATH_LINK_TARGET"@,
        13 => "PATH_OPEN"@,
        14 => "FD_READDIR"@,
        15 => "PATH_READLINK"@,
        16 => "PATH_RENAME_SOURCE"@,
        17 => "PATH_RENAME_TARGET"@,
        18 => "PATH_FILESTAT_GET"@,
        19 => "PATH_FILESTAT_SET_SIZE"@,
        20 => "PATH_FILESTAT_SET_TIMES"@,
        21 => "FD_FILESTAT_GET"@,
        22 => "FD_FILESTAT_SET_SIZE"@,
        23 => "FD_FILESTAT_SET_TIMES"@,
        24 => "PATH_SYMLINK"@,
        25 => "PATH_REMOVE_DIRECTORY"@,
        26 => "PATH_UNLINK_FILE"@,
        27 => "POLL_FD_READWRITE"@,
        28 => "SOCK_SHUTDOWN"@,
        _ => "INVALID RIGHT"@,
    }
}

/// The name of the right of a bit, `"INVALID RIGHT"` where the bit stands
/// for none.
pub fn right_name(bit: u8) -> (name: &'static str)
    ensures
        name@ == spec_right_name(bit),
{
    match bit {
        0 => "FD_DATASYNC",
        1 => "FD_READ",
        2 => "FD_SEEK",
        3 => "FD_FDSTAT_SET_FLAGS",
        4 => "FD_SYNC",
        5 => "FD_TELL",
        6 => "FD_WRITE",
        7 => "FD_ADVISE",
        8 => "FD_ALLOCATE",
        9 => "PATH_CREATE_DIRECTORY",
        10 => "PATH_CREATE_FILE",
        11 => "PATH_LINK_SOURCE",
        12 => "PATH_LINK_TARGET",
        13 => "PATH_OPEN",
        14 => "FD_READDIR",
        15 => "PATH_READLINK",
        16 => "PATH_RENAME_SOURCE",
        17 => "PATH_RENAME_TARGET",
        18 => "PATH_FILESTAT_GET",
        19 => "PATH_FILESTAT_SET_SIZE",
        20 => "PATH_FILESTAT_SET_TIMES",
        21 => "FD_FILESTAT_GET",
        22 => "FD_FILESTAT_SET_SIZE",
        23 => "FD_FILESTAT_SET_TIMES",
        24 => "PATH_SYMLINK",
        25 => "PATH_REMOVE_DIRECTORY",
        26 => "PATH_UNLINK_FILE",
        27 => "POLL_FD_READWRITE",
        28 => "SOCK_SHUTDOWN",
        _ => "INVALID RIGHT",
    }
}

/// The bits of the rights 0 to 27, in the order of their names.
pub open spec fn spec_right_by_name(rank: int) -> u8 {
    if rank == 0 {
        7
    } else if rank == 1 {
        8
    } else if rank == 2 {
        0
    } else if rank == 3 {
        3
    } else if rank == 4 {
        21
    } else if rank == 5 {
        22
    } else if rank == 6 {
        23
    } else if rank == 7 {
        1
    } else if rank == 8 {
        14
    } else if rank == 9 {
        2
    } else if rank == 10 {
        4
    } else if rank == 11 {
        5
    } else if rank == 12 {
        6
    } else if rank == 13 {
        9
    } else if rank == 14 {
        10
    } else if rank == 15 {
        18
    } else if rank == 16 {
        19
    } else if rank == 17 {
        20
    } else if rank == 18 {
        11
    } else if rank == 19 {
        12
    } else if rank == 20 {
        13
    } else if rank == 21 {
        15
    } else if rank == 22 {
        25
    } else if rank == 23 {
        16
    } else if rank == 24 {
        17
    } else if rank == 25 {
        24
    } else if rank == 26 {
        26
    } else {
        27
    }
}

/// The bit of the right whose name comes at a rank among the names of the
/// rights 0 to 27.
pub fn right_by_name(rank: usize) -> (bit: u8)
    requires
        rank < NAMED_RIGHTS,
    ensures
        bit == spec_right_by_name(rank as int),
        bit < NAMED_RIGHTS,
{
    match rank {
        0 => 7,
        1 => 8,
        2 => 0,
        3 => 3,
        4 => 21,
        5 => 22,
        6 => 23,
        7 => 1,
        8 => 14,
        9 => 2,
        10 => 4,
        11 => 5,
        12 => 6,
        13 => 9,
        14 => 10,
        15 => 18,
        16 => 19,
        17 => 20,
        18 => 11,
        19 => 12,
        20 => 13,
        21 => 15,
        22 => 25,
        23 => 16,
        24 => 17,
        25 => 24,
        26 => 26,
        _ => 27,
    }
}

/// The names of the rights held among the first `ranks` rights in name
/// order.
pub open spec fn spec_right_set_names(rights: Rights, ranks: int) -> Seq<Seq<char>>
    decreases ranks,
{
    if ranks <= 0 {
        Seq::empty()
    } else {
        let before = spec_right_set_names(rights, ranks - 1);
        let bit = spec_right_by_name(ranks - 1);
        if spec_has_right(rights, bit) {
            before.push(spec_right_name(bit))
        } else {
            before
        }
    }
}

/// The views of a sequence of strings.
pub open spec fn spec_str_views(names: Seq<&'static str>) -> Seq<Seq<char>> {
    Seq::new(names.len(), |i: int| names[i]@)
}

/// The names of the rights 0 to 27 that a set holds: each once, in the order
/// of the names. Meant for debugging rights issues.
pub fn right_set_names(rights: Rights) -> (names: Vec<&'static str>)
    ensures
        spec_str_views(names@) == spec_right_set_names(rights, NAMED_RIGHTS as int),
{
    let mut names: Vec<&'static str> = Vec::new();
    let mut rank: usize = 0;
    while rank < NAMED_RIGHTS
        invariant
            rank <= NAMED_RIGHTS,
            spec_str_views(names@) == spec_right_set_names(rights, rank as int),
        decreases NAMED_RIGHTS - rank,
    {
        let bit = right_by_name(rank);
        if has_right(rights, bit) {
            let ghost before = names@;
            names.push(right_name(bit));
            assert(spec_str_views(names@) =~= spec_str_views(before).push(spec_right_name(bit)));
        }
        rank = rank + 1;
    }
    names
}

} // verus!
