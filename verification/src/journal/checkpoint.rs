//! Checkpoints: a guest written down whole, between a begin marker and an
//! end marker, as entries that put the guest together again when they are
//! applied to a guest that is new.
use super::entry::{clone_bytes, EntryView, JournalEntry, SocketAddressView, Whence};
use super::guest::{Descriptor, FileView, Guest, GuestView};
use super::slots::MAX_SLOTS;
use super::traits::spec_entry_views;
use crate::wasi_types::{Addressfamily, Fd};
use crate::wasi_types::{__wasi_addr_port_t, __wasi_addr_port_u};
use vstd::prelude::*;

verus! {

/// The descriptor number a checkpoint writes resources through.
pub const SCRATCH_FD: Fd = 0;

/// The address a checkpoint writes for a socket: the guest remembers that a
/// socket is bound or connected, not where to.
pub open spec fn spec_blank_address() -> SocketAddressView {
    SocketAddressView { family: Addressfamily::Unspec, octets: Seq::new(18, |i: int| 0u8) }
}

/// The entries that make one resource: opened, written, closed.
pub open spec fn spec_file_run(file: FileView) -> Seq<EntryView> {
    seq![
        EntryView::OpenFileDescriptor {
            fd: SCRATCH_FD,
            path: file.path,
            rights_base: 0,
            rights_inheriting: 0,
            flags: 0,
        },
        EntryView::FileDescriptorWrite { fd: SCRATCH_FD, data: file.content },
        EntryView::CloseFileDescriptor { fd: SCRATCH_FD },
    ]
}

/// The entries that make the first `upto` resources, in their order.
pub open spec fn spec_file_entries(files: Seq<FileView>, upto: int) -> Seq<EntryView>
    decreases upto,
{
    if upto <= 0 {
        Seq::empty()
    } else {
        spec_file_entries(files, upto - 1) + spec_file_run(files[upto - 1])
    }
}

/// The entries that say what kind of socket a descriptor is.
pub open spec fn spec_socket_run(fd: Fd, d: Descriptor) -> Seq<EntryView> {
    (if d.bound {
        seq![EntryView::SocketBind { fd, addr: spec_blank_address() }]
    } else {
        Seq::empty()
    }) + (if d.connected {
        seq![EntryView::SocketConnect { fd, addr: spec_blank_address() }]
    } else {
        Seq::empty()
    }) + (if d.listening {
        seq![EntryView::SocketListen { fd, backlog: d.backlog }]
    } else {
        Seq::empty()
    })
}

/// The entries that make one descriptor on the resource under a path.
pub open spec fn spec_descriptor_run(fd: Fd, d: Descriptor, path: Seq<u8>) -> Seq<EntryView> {
    seq![
        EntryView::OpenFileDescriptor {
            fd,
            path,
            rights_base: d.rights_base,
            rights_inheriting: d.rights_inheriting,
            flags: d.flags,
        },
        EntryView::SeekFileDescriptor { fd, offset: d.cursor as i64, whence: Whence::Start },
    ] + spec_socket_run(fd, d) + seq![EntryView::SocketShutdown { fd, how: d.shutdown }]
}

/// The entries that make the descriptors under the numbers below `upto`,
/// in the order of their numbers.
pub open spec fn spec_descriptor_entries(g: GuestView, upto: int) -> Seq<EntryView>
    decreases upto,
{
    if upto <= 0 {
        Seq::empty()
    } else {
        let fd = (upto - 1) as u32;
        spec_descriptor_entries(g, upto - 1) + (if g.descriptors.contains_key(fd) {
            spec_descriptor_run(
                fd,
                g.descriptors[fd],
                g.files[g.descriptors[fd].file as int].path,
            )
        } else {
            Seq::empty()
        })
    }
}

/// The entries that spawn the threads with ids below `upto`, in the order
/// of their ids.
pub open spec fn spec_thread_entries(threads: Set<u32>, upto: int) -> Seq<EntryView>
    decreases upto,
{
    if upto <= 0 {
        Seq::empty()
    } else {
        let tid = (upto - 1) as u32;
        spec_thread_entries(threads, upto - 1) + (if threads.contains(tid) {
            seq![EntryView::ThreadSpawn { tid }]
        } else {
            Seq::empty()
        })
    }
}

/// The entries that deliver signals, in their order.
pub open spec fn spec_signal_entries(signals: Seq<u8>) -> Seq<EntryView> {
    Seq::new(signals.len(), |i: int| EntryView::Signal { signal: signals[i] })
}

/// The entries that tell a guest of the world: the clock, if it was read,
/// the environment, the arguments and the random bytes.
pub open spec fn spec_world_entries(g: GuestView) -> Seq<EntryView> {
    (match g.clock {
        Some((clock_id, time)) => seq![EntryView::ClockTime { clock_id, time }],
        None => Seq::empty(),
    }) + seq![
        EntryView::Environment { data: g.environment },
        EntryView::Arguments { data: g.arguments },
        EntryView::Random { data: g.random },
    ]
}

/// The entry that ends the process, if it has ended.
pub open spec fn spec_exit_entries(exit_code: Option<u32>) -> Seq<EntryView> {
    match exit_code {
        Some(exit_code) => seq![EntryView::ProcessExit { exit_code }],
        None => Seq::empty(),
    }
}

/// A guest written down whole: the checkpoint of the guest.
///
/// Between the markers stand, in this order: linear memory as one
/// snapshot; each resource, opened through a scratch descriptor, written
/// and closed; each descriptor, opened on its resource, moved to its
/// cursor and made the socket it is; each thread; each signal; what the
/// guest was told of the world; and the exit of the process, if it has
/// exited.
pub open spec fn spec_snapshot(g: GuestView) -> Seq<EntryView> {
    seq![EntryView::CheckpointBegin, EntryView::MemorySnapshot { offset: 0, data: g.memory }]
        + spec_file_entries(g.files, g.files.len() as int) + spec_descriptor_entries(
        g,
        MAX_SLOTS as int,
    ) + spec_thread_entries(g.threads, MAX_SLOTS as int) + spec_signal_entries(g.signals)
        + spec_world_entries(g) + spec_exit_entries(g.exit_code) + seq![EntryView::CheckpointEnd]
}

/// No descriptor, no entries: above the number of every descriptor the
/// entries that make the descriptors are all there.
pub proof fn lemma_descriptor_entries_above(g: GuestView, bound: int, upto: int)
    requires
        0 <= bound <= upto,
        forall|fd: Fd| g.descriptors.contains_key(fd) ==> (fd as int) < bound,
        upto <= u32::MAX,
    ensures
        spec_descriptor_entries(g, upto) == spec_descriptor_entries(g, bound),
    decreases upto - bound,
{
    if bound < upto {
        lemma_descriptor_entries_above(g, bound, upto - 1);
        assert(spec_descriptor_entries(g, upto - 1) + Seq::<EntryView>::empty()
            =~= spec_descriptor_entries(g, upto - 1));
    }
}

/// No thread, no entries: above the id of every thread the entries that
/// spawn the threads are all there.
pub proof fn lemma_thread_entries_above(threads: Set<u32>, bound: int, upto: int)
    requires
        0 <= bound <= upto,
        forall|tid: u32| threads.contains(tid) ==> (tid as int) < bound,
        upto <= u32::MAX,
    ensures
        spec_thread_entries(threads, upto) == spec_thread_entries(threads, bound),
    decreases upto - bound,
{
    if bound < upto {
        lemma_thread_entries_above(threads, bound, upto - 1);
        assert(spec_thread_entries(threads, upto - 1) + Seq::<EntryView>::empty()
            =~= spec_thread_entries(threads, upto - 1));
    }
}

/// Puts one more entry at the end of a run.
pub fn push_entry(out: &mut Vec<JournalEntry>, entry: JournalEntry)
    ensures
        spec_entry_views(final(out)@) == spec_entry_views(old(out)@).push(entry@),
{
    out.push(entry);
    assert(spec_entry_views(out@) =~= spec_entry_views(old(out)@).push(entry@));
}

/// The address a checkpoint writes for a socket.
pub fn blank_address() -> (addr: __wasi_addr_port_t)
    ensures
        addr@ == spec_blank_address(),
{
    broadcast use vstd::array::group_array_axioms;

    let octs: [u8; 18] = [0u8;18];
    let addr = __wasi_addr_port_t { tag: Addressfamily::Unspec, u: __wasi_addr_port_u { octs } };
    assert(addr@.octets =~= spec_blank_address().octets);
    addr
}

/// Writes down the resources of a guest.
fn snapshot_files(guest: &Guest, out: &mut Vec<JournalEntry>)
    requires
        guest.well_formed(),
    ensures
        spec_entry_views(final(out)@) == spec_entry_views(old(out)@) + spec_file_entries(
            guest@.files,
            guest@.files.len() as int,
        ),
{
    let count = guest.file_count();
    let mut i: usize = 0;
    assert(spec_entry_views(out@) + spec_file_entries(guest@.files, 0) =~= spec_entry_views(out@));
    while i < count
        invariant
            i <= count,
            count == guest@.files.len(),
            spec_entry_views(out@) == spec_entry_views(old(out)@) + spec_file_entries(
                guest@.files,
                i as int,
            ),
        decreases count - i,
    {
        let file = guest.file(i);
        let ghost before = spec_entry_views(out@);
        push_entry(
            out,
            JournalEntry::OpenFileDescriptor {
                fd: SCRATCH_FD,
                path: clone_bytes(&file.path),
                rights_base: 0,
                rights_inheriting: 0,
                flags: 0,
            },
        );
        push_entry(
            out,
            JournalEntry::FileDescriptorWrite { fd: SCRATCH_FD, data: clone_bytes(&file.content) },
        );
        push_entry(out, JournalEntry::CloseFileDescriptor { fd: SCRATCH_FD });
        i = i + 1;
        assert(spec_entry_views(out@) =~= before + spec_file_run(guest@.files[i - 1]));
        assert(spec_entry_views(out@) =~= spec_entry_views(old(out)@) + spec_file_entries(
            guest@.files,
            i as int,
        ));
    }
}

/// Writes down one descriptor of a guest.
fn snapshot_descriptor(out: &mut Vec<JournalEntry>, fd: Fd, d: Descriptor, path: &Vec<u8>)
    requires
        d.cursor <= 0x7fff_ffff_ffff_ffff,
    ensures
        spec_entry_views(final(out)@) == spec_entry_views(old(out)@) + spec_descriptor_run(
            fd,
            d,
            path@,
        ),
{
    let ghost start = spec_entry_views(out@);
    push_entry(
        out,
        JournalEntry::OpenFileDescriptor {
            fd,
            path: clone_bytes(path),
            rights_base: d.rights_base,
            rights_inheriting: d.rights_inheriting,
            flags: d.flags,
        },
    );
    push_entry(
        out,
        JournalEntry::SeekFileDescriptor { fd, offset: d.cursor as i64, whence: Whence::Start },
    );
    let ghost opened = spec_entry_views(out@);
    if d.bound {
        push_entry(out, JournalEntry::SocketBind { fd, addr: blank_address() });
    }
    let ghost bound = spec_entry_views(out@);
    if d.connected {
        push_entry(out, JournalEntry::SocketConnect { fd, addr: blank_address() });
    }
    let ghost connected = spec_entry_views(out@);
    if d.listening {
        push_entry(out, JournalEntry::SocketListen { fd, backlog: d.backlog });
    }
    assert(spec_entry_views(out@) =~= opened + spec_socket_run(fd, d));
    push_entry(out, JournalEntry::SocketShutdown { fd, how: d.shutdown });
    assert(spec_entry_views(out@) =~= start + spec_descriptor_run(fd, d, path@));
}

/// Writes down the descriptors of a guest.
fn snapshot_descriptors(guest: &Guest, out: &mut Vec<JournalEntry>)
    requires
        guest.well_formed(),
    ensures
        spec_entry_views(final(out)@) == spec_entry_views(old(out)@) + spec_descriptor_entries(
            guest@,
            MAX_SLOTS as int,
        ),
{
    let bound = guest.descriptor_bound();
    let mut i: usize = 0;
    proof {
        guest.lemma_well_formed();
        assert(spec_entry_views(out@) + spec_descriptor_entries(guest@, 0) =~= spec_entry_views(
            out@,
        ));
    }
    while i < bound
        invariant
            i <= bound,
            bound <= MAX_SLOTS,
            guest.well_formed(),
            guest@.valid(),
            spec_entry_views(out@) == spec_entry_views(old(out)@) + spec_descriptor_entries(
                guest@,
                i as int,
            ),
        decreases bound - i,
    {
        let fd = i as u32;
        let ghost before = spec_entry_views(out@);
        match guest.descriptor(fd) {
            Some(d) => {
                assert(guest@.descriptors.contains_key(fd));
                assert(super::guest::spec_descriptor_fits(fd, d, guest@.files.len()));
                let file = guest.file(d.file);
                snapshot_descriptor(out, fd, d, &file.path);
            },
            None => {
                assert(before + Seq::<EntryView>::empty() =~= before);
            },
        }
        i = i + 1;
        assert(spec_entry_views(out@) =~= spec_entry_views(old(out)@) + spec_descriptor_entries(
            guest@,
            i as int,
        ));
    }
    proof {
        lemma_descriptor_entries_above(guest@, bound as int, MAX_SLOTS as int);
    }
}

/// Writes down the threads of a guest.
fn snapshot_threads(guest: &Guest, out: &mut Vec<JournalEntry>)
    requires
        guest.well_formed(),
    ensures
        spec_entry_views(final(out)@) == spec_entry_views(old(out)@) + spec_thread_entries(
            guest@.threads,
            MAX_SLOTS as int,
        ),
{
    let bound = guest.thread_bound();
    let mut i: usize = 0;
    assert(spec_entry_views(out@) + spec_thread_entries(guest@.threads, 0) =~= spec_entry_views(
        out@,
    ));
    while i < bound
        invariant
            i <= bound,
            bound <= MAX_SLOTS,
            spec_entry_views(out@) == spec_entry_views(old(out)@) + spec_thread_entries(
                guest@.threads,
                i as int,
            ),
        decreases bound - i,
    {
        let tid = i as u32;
        let ghost before = spec_entry_views(out@);
        if guest.thread_running(tid) {
            push_entry(out, JournalEntry::ThreadSpawn { tid });
            assert(spec_entry_views(out@) =~= before + seq![EntryView::ThreadSpawn { tid }]);
        } else {
            assert(before + Seq::<EntryView>::empty() =~= before);
        }
        i = i + 1;
        assert(spec_entry_views(out@) =~= spec_entry_views(old(out)@) + spec_thread_entries(
            guest@.threads,
            i as int,
        ));
    }
    proof {
        lemma_thread_entries_above(guest@.threads, bound as int, MAX_SLOTS as int);
    }
}

/// Writes down the signals of a guest.
fn snapshot_signals(guest: &Guest, out: &mut Vec<JournalEntry>)
    ensures
        spec_entry_views(final(out)@) == spec_entry_views(old(out)@) + spec_signal_entries(
            guest@.signals,
        ),
{
    let signals = guest.signals();
    let mut i: usize = 0;
    assert(spec_entry_views(out@) + spec_signal_entries(signals@).take(0) =~= spec_entry_views(
        out@,
    ));
    while i < signals.len()
        invariant
            i <= signals@.len(),
            signals@ == guest@.signals,
            spec_entry_views(out@) == spec_entry_views(old(out)@) + spec_signal_entries(
                signals@,
            ).take(i as int),
        decreases signals@.len() - i,
    {
        push_entry(out, JournalEntry::Signal { signal: signals[i] });
        i = i + 1;
        assert(spec_entry_views(out@) =~= spec_entry_views(old(out)@) + spec_signal_entries(
            signals@,
        ).take(i as int));
    }
    assert(spec_signal_entries(signals@).take(i as int) =~= spec_signal_entries(signals@));
}

/// Writes down what a guest was told of the world, and its exit.
fn snapshot_world(guest: &Guest, out: &mut Vec<JournalEntry>)
    ensures
        spec_entry_views(final(out)@) == spec_entry_views(old(out)@) + spec_world_entries(guest@)
            + spec_exit_entries(guest@.exit_code),
{
    let ghost start = spec_entry_views(out@);
    match guest.clock() {
        Some((clock_id, time)) => {
            push_entry(out, JournalEntry::ClockTime { clock_id, time });
        },
        None => {},
    }
    push_entry(out, JournalEntry::Environment { data: clone_bytes(guest.environment()) });
    push_entry(out, JournalEntry::Arguments { data: clone_bytes(guest.arguments()) });
    push_entry(out, JournalEntry::Random { data: clone_bytes(guest.random()) });
    assert(spec_entry_views(out@) =~= start + spec_world_entries(guest@));
    match guest.exit_code() {
        Some(exit_code) => {
            push_entry(out, JournalEntry::ProcessExit { exit_code });
        },
        None => {},
    }
    assert(spec_entry_views(out@) =~= start + spec_world_entries(guest@) + spec_exit_entries(
        guest@.exit_code,
    ));
}

/// Writes a guest down whole: the entries of its checkpoint, from the begin
/// marker to the end marker.
pub fn snapshot(guest: &Guest) -> (entries: Vec<JournalEntry>)
    requires
        guest.well_formed(),
    ensures
        spec_entry_views(entries@) == spec_snapshot(guest@),
{
    let mut out: Vec<JournalEntry> = Vec::new();
    push_entry(&mut out, JournalEntry::CheckpointBegin);
    push_entry(
        &mut out,
        JournalEntry::MemorySnapshot { offset: 0, data: clone_bytes(guest.memory()) },
    );
    let ghost head = spec_entry_views(out@);
    assert(head =~= seq![
        EntryView::CheckpointBegin,
        EntryView::MemorySnapshot { offset: 0, data: guest@.memory },
    ]);
    snapshot_files(guest, &mut out);
    snapshot_descriptors(guest, &mut out);
    snapshot_threads(guest, &mut out);
    snapshot_signals(guest, &mut out);
    snapshot_world(guest, &mut out);
    let ghost body = spec_entry_views(out@);
    push_entry(&mut out, JournalEntry::CheckpointEnd);
    assert(spec_entry_views(out@) =~= body + seq![EntryView::CheckpointEnd]);
    out
}

} // verus!
