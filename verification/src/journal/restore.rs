//! Why a checkpoint is a restore point: the entries of the checkpoint of a
//! guest, applied in order to a guest that is new, give the guest that was
//! written down.
use super::checkpoint::{
    spec_blank_address, spec_descriptor_entries, spec_descriptor_run, spec_exit_entries,
    spec_file_entries, spec_file_run, spec_signal_entries, spec_snapshot, spec_socket_run,
    spec_thread_entries, spec_world_entries, SCRATCH_FD,
};
use super::compact::lemma_replay_prefix;
use super::entry::{EntryView, Whence};
use super::guest::{
    spec_descriptor_fits, spec_file_write, spec_find_file,
    spec_fresh_descriptor, spec_memory_write, spec_zeros, Descriptor, FileView, GuestView,
    MAX_CURSOR,
};
use super::replay::{spec_replay, ReplayFailure};
use super::slots::MAX_SLOTS;
use crate::wasi_types::Fd;
use vstd::prelude::*;

verus! {

/// The guest after a run of entries was applied to it in order, or the
/// first of them that could not be applied.
pub open spec fn spec_replay_all(g: GuestView, entries: Seq<EntryView>) -> Result<
    GuestView,
    ReplayFailure,
> {
    spec_replay(g, entries, 0, entries.len() as int)
}

/// No entries change nothing.
pub proof fn lemma_replay_none(g: GuestView)
    ensures
        spec_replay_all(g, Seq::<EntryView>::empty()) == Ok::<GuestView, ReplayFailure>(g),
{
}

/// One more entry at the end of a run is one more step of replay.
pub proof fn lemma_replay_push(g: GuestView, entries: Seq<EntryView>, e: EntryView)
    requires
        spec_replay_all(g, entries).is_ok(),
        spec_replay_all(g, entries).unwrap().apply(e).is_ok(),
    ensures
        spec_replay_all(g, entries.push(e)) == Ok::<GuestView, ReplayFailure>(
            spec_replay_all(g, entries).unwrap().apply(e).unwrap(),
        ),
{
    let more = entries.push(e);
    lemma_replay_prefix(g, entries, more, entries.len() as int);
    assert(more[entries.len() as int] == e);
}

/// One entry is one step of replay.
pub proof fn lemma_replay_one(g: GuestView, e: EntryView)
    requires
        g.apply(e).is_ok(),
    ensures
        spec_replay_all(g, seq![e]) == Ok::<GuestView, ReplayFailure>(g.apply(e).unwrap()),
{
    lemma_replay_none(g);
    lemma_replay_push(g, Seq::<EntryView>::empty(), e);
    assert(Seq::<EntryView>::empty().push(e) =~= seq![e]);
}

/// Replay of the first entries of a run followed by another run.
proof fn lemma_replay_append_upto(g: GuestView, a: Seq<EntryView>, b: Seq<EntryView>, upto: int)
    requires
        0 <= upto <= b.len(),
        spec_replay_all(g, a).is_ok(),
        spec_replay(spec_replay_all(g, a).unwrap(), b, 0, upto).is_ok(),
    ensures
        spec_replay(g, a + b, 0, a.len() + upto) == spec_replay(
            spec_replay_all(g, a).unwrap(),
            b,
            0,
            upto,
        ),
    decreases upto,
{
    if upto == 0 {
        lemma_replay_prefix(g, a, a + b, a.len() as int);
    } else {
        lemma_replay_append_upto(g, a, b, upto - 1);
        assert((a + b)[a.len() + upto - 1] == b[upto - 1]);
    }
}

/// Replay of one run after another is replay of the second from where
/// replay of the first ended.
pub proof fn lemma_replay_append(g: GuestView, a: Seq<EntryView>, b: Seq<EntryView>)
    requires
        spec_replay_all(g, a).is_ok(),
        spec_replay_all(spec_replay_all(g, a).unwrap(), b).is_ok(),
    ensures
        spec_replay_all(g, a + b) == spec_replay_all(spec_replay_all(g, a).unwrap(), b),
{
    lemma_replay_append_upto(g, a, b, b.len() as int);
}

/// Where no two resources stand under one path, the resource found under
/// the path of a resource is that resource.
pub proof fn lemma_find_file_at(files: Seq<FileView>, index: int, upto: int)
    requires
        0 <= index < upto <= files.len(),
        forall|i: int, j: int|
            0 <= i < j < files.len() ==> (#[trigger] files[i]).path != (#[trigger] files[j]).path,
    ensures
        spec_find_file(files, files[index].path, upto) == Some(index),
    decreases upto,
{
    if upto - 1 > index {
        lemma_find_file_at(files, index, upto - 1);
    } else {
        lemma_find_file_missing(files, files[index].path, index);
    }
}

/// Where none of the resources looked at stands under a path, none is
/// found.
pub proof fn lemma_find_file_missing(files: Seq<FileView>, path: Seq<u8>, upto: int)
    requires
        0 <= upto <= files.len(),
        forall|i: int| 0 <= i < upto ==> (#[trigger] files[i]).path != path,
    ensures
        spec_find_file(files, path, upto).is_none(),
    decreases upto,
{
    if upto > 0 {
        lemma_find_file_missing(files, path, upto - 1);
    }
}

/// The entries of one resource make the resource: they put it last among
/// the resources and leave everything else as it was.
pub proof fn lemma_file_run(s: GuestView, file: FileView)
    requires
        !s.descriptors.contains_key(SCRATCH_FD),
        forall|i: int| 0 <= i < s.files.len() ==> (#[trigger] s.files[i]).path != file.path,
        s.files.len() < usize::MAX,
        file.content.len() <= MAX_CURSOR,
        file.content.len() <= usize::MAX,
    ensures
        spec_replay_all(s, spec_file_run(file)) == Ok::<GuestView, ReplayFailure>(
            GuestView { files: s.files.push(file), ..s },
        ),
{
    let open = spec_file_run(file)[0];
    let write = spec_file_run(file)[1];
    let close = spec_file_run(file)[2];
    lemma_find_file_missing(s.files, file.path, s.files.len() as int);
    let opened = s.apply(open).unwrap();
    assert(s.apply(open).is_ok());
    let blank = FileView { path: file.path, content: Seq::empty() };
    assert(opened.files == s.files.push(blank));
    assert(opened.descriptors == s.descriptors.insert(
        SCRATCH_FD,
        spec_fresh_descriptor(s.files.len() as usize, 0, 0, 0),
    ));
    let d = opened.descriptors[SCRATCH_FD];
    assert(d.file == s.files.len() && d.cursor == 0);
    assert(spec_file_write(Seq::<u8>::empty(), 0, file.content) =~= file.content);
    assert(opened.apply(write).is_ok());
    let written = opened.apply(write).unwrap();
    assert(written.files =~= s.files.push(file));
    assert(written.apply(close).is_ok());
    let closed = written.apply(close).unwrap();
    assert(closed.descriptors =~= s.descriptors);
    assert(closed =~= GuestView { files: s.files.push(file), ..s });
    lemma_replay_one(s, open);
    lemma_replay_push(s, seq![open], write);
    lemma_replay_push(s, seq![open].push(write), close);
    assert(seq![open].push(write).push(close) =~= spec_file_run(file));
}

/// The entries of the first resources make those resources, in their
/// order.
pub proof fn lemma_files_restore(s: GuestView, files: Seq<FileView>, upto: int)
    requires
        0 <= upto <= files.len(),
        files.len() <= usize::MAX,
        s.files.len() == 0,
        !s.descriptors.contains_key(SCRATCH_FD),
        forall|i: int, j: int|
            0 <= i < j < files.len() ==> (#[trigger] files[i]).path != (#[trigger] files[j]).path,
        forall|i: int|
            0 <= i < files.len() ==> (#[trigger] files[i]).content.len() <= MAX_CURSOR && files[i].content.len()
                <= usize::MAX,
    ensures
        spec_replay_all(s, spec_file_entries(files, upto)) == Ok::<GuestView, ReplayFailure>(
            GuestView { files: files.take(upto), ..s },
        ),
    decreases upto,
{
    if upto == 0 {
        lemma_replay_none(s);
        assert(files.take(0) =~= s.files);
        assert(GuestView { files: files.take(0), ..s } =~= s);
    } else {
        lemma_files_restore(s, files, upto - 1);
        let mid = GuestView { files: files.take(upto - 1), ..s };
        let file = files[upto - 1];
        assert forall|i: int| 0 <= i < mid.files.len() implies (#[trigger] mid.files[i]).path
            != file.path by {
            assert(mid.files[i] == files[i]);
        }
        lemma_file_run(mid, file);
        assert(files.take(upto - 1).push(file) =~= files.take(upto));
        lemma_replay_append(s, spec_file_entries(files, upto - 1), spec_file_run(file));
    }
}

/// One entry after a run that replays: the run with the entry replays to
/// what the entry makes of the guest the run gave.
proof fn lemma_replay_then(g: GuestView, run: Seq<EntryView>, mid: GuestView, e: EntryView)
    requires
        spec_replay_all(g, run) == Ok::<GuestView, ReplayFailure>(mid),
        mid.apply(e).is_ok(),
    ensures
        spec_replay_all(g, run + seq![e]) == Ok::<GuestView, ReplayFailure>(mid.apply(e).unwrap()),
{
    lemma_replay_push(g, run, e);
    assert(run.push(e) =~= run + seq![e]);
}

/// Nothing after a run that replays changes nothing.
proof fn lemma_replay_then_nothing(g: GuestView, run: Seq<EntryView>)
    ensures
        spec_replay_all(g, run + Seq::<EntryView>::empty()) == spec_replay_all(g, run),
{
    assert(run + Seq::<EntryView>::empty() =~= run);
}

/// The entries that say what kind of socket a descriptor is make the
/// descriptor that kind of socket.
pub proof fn lemma_socket_run(s: GuestView, fd: Fd, d: Descriptor)
    requires
        s.descriptors.contains_key(fd),
        !d.listening ==> d.backlog == 0,
        s.descriptors[fd] == (Descriptor {
            bound: false,
            connected: false,
            listening: false,
            backlog: 0,
            shutdown: 0,
            ..d
        }),
    ensures
        spec_replay_all(s, spec_socket_run(fd, d)) == Ok::<GuestView, ReplayFailure>(
            s.with_descriptor(fd, Descriptor { shutdown: 0, ..d }),
        ),
{
    let start = s.descriptors[fd];
    let none = Seq::<EntryView>::empty();
    lemma_replay_none(s);
    // bound
    let run1 = none + (if d.bound {
        seq![EntryView::SocketBind { fd, addr: spec_blank_address() }]
    } else {
        none
    });
    let d1 = Descriptor { bound: d.bound, ..start };
    let s1 = s.with_descriptor(fd, d1);
    if d.bound {
        let e = EntryView::SocketBind { fd, addr: spec_blank_address() };
        assert(s.apply(e).unwrap() =~= s1);
        lemma_replay_then(s, none, s, e);
    } else {
        assert(s1 =~= s);
        lemma_replay_then_nothing(s, none);
    }
    assert(spec_replay_all(s, run1) == Ok::<GuestView, ReplayFailure>(s1));
    // connected
    let run2 = run1 + (if d.connected {
        seq![EntryView::SocketConnect { fd, addr: spec_blank_address() }]
    } else {
        none
    });
    let d2 = Descriptor { connected: d.connected, ..d1 };
    let s2 = s.with_descriptor(fd, d2);
    if d.connected {
        let e = EntryView::SocketConnect { fd, addr: spec_blank_address() };
        assert(s1.apply(e).unwrap() =~= s2);
        lemma_replay_then(s, run1, s1, e);
    } else {
        assert(s2 =~= s1);
        lemma_replay_then_nothing(s, run1);
    }
    assert(spec_replay_all(s, run2) == Ok::<GuestView, ReplayFailure>(s2));
    // listening
    let run3 = run2 + (if d.listening {
        seq![EntryView::SocketListen { fd, backlog: d.backlog }]
    } else {
        none
    });
    let d3 = Descriptor { listening: d.listening, backlog: d.backlog, ..d2 };
    let s3 = s.with_descriptor(fd, d3);
    if d.listening {
        let e = EntryView::SocketListen { fd, backlog: d.backlog };
        assert(s2.apply(e).unwrap() =~= s3);
        lemma_replay_then(s, run2, s2, e);
    } else {
        assert(s3 =~= s2);
        lemma_replay_then_nothing(s, run2);
    }
    assert(spec_replay_all(s, run3) == Ok::<GuestView, ReplayFailure>(s3));
    assert(run3 =~= spec_socket_run(fd, d));
    assert(d3 == (Descriptor { shutdown: 0, ..d }));
}

/// The entries of one descriptor make the descriptor and leave everything
/// else as it was.
pub proof fn lemma_descriptor_run(s: GuestView, fd: Fd, d: Descriptor)
    requires
        !s.descriptors.contains_key(fd),
        spec_descriptor_fits(fd, d, s.files.len()),
        forall|i: int, j: int|
            0 <= i < j < s.files.len() ==> (#[trigger] s.files[i]).path != (
            #[trigger] s.files[j]).path,
    ensures
        spec_replay_all(s, spec_descriptor_run(fd, d, s.files[d.file as int].path)) == Ok::<
            GuestView,
            ReplayFailure,
        >(s.with_descriptor(fd, d)),
{
    let path = s.files[d.file as int].path;
    let open = EntryView::OpenFileDescriptor {
        fd,
        path,
        rights_base: d.rights_base,
        rights_inheriting: d.rights_inheriting,
        flags: d.flags,
    };
    let seek = EntryView::SeekFileDescriptor { fd, offset: d.cursor as i64, whence: Whence::Start };
    let shut = EntryView::SocketShutdown { fd, how: d.shutdown };
    lemma_find_file_at(s.files, d.file as int, s.files.len() as int);
    let fresh = spec_fresh_descriptor(d.file, d.rights_base, d.rights_inheriting, d.flags);
    assert(s.apply(open).is_ok());
    let opened = s.apply(open).unwrap();
    assert(opened =~= s.with_descriptor(fd, fresh));
    assert(opened.apply(seek).is_ok());
    let sought = opened.apply(seek).unwrap();
    let placed = Descriptor { cursor: d.cursor, ..fresh };
    assert(sought =~= s.with_descriptor(fd, placed));
    lemma_replay_one(s, open);
    lemma_replay_then(s, seq![open], opened, seek);
    let head = seq![open] + seq![seek];
    assert(head =~= seq![open, seek]);
    lemma_socket_run(sought, fd, d);
    let socketed = sought.with_descriptor(fd, Descriptor { shutdown: 0, ..d });
    lemma_replay_append(s, head, spec_socket_run(fd, d));
    let how = d.shutdown;
    assert(0u8 | how == how) by (bit_vector);
    assert(socketed.apply(shut).is_ok());
    assert(socketed.apply(shut).unwrap() =~= s.with_descriptor(fd, d));
    lemma_replay_then(s, head + spec_socket_run(fd, d), socketed, shut);
}

/// The descriptors of a guest under the numbers below a bound.
pub open spec fn spec_descriptors_below(g: GuestView, upto: int) -> Map<Fd, Descriptor> {
    Map::new(
        |fd: Fd| (fd as int) < upto && g.descriptors.contains_key(fd),
        |fd: Fd| g.descriptors[fd],
    )
}

/// The entries of the descriptors under the numbers below a bound make
/// those descriptors.
pub proof fn lemma_descriptors_restore(s: GuestView, g: GuestView, upto: int)
    requires
        0 <= upto <= MAX_SLOTS,
        g.valid(),
        s.files == g.files,
        s.descriptors == Map::<Fd, Descriptor>::empty(),
    ensures
        spec_replay_all(s, spec_descriptor_entries(g, upto)) == Ok::<GuestView, ReplayFailure>(
            GuestView { descriptors: spec_descriptors_below(g, upto), ..s },
        ),
    decreases upto,
{
    if upto == 0 {
        lemma_replay_none(s);
        assert(spec_descriptors_below(g, 0) =~= s.descriptors);
        assert(GuestView { descriptors: spec_descriptors_below(g, 0), ..s } =~= s);
    } else {
        lemma_descriptors_restore(s, g, upto - 1);
        let fd = (upto - 1) as u32;
        let mid = GuestView { descriptors: spec_descriptors_below(g, upto - 1), ..s };
        let before = spec_descriptor_entries(g, upto - 1);
        if g.descriptors.contains_key(fd) {
            let d = g.descriptors[fd];
            assert(spec_descriptor_fits(fd, d, g.files.len()));
            lemma_descriptor_run(mid, fd, d);
            assert(mid.with_descriptor(fd, d).descriptors =~= spec_descriptors_below(g, upto));
            assert(mid.with_descriptor(fd, d) =~= GuestView {
                descriptors: spec_descriptors_below(g, upto),
                ..s
            });
            lemma_replay_append(s, before, spec_descriptor_run(fd, d, g.files[d.file as int].path));
        } else {
            assert(spec_descriptors_below(g, upto) =~= spec_descriptors_below(g, upto - 1));
            lemma_replay_then_nothing(s, before);
        }
    }
}

/// The threads of a set with ids below a bound.
pub open spec fn spec_threads_below(threads: Set<u32>, upto: int) -> Set<u32> {
    Set::new(|tid: u32| (tid as int) < upto && threads.contains(tid))
}

/// The entries of the threads with ids below a bound spawn those threads.
pub proof fn lemma_threads_restore(s: GuestView, threads: Set<u32>, upto: int)
    requires
        0 <= upto <= MAX_SLOTS,
        s.threads == Set::<u32>::empty(),
        s.exit_code.is_none(),
    ensures
        spec_replay_all(s, spec_thread_entries(threads, upto)) == Ok::<GuestView, ReplayFailure>(
            GuestView { threads: spec_threads_below(threads, upto), ..s },
        ),
    decreases upto,
{
    if upto == 0 {
        lemma_replay_none(s);
        assert(spec_threads_below(threads, 0) =~= s.threads);
        assert(GuestView { threads: spec_threads_below(threads, 0), ..s } =~= s);
    } else {
        lemma_threads_restore(s, threads, upto - 1);
        let tid = (upto - 1) as u32;
        let mid = GuestView { threads: spec_threads_below(threads, upto - 1), ..s };
        let before = spec_thread_entries(threads, upto - 1);
        if threads.contains(tid) {
            let e = EntryView::ThreadSpawn { tid };
            assert(mid.apply(e).is_ok());
            assert(mid.apply(e).unwrap().threads =~= spec_threads_below(threads, upto));
            assert(mid.apply(e).unwrap() =~= GuestView {
                threads: spec_threads_below(threads, upto),
                ..s
            });
            lemma_replay_then(s, before, mid, e);
        } else {
            assert(spec_threads_below(threads, upto) =~= spec_threads_below(threads, upto - 1));
            lemma_replay_then_nothing(s, before);
        }
    }
}

/// The entries of the first signals deliver those signals.
pub proof fn lemma_signals_restore(s: GuestView, signals: Seq<u8>, upto: int)
    requires
        0 <= upto <= signals.len(),
        s.signals.len() == 0,
    ensures
        spec_replay(s, spec_signal_entries(signals), 0, upto) == Ok::<GuestView, ReplayFailure>(
            GuestView { signals: signals.take(upto), ..s },
        ),
    decreases upto,
{
    if upto == 0 {
        assert(signals.take(0) =~= s.signals);
        assert(GuestView { signals: signals.take(0), ..s } =~= s);
    } else {
        lemma_signals_restore(s, signals, upto - 1);
        let mid = GuestView { signals: signals.take(upto - 1), ..s };
        let e = spec_signal_entries(signals)[upto - 1];
        assert(e == EntryView::Signal { signal: signals[upto - 1] });
        assert(signals.take(upto - 1).push(signals[upto - 1]) =~= signals.take(upto));
        assert(mid.apply(e).unwrap() =~= GuestView { signals: signals.take(upto), ..s });
    }
}

/// The entries that tell a guest of the world, and then of its exit, tell
/// a guest that knows nothing what the guest written down knew.
pub proof fn lemma_world_restore(s: GuestView, g: GuestView)
    requires
        s.clock.is_none(),
        s.exit_code.is_none(),
    ensures
        spec_replay_all(s, spec_world_entries(g) + spec_exit_entries(g.exit_code)) == Ok::<
            GuestView,
            ReplayFailure,
        >(
            GuestView {
                clock: g.clock,
                environment: g.environment,
                arguments: g.arguments,
                random: g.random,
                exit_code: g.exit_code,
                ..s
            },
        ),
{
    let none = Seq::<EntryView>::empty();
    lemma_replay_none(s);
    let run0 = match g.clock {
        Some((clock_id, time)) => seq![EntryView::ClockTime { clock_id, time }],
        None => none,
    };
    let s0 = GuestView { clock: g.clock, ..s };
    match g.clock {
        Some((clock_id, time)) => {
            let e = EntryView::ClockTime { clock_id, time };
            assert(s.apply(e).unwrap() =~= s0);
            lemma_replay_one(s, e);
        },
        None => {
            assert(s0 =~= s);
        },
    }
    assert(spec_replay_all(s, run0) == Ok::<GuestView, ReplayFailure>(s0));
    let env = EntryView::Environment { data: g.environment };
    let args = EntryView::Arguments { data: g.arguments };
    let random = EntryView::Random { data: g.random };
    let s1 = s0.apply(env).unwrap();
    let s2 = s1.apply(args).unwrap();
    let s3 = s2.apply(random).unwrap();
    lemma_replay_then(s, run0, s0, env);
    lemma_replay_then(s, run0 + seq![env], s1, args);
    lemma_replay_then(s, run0 + seq![env] + seq![args], s2, random);
    let world = run0 + seq![env] + seq![args] + seq![random];
    assert(world =~= spec_world_entries(g));
    assert(spec_replay_all(s, world) == Ok::<GuestView, ReplayFailure>(s3));
    let target = GuestView {
        clock: g.clock,
        environment: g.environment,
        arguments: g.arguments,
        random: g.random,
        exit_code: g.exit_code,
        ..s
    };
    match g.exit_code {
        Some(exit_code) => {
            let e = EntryView::ProcessExit { exit_code };
            assert(s3.apply(e).unwrap() =~= target);
            lemma_replay_then(s, world, s3, e);
        },
        None => {
            assert(s3 =~= target);
            lemma_replay_then_nothing(s, world);
        },
    }
}

/// A checkpoint is a restore point. Let a guest whose parts fit together
/// stand outside any checkpoint. The entries of its checkpoint, applied in
/// order to a new guest with as much linear memory, all of them apply, and
/// the guest they leave is the guest that was written down.
pub proof fn lemma_checkpoint_restores(g: GuestView)
    requires
        g.valid(),
        g.holdable(),
        !g.in_checkpoint,
    ensures
        spec_replay_all(GuestView::fresh(spec_zeros(g.memory.len() as int)), spec_snapshot(g))
            == Ok::<GuestView, ReplayFailure>(g),
{
    let new = GuestView::fresh(spec_zeros(g.memory.len() as int));
    let begin = EntryView::CheckpointBegin;
    let memory = EntryView::MemorySnapshot { offset: 0, data: g.memory };
    let end = EntryView::CheckpointEnd;
    // the markers and linear memory
    let s0 = new.apply(begin).unwrap();
    assert(spec_memory_write(new.memory, 0, g.memory) =~= g.memory);
    let s1 = s0.apply(memory).unwrap();
    assert(s1 =~= GuestView { memory: g.memory, in_checkpoint: true, ..new });
    lemma_replay_one(new, begin);
    lemma_replay_then(new, seq![begin], s0, memory);
    let head = seq![begin] + seq![memory];
    assert(head =~= seq![begin, memory]);
    // the resources
    let files = spec_file_entries(g.files, g.files.len() as int);
    lemma_files_restore(s1, g.files, g.files.len() as int);
    assert(g.files.take(g.files.len() as int) =~= g.files);
    let s2 = GuestView { files: g.files, ..s1 };
    lemma_replay_append(new, head, files);
    // the descriptors
    let descriptors = spec_descriptor_entries(g, MAX_SLOTS as int);
    lemma_descriptors_restore(s2, g, MAX_SLOTS as int);
    assert(spec_descriptors_below(g, MAX_SLOTS as int) =~= g.descriptors) by {
        assert forall|fd: Fd| g.descriptors.contains_key(fd) implies (fd as int) < MAX_SLOTS by {
            assert(spec_descriptor_fits(fd, g.descriptors[fd], g.files.len()));
        }
    }
    let s3 = GuestView { descriptors: g.descriptors, ..s2 };
    lemma_replay_append(new, head + files, descriptors);
    // the threads
    let threads = spec_thread_entries(g.threads, MAX_SLOTS as int);
    lemma_threads_restore(s3, g.threads, MAX_SLOTS as int);
    assert(spec_threads_below(g.threads, MAX_SLOTS as int) =~= g.threads);
    let s4 = GuestView { threads: g.threads, ..s3 };
    lemma_replay_append(new, head + files + descriptors, threads);
    // the signals
    let signals = spec_signal_entries(g.signals);
    lemma_signals_restore(s4, g.signals, g.signals.len() as int);
    assert(g.signals.take(g.signals.len() as int) =~= g.signals);
    let s5 = GuestView { signals: g.signals, ..s4 };
    lemma_replay_append(new, head + files + descriptors + threads, signals);
    // the world and the exit
    let world = spec_world_entries(g) + spec_exit_entries(g.exit_code);
    lemma_world_restore(s5, g);
    let s6 = GuestView {
        clock: g.clock,
        environment: g.environment,
        arguments: g.arguments,
        random: g.random,
        exit_code: g.exit_code,
        ..s5
    };
    let body = head + files + descriptors + threads + signals;
    lemma_replay_append(new, body, world);
    assert(body + world =~= body + spec_world_entries(g) + spec_exit_entries(g.exit_code));
    // the end marker
    assert(s6.apply(end).unwrap() =~= g);
    lemma_replay_then(new, body + world, s6, end);
    assert(body + world + seq![end] =~= spec_snapshot(g));
}

/// Whether a run of entries holds no checkpoint marker.
pub open spec fn spec_plain(entries: Seq<EntryView>) -> bool {
    forall|i: int|
        0 <= i < entries.len() ==> !((#[trigger] entries[i]) is CheckpointBegin) && !(entries[i] is CheckpointEnd)
}

/// Two runs without markers make a run without markers.
pub proof fn lemma_plain_append(a: Seq<EntryView>, b: Seq<EntryView>)
    requires
        spec_plain(a),
        spec_plain(b),
    ensures
        spec_plain(a + b),
{
    assert forall|i: int| 0 <= i < (a + b).len() implies !((#[trigger] (a + b)[i]) is CheckpointBegin)
        && !((a + b)[i] is CheckpointEnd) by {
        if i < a.len() {
            assert((a + b)[i] == a[i]);
        } else {
            assert((a + b)[i] == b[i - a.len()]);
        }
    }
}

/// The entries that make resources hold no marker.
pub proof fn lemma_file_entries_plain(files: Seq<FileView>, upto: int)
    ensures
        spec_plain(spec_file_entries(files, upto)),
    decreases upto,
{
    if upto > 0 {
        lemma_file_entries_plain(files, upto - 1);
        lemma_plain_append(spec_file_entries(files, upto - 1), spec_file_run(files[upto - 1]));
    }
}

/// The entries that make descriptors hold no marker.
pub proof fn lemma_descriptor_entries_plain(g: GuestView, upto: int)
    ensures
        spec_plain(spec_descriptor_entries(g, upto)),
    decreases upto,
{
    if upto > 0 {
        lemma_descriptor_entries_plain(g, upto - 1);
        let fd = (upto - 1) as u32;
        let run = if g.descriptors.contains_key(fd) {
            spec_descriptor_run(fd, g.descriptors[fd], g.files[g.descriptors[fd].file as int].path)
        } else {
            Seq::<EntryView>::empty()
        };
        if g.descriptors.contains_key(fd) {
            let d = g.descriptors[fd];
            let path = g.files[d.file as int].path;
            assert(spec_plain(spec_socket_run(fd, d)));
            assert(spec_plain(spec_descriptor_run(fd, d, path)));
        }
        lemma_plain_append(spec_descriptor_entries(g, upto - 1), run);
    }
}

/// The entries that spawn threads hold no marker.
pub proof fn lemma_thread_entries_plain(threads: Set<u32>, upto: int)
    ensures
        spec_plain(spec_thread_entries(threads, upto)),
    decreases upto,
{
    if upto > 0 {
        lemma_thread_entries_plain(threads, upto - 1);
        let tid = (upto - 1) as u32;
        let run = if threads.contains(tid) {
            seq![EntryView::ThreadSpawn { tid }]
        } else {
            Seq::<EntryView>::empty()
        };
        lemma_plain_append(spec_thread_entries(threads, upto - 1), run);
    }
}

/// What stands in a checkpoint between the markers.
pub open spec fn spec_snapshot_body(g: GuestView) -> Seq<EntryView> {
    seq![EntryView::MemorySnapshot { offset: 0, data: g.memory }] + spec_file_entries(
        g.files,
        g.files.len() as int,
    ) + spec_descriptor_entries(g, MAX_SLOTS as int) + spec_thread_entries(
        g.threads,
        MAX_SLOTS as int,
    ) + spec_signal_entries(g.signals) + spec_world_entries(g) + spec_exit_entries(g.exit_code)
}

/// A checkpoint is a begin marker, entries that are no markers, and an end
/// marker.
pub proof fn lemma_snapshot_shape(g: GuestView)
    ensures
        spec_snapshot(g) == seq![EntryView::CheckpointBegin] + spec_snapshot_body(g) + seq![
            EntryView::CheckpointEnd,
        ],
        spec_plain(spec_snapshot_body(g)),
{
    let memory = seq![EntryView::MemorySnapshot { offset: 0, data: g.memory }];
    let files = spec_file_entries(g.files, g.files.len() as int);
    let descriptors = spec_descriptor_entries(g, MAX_SLOTS as int);
    let threads = spec_thread_entries(g.threads, MAX_SLOTS as int);
    let signals = spec_signal_entries(g.signals);
    let world = spec_world_entries(g);
    let exit = spec_exit_entries(g.exit_code);
    lemma_file_entries_plain(g.files, g.files.len() as int);
    lemma_descriptor_entries_plain(g, MAX_SLOTS as int);
    lemma_thread_entries_plain(g.threads, MAX_SLOTS as int);
    assert(spec_plain(memory));
    assert(spec_plain(signals));
    assert(spec_plain(world));
    assert(spec_plain(exit));
    lemma_plain_append(memory, files);
    lemma_plain_append(memory + files, descriptors);
    lemma_plain_append(memory + files + descriptors, threads);
    lemma_plain_append(memory + files + descriptors + threads, signals);
    lemma_plain_append(memory + files + descriptors + threads + signals, world);
    lemma_plain_append(memory + files + descriptors + threads + signals + world, exit);
    assert(spec_snapshot(g) =~= seq![EntryView::CheckpointBegin] + spec_snapshot_body(g) + seq![
        EntryView::CheckpointEnd,
    ]);
}

/// A scan for checkpoints learns nothing from entries that are no markers.
pub proof fn lemma_checkpoints_over_plain(stream: Seq<EntryView>, from: int, upto: int)
    requires
        0 <= from <= upto <= stream.len(),
        forall|i: int|
            from <= i < upto ==> !((#[trigger] stream[i]) is CheckpointBegin) && !(stream[i] is CheckpointEnd),
    ensures
        super::replay::spec_checkpoints(stream, upto) == super::replay::spec_checkpoints(
            stream,
            from,
        ),
    decreases upto - from,
{
    if from < upto {
        lemma_checkpoints_over_plain(stream, from, upto - 1);
        assert(!(stream[upto - 1] is CheckpointBegin) && !(stream[upto - 1] is CheckpointEnd));
    }
}

/// Replay of the end of a stream is replay of that end alone.
pub proof fn lemma_replay_shift(g: GuestView, a: Seq<EntryView>, b: Seq<EntryView>, upto: int)
    requires
        0 <= upto <= b.len(),
        spec_replay(g, b, 0, upto).is_ok(),
    ensures
        spec_replay(g, a + b, a.len() as int, a.len() + upto) == spec_replay(g, b, 0, upto),
    decreases upto,
{
    if upto > 0 {
        lemma_replay_shift(g, a, b, upto - 1);
        assert((a + b)[a.len() + upto - 1] == b[upto - 1]);
    }
}

/// Restore from the last checkpoint. Let a guest whose parts fit together
/// stand outside any checkpoint, and let its checkpoint be written behind
/// whatever the journal held before. Replay of that stream into a new guest
/// with as much linear memory starts at the checkpoint, applies all of it,
/// and leaves the guest that was written down, whatever stands before the
/// checkpoint.
pub proof fn lemma_restore_from_last_checkpoint(history: Seq<EntryView>, g: GuestView)
    requires
        g.valid(),
        g.holdable(),
        !g.in_checkpoint,
        history.len() + spec_snapshot(g).len() <= usize::MAX,
    ensures
        super::replay::spec_replay_stream(
            GuestView::fresh(spec_zeros(g.memory.len() as int)),
            history + spec_snapshot(g),
        ) == Ok::<GuestView, ReplayFailure>(g),
{
    let new = GuestView::fresh(spec_zeros(g.memory.len() as int));
    let snapshot = spec_snapshot(g);
    let body = spec_snapshot_body(g);
    let stream = history + snapshot;
    let at = history.len() as int;
    let len = stream.len() as int;
    lemma_snapshot_shape(g);
    assert(snapshot.len() == body.len() + 2);
    assert(stream[at] is CheckpointBegin) by {
        assert(stream[at] == snapshot[0]);
    }
    assert(stream[len - 1] is CheckpointEnd) by {
        assert(stream[len - 1] == snapshot[snapshot.len() - 1]);
    }
    assert forall|i: int| at + 1 <= i < len - 1 implies !((#[trigger] stream[i]) is CheckpointBegin)
        && !(stream[i] is CheckpointEnd) by {
        assert(stream[i] == snapshot[i - at]);
        assert(snapshot[i - at] == body[i - at - 1]);
    }
    lemma_checkpoints_over_plain(stream, at + 1, len - 1);
    let scanned = super::replay::spec_checkpoints(stream, len);
    assert(super::replay::spec_checkpoints(stream, at + 1).open == Some(at as usize));
    assert(scanned.open.is_none());
    assert(scanned.last == Some(at as usize));
    lemma_checkpoint_restores(g);
    lemma_replay_shift(new, history, snapshot, snapshot.len() as int);
}

} // verus!
