//! The compactor: a journal in front of another that leaves out the entries
//! that would change nothing. It remembers the last region written to
//! linear memory, the last clock reading, and the last environment and
//! arguments, each only if it is small, and takes an entry that says again
//! what it remembers without handing it on.
use super::entry::{clone_bytes, EntryView, JournalEntry};
use super::error::JournalError;
use super::guest::{bytes_equal, spec_memory_write, GuestView};
use super::replay::{lemma_replay_failure_stays, spec_replay, ReplayFailure};
use super::traits::{spec_log_after, Journal, WritableJournal};
use crate::wasi_types::{Clockid, Timestamp};
use vstd::prelude::*;

verus! {

/// What a compactor remembers.
#[derive(Debug)]
pub struct Track {
    memory: Option<(u64, Vec<u8>)>,
    clock: Option<(Clockid, Timestamp)>,
    environment: Option<Vec<u8>>,
    arguments: Option<Vec<u8>>,
}

/// What a compactor remembers, read as sequences.
pub struct TrackView {
    /// The region written to linear memory last: where, and what.
    pub memory: Option<(u64, Seq<u8>)>,
    /// The clock reading taken last.
    pub clock: Option<(Clockid, Timestamp)>,
    /// The environment recorded last.
    pub environment: Option<Seq<u8>>,
    /// The arguments recorded last.
    pub arguments: Option<Seq<u8>>,
}

/// What a compactor makes of a run of entries.
pub struct Compacted {
    /// The entries handed on, in order.
    pub kept: Seq<EntryView>,
    /// What the compactor remembers afterwards.
    pub track: TrackView,
}

impl View for Track {
    type V = TrackView;

    closed spec fn view(&self) -> TrackView {
        TrackView {
            memory: match self.memory {
                Some((offset, data)) => Some((offset, data@)),
                None => None,
            },
            clock: self.clock,
            environment: match self.environment {
                Some(data) => Some(data@),
                None => None,
            },
            arguments: match self.arguments {
                Some(data) => Some(data@),
                None => None,
            },
        }
    }
}

impl TrackView {
    /// Nothing remembered.
    pub open spec fn nothing() -> TrackView {
        TrackView { memory: None, clock: None, environment: None, arguments: None }
    }

    /// A buffer, if it is small enough to remember.
    pub open spec fn bounded(data: Seq<u8>, limit: nat) -> Option<Seq<u8>> {
        if data.len() <= limit {
            Some(data)
        } else {
            None
        }
    }

    /// Whether an entry says again what is remembered.
    pub open spec fn subsumes(self, e: EntryView) -> bool {
        match e {
            EntryView::MemorySnapshot { offset, data } => self.memory == Some((offset, data)),
            EntryView::MemoryDiff { offset, data } => self.memory == Some((offset, data)),
            EntryView::ClockTime { clock_id, time } => self.clock == Some((clock_id, time)),
            EntryView::Environment { data } => self.environment == Some(data),
            EntryView::Arguments { data } => self.arguments == Some(data),
            _ => false,
        }
    }

    /// What is remembered after an entry was handed on. The beginning of a
    /// checkpoint makes the compactor forget everything, so that what
    /// stands in a checkpoint is handed on whole.
    pub open spec fn after(self, e: EntryView, limit: nat) -> TrackView {
        match e {
            EntryView::CheckpointBegin => Self::nothing(),
            EntryView::MemorySnapshot { offset, data } => TrackView {
                memory: match Self::bounded(data, limit) {
                    Some(kept) => Some((offset, kept)),
                    None => None,
                },
                ..self
            },
            EntryView::MemoryDiff { offset, data } => TrackView {
                memory: match Self::bounded(data, limit) {
                    Some(kept) => Some((offset, kept)),
                    None => None,
                },
                ..self
            },
            EntryView::ClockTime { clock_id, time } => TrackView {
                clock: Some((clock_id, time)),
                ..self
            },
            EntryView::Environment { data } => TrackView {
                environment: Self::bounded(data, limit),
                ..self
            },
            EntryView::Arguments { data } => TrackView {
                arguments: Self::bounded(data, limit),
                ..self
            },
            _ => self,
        }
    }

    /// Whether what is remembered is true of a guest.
    pub open spec fn holds_in(self, g: GuestView) -> bool {
        &&& self.memory matches Some((offset, data)) ==> offset + data.len() <= g.memory.len()
            && g.memory.subrange(offset as int, offset + data.len()) == data
        &&& self.clock matches Some(reading) ==> g.clock == Some(reading)
        &&& self.environment matches Some(data) ==> g.environment == data
        &&& self.arguments matches Some(data) ==> g.arguments == data
    }
}

/// What a compactor that remembers nothing makes of the first `upto`
/// entries of a run, where the journal behind it takes every entry.
pub open spec fn spec_compact(entries: Seq<EntryView>, upto: int, limit: nat) -> Compacted
    decreases upto,
{
    if upto <= 0 {
        Compacted { kept: Seq::empty(), track: TrackView::nothing() }
    } else {
        let before = spec_compact(entries, upto - 1, limit);
        let entry = entries[upto - 1];
        if before.track.subsumes(entry) {
            before
        } else {
            Compacted { kept: before.kept.push(entry), track: before.track.after(entry, limit) }
        }
    }
}

/// An entry that says again what is remembered changes nothing in a guest
/// of which the remembered is true.
pub proof fn lemma_subsumed_changes_nothing(track: TrackView, g: GuestView, e: EntryView)
    requires
        track.holds_in(g),
        track.subsumes(e),
    ensures
        g.apply(e) == Ok::<GuestView, JournalError>(g),
{
    match e {
        EntryView::MemorySnapshot { offset, data } => {
            assert(spec_memory_write(g.memory, offset as int, data) =~= g.memory) by {
                assert forall|i: int| 0 <= i < g.memory.len() implies spec_memory_write(
                    g.memory,
                    offset as int,
                    data,
                )[i] == g.memory[i] by {
                    if offset <= i < offset + data.len() {
                        assert(g.memory.subrange(offset as int, offset + data.len())[i - offset]
                            == g.memory[i]);
                    }
                }
            }
            assert(g.apply(e).unwrap() =~= g);
        },
        EntryView::MemoryDiff { offset, data } => {
            assert(spec_memory_write(g.memory, offset as int, data) =~= g.memory) by {
                assert forall|i: int| 0 <= i < g.memory.len() implies spec_memory_write(
                    g.memory,
                    offset as int,
                    data,
                )[i] == g.memory[i] by {
                    if offset <= i < offset + data.len() {
                        assert(g.memory.subrange(offset as int, offset + data.len())[i - offset]
                            == g.memory[i]);
                    }
                }
            }
            assert(g.apply(e).unwrap() =~= g);
        },
        _ => {
            assert(g.apply(e).unwrap() =~= g);
        },
    }
}

/// What is remembered after an entry was applied is true of the guest
/// after it.
pub proof fn lemma_track_follows(track: TrackView, g: GuestView, e: EntryView, limit: nat)
    requires
        track.holds_in(g),
        g.apply(e).is_ok(),
    ensures
        track.after(e, limit).holds_in(g.apply(e).unwrap()),
{
    let after = g.apply(e).unwrap();
    match e {
        EntryView::MemorySnapshot { offset, data } => {
            assert(after.memory.subrange(offset as int, offset + data.len()) =~= data);
        },
        EntryView::MemoryDiff { offset, data } => {
            assert(after.memory.subrange(offset as int, offset + data.len()) =~= data);
        },
        EntryView::OpenFileDescriptor { fd, path, rights_base, rights_inheriting, flags } => {
            assert(after.memory == g.memory);
        },
        EntryView::FileDescriptorWrite { fd, data } => {
            assert(after.memory == g.memory);
        },
        _ => {
            assert(after.memory == g.memory);
        },
    }
}

/// Replay of a run looks only at the entries it is told to apply.
pub proof fn lemma_replay_prefix(
    g: GuestView,
    short: Seq<EntryView>,
    long: Seq<EntryView>,
    upto: int,
)
    requires
        0 <= upto <= short.len() <= long.len(),
        forall|i: int| 0 <= i < short.len() ==> short[i] == long[i],
    ensures
        spec_replay(g, long, 0, upto) == spec_replay(g, short, 0, upto),
    decreases upto,
{
    if upto > 0 {
        lemma_replay_prefix(g, short, long, upto - 1);
    }
}

/// The error of a replay that failed.
pub open spec fn spec_replay_error(res: Result<GuestView, ReplayFailure>) -> Option<JournalError> {
    match res {
        Ok(_) => None,
        Err(failure) => Some(failure.error),
    }
}

/// Compaction step by step: after any number of entries, replay of what
/// was handed on gives the guest that replay of all of them gives, of which
/// the remembered is true; or both fail for the same reason.
pub proof fn lemma_compaction_step(g: GuestView, entries: Seq<EntryView>, upto: int, limit: nat)
    requires
        0 <= upto <= entries.len(),
    ensures
        ({
            let c = spec_compact(entries, upto, limit);
            let all = spec_replay(g, entries, 0, upto);
            let kept = spec_replay(g, c.kept, 0, c.kept.len() as int);
            match all {
                Ok(after) => kept == Ok::<GuestView, ReplayFailure>(after) && c.track.holds_in(
                    after,
                ),
                Err(failure) => spec_replay_error(kept) == Some(failure.error),
            }
        }),
    decreases upto,
{
    if upto > 0 {
        lemma_compaction_step(g, entries, upto - 1, limit);
        let before = spec_compact(entries, upto - 1, limit);
        let c = spec_compact(entries, upto, limit);
        let entry = entries[upto - 1];
        let all_before = spec_replay(g, entries, 0, upto - 1);
        let kept_before = spec_replay(g, before.kept, 0, before.kept.len() as int);
        if before.track.subsumes(entry) {
            match all_before {
                Ok(mid) => {
                    lemma_subsumed_changes_nothing(before.track, mid, entry);
                },
                Err(_) => {},
            }
        } else {
            let n = before.kept.len() as int;
            lemma_replay_prefix(g, before.kept, c.kept, n);
            assert(c.kept[n] == entry);
            match all_before {
                Ok(mid) => {
                    if mid.apply(entry).is_ok() {
                        lemma_track_follows(before.track, mid, entry, limit);
                    }
                },
                Err(_) => {
                    lemma_replay_failure_stays(g, c.kept, 0, n, n + 1);
                },
            }
        }
    }
}

/// Compaction correctness. Replay from scratch of what a compactor hands
/// on of a run of entries gives the guest that replay of the whole run
/// gives. Where replay of the whole run fails, replay of what was handed on
/// fails for the same reason.
pub proof fn lemma_compaction_preserves_replay(g: GuestView, entries: Seq<EntryView>, limit: nat)
    ensures
        ({
            let kept = spec_compact(entries, entries.len() as int, limit).kept;
            match spec_replay(g, entries, 0, entries.len() as int) {
                Ok(after) => spec_replay(g, kept, 0, kept.len() as int) == Ok::<
                    GuestView,
                    ReplayFailure,
                >(after),
                Err(failure) => spec_replay_error(spec_replay(g, kept, 0, kept.len() as int))
                    == Some(failure.error),
            }
        }),
{
    lemma_compaction_step(g, entries, entries.len() as int, limit);
}

impl Track {
    /// Nothing remembered.
    pub fn new() -> (track: Track)
        ensures
            track@ == TrackView::nothing(),
    {
        Track { memory: None, clock: None, environment: None, arguments: None }
    }

    /// A copy of what is remembered.
    pub fn duplicate(&self) -> (copy: Track)
        ensures
            copy@ == self@,
    {
        Track {
            memory: match &self.memory {
                Some((offset, data)) => Some((*offset, clone_bytes(data))),
                None => None,
            },
            clock: self.clock,
            environment: match &self.environment {
                Some(data) => Some(clone_bytes(data)),
                None => None,
            },
            arguments: match &self.arguments {
                Some(data) => Some(clone_bytes(data)),
                None => None,
            },
        }
    }

    /// Whether an entry says again what is remembered.
    pub fn subsumes(&self, entry: &JournalEntry) -> (redundant: bool)
        ensures
            redundant == self@.subsumes(entry@),
    {
        match entry {
            JournalEntry::MemorySnapshot { offset, data } => match &self.memory {
                Some((at, kept)) => *at == *offset && bytes_equal(kept, data),
                None => false,
            },
            JournalEntry::MemoryDiff { offset, data } => match &self.memory {
                Some((at, kept)) => *at == *offset && bytes_equal(kept, data),
                None => false,
            },
            JournalEntry::ClockTime { clock_id, time } => match self.clock {
                Some((id, at)) => id == *clock_id && at == *time,
                None => false,
            },
            JournalEntry::Environment { data } => match &self.environment {
                Some(kept) => bytes_equal(kept, data),
                None => false,
            },
            JournalEntry::Arguments { data } => match &self.arguments {
                Some(kept) => bytes_equal(kept, data),
                None => false,
            },
            _ => false,
        }
    }

    /// A copy of a buffer, if it is small enough to remember.
    fn bounded(data: &Vec<u8>, limit: usize) -> (kept: Option<Vec<u8>>)
        ensures
            match TrackView::bounded(data@, limit as nat) {
                Some(view) => kept.is_some() && kept.unwrap()@ == view,
                None => kept.is_none(),
            },
    {
        if data.len() <= limit {
            Some(clone_bytes(data))
        } else {
            None
        }
    }

    /// Remembers what an entry that was handed on says.
    pub fn note(&mut self, entry: &JournalEntry, limit: usize)
        ensures
            final(self)@ == old(self)@.after(entry@, limit as nat),
    {
        match entry {
            JournalEntry::CheckpointBegin => {
                self.memory = None;
                self.clock = None;
                self.environment = None;
                self.arguments = None;
            },
            JournalEntry::MemorySnapshot { offset, data } => {
                self.memory = match Track::bounded(data, limit) {
                    Some(kept) => Some((*offset, kept)),
                    None => None,
                };
            },
            JournalEntry::MemoryDiff { offset, data } => {
                self.memory = match Track::bounded(data, limit) {
                    Some(kept) => Some((*offset, kept)),
                    None => None,
                };
            },
            JournalEntry::ClockTime { clock_id, time } => {
                self.clock = Some((*clock_id, *time));
            },
            JournalEntry::Environment { data } => {
                self.environment = Track::bounded(data, limit);
            },
            JournalEntry::Arguments { data } => {
                self.arguments = Track::bounded(data, limit);
            },
            _ => {},
        }
    }
}

/// A journal that hands on to the journal behind it the entries that change
/// something.
#[derive(Debug)]
pub struct CompactingJournal<W: WritableJournal> {
    inner: W,
    track: Track,
    limit: usize,
}

impl<W: WritableJournal> CompactingJournal<W> {
    /// The journal behind the compactor.
    pub closed spec fn spec_inner(&self) -> W {
        self.inner
    }

    /// What the compactor remembers.
    pub closed spec fn spec_track(&self) -> TrackView {
        self.track@
    }

    /// The most bytes of one buffer the compactor remembers.
    pub closed spec fn spec_limit(&self) -> usize {
        self.limit
    }

    /// Puts a compactor in front of a journal. The compactor remembers
    /// nothing yet, and never a buffer of more than `limit` bytes.
    pub fn new(inner: W, limit: usize) -> (journal: Self)
        ensures
            journal.spec_inner() == inner,
            journal.spec_track() == TrackView::nothing(),
            journal.spec_limit() == limit,
    {
        CompactingJournal { inner, track: Track::new(), limit }
    }

    /// The journal behind the compactor.
    pub fn inner(&self) -> (inner: &W)
        ensures
            *inner == self.spec_inner(),
    {
        &self.inner
    }

    /// Takes the compactor away and gives the journal behind it.
    pub fn into_inner(self) -> (inner: W)
        ensures
            inner == self.spec_inner(),
    {
        self.inner
    }
}

/// What one write of an entry makes of a compactor. The limit stays. The
/// journal behind holds the entry too if the compactor hands it on and the
/// journal takes and records it. The compactor remembers what the entry
/// says if it handed the entry on and the journal behind took it, and else
/// what it remembered.
pub open spec fn spec_compacting_write<W: WritableJournal>(
    before: CompactingJournal<W>,
    after: CompactingJournal<W>,
    entry: EntryView,
) -> bool {
    &&& after.spec_limit() == before.spec_limit()
    &&& after.log() == spec_log_after(
        before.log(),
        before.refusal(entry),
        before.records(entry),
        entry,
    )
    &&& after.spec_track() == (if !before.spec_track().subsumes(entry) && before.refusal(
        entry,
    ).is_none() {
        before.spec_track().after(entry, before.spec_limit() as nat)
    } else {
        before.spec_track()
    })
}

impl<W: WritableJournal> WritableJournal for CompactingJournal<W> {
    open spec fn log(&self) -> Seq<EntryView> {
        self.spec_inner().log()
    }

    open spec fn refusal(&self, entry: EntryView) -> Option<JournalError> {
        if self.spec_track().subsumes(entry) {
            None
        } else {
            self.spec_inner().refusal(entry)
        }
    }

    open spec fn records(&self, entry: EntryView) -> bool {
        !self.spec_track().subsumes(entry) && self.spec_inner().records(entry)
    }

    /// An entry that says again what the compactor remembers is taken and
    /// left out. Any other entry is handed on; if the journal behind takes
    /// it, the compactor remembers what it says, and if not, the compactor
    /// remembers what it did before.
    fn write(&mut self, entry: JournalEntry) -> (res: Result<(), JournalError>)
        ensures
            spec_compacting_write(*old(self), *final(self), entry@),
            old(self).spec_track().subsumes(entry@) ==> final(self).spec_inner() == old(
                self,
            ).spec_inner(),
    {
        if self.track.subsumes(&entry) {
            return Ok(());
        }
        let mut next = self.track.duplicate();
        next.note(&entry, self.limit);
        match self.inner.write(entry) {
            Ok(()) => {
                self.track = next;
                Ok(())
            },
            Err(err) => Err(err),
        }
    }
}

/// The writes of a run, one after another: the compactor before the first
/// write, after each write, and at the end, where every write was taken.
pub open spec fn spec_compacting_run<W: WritableJournal>(
    states: Seq<CompactingJournal<W>>,
    entries: Seq<EntryView>,
) -> bool {
    &&& states.len() == entries.len() + 1
    &&& forall|i: int|
        0 <= i < entries.len() ==> (#[trigger] states[i]).refusal(entries[i]).is_none()
            && spec_compacting_write(states[i], states[i + 1], entries[i])
}

/// After any number of writes of a run, the journal behind a compactor that
/// began with nothing remembered holds what it held before and then what
/// `spec_compact` keeps of the entries written, and the compactor remembers
/// what `spec_compact` says.
pub proof fn lemma_writes_compact_upto<W: Journal>(
    states: Seq<CompactingJournal<W>>,
    entries: Seq<EntryView>,
    upto: int,
)
    requires
        spec_compacting_run(states, entries),
        states[0].spec_track() == TrackView::nothing(),
        0 <= upto <= entries.len(),
    ensures
        states[upto].spec_limit() == states[0].spec_limit(),
        states[upto].spec_track() == spec_compact(
            entries,
            upto,
            states[0].spec_limit() as nat,
        ).track,
        states[upto].log() == states[0].log() + spec_compact(
            entries,
            upto,
            states[0].spec_limit() as nat,
        ).kept,
    decreases upto,
{
    if upto > 0 {
        lemma_writes_compact_upto(states, entries, upto - 1);
        let before = states[upto - 1];
        let entry = entries[upto - 1];
        before.spec_inner().lemma_records_all(entry);
        assert(before.refusal(entry).is_none());
        assert(spec_compacting_write(before, states[upto - 1 + 1], entry));
        let c = spec_compact(entries, upto - 1, states[0].spec_limit() as nat);
        if !before.spec_track().subsumes(entry) {
            assert(states[upto].log() =~= states[0].log() + c.kept.push(entry));
        }
    } else {
        assert(states[0].log() =~= states[0].log() + Seq::<EntryView>::empty());
    }
}

/// Compaction as written. Let a compactor with nothing remembered stand in
/// front of an empty journal that records what it takes, and let a run of
/// entries be written through it, every write taken. Then replay from
/// scratch of what the journal behind holds afterwards gives the guest that
/// replay of the whole run gives; where replay of the whole run fails,
/// replay of what the journal holds fails for the same reason.
pub proof fn lemma_compacting_writes_preserve_replay<W: Journal>(
    states: Seq<CompactingJournal<W>>,
    entries: Seq<EntryView>,
    g: GuestView,
)
    requires
        spec_compacting_run(states, entries),
        states[0].spec_track() == TrackView::nothing(),
        states[0].log() == Seq::<EntryView>::empty(),
    ensures
        ({
            let held = states.last().log();
            match spec_replay(g, entries, 0, entries.len() as int) {
                Ok(after) => spec_replay(g, held, 0, held.len() as int) == Ok::<
                    GuestView,
                    ReplayFailure,
                >(after),
                Err(failure) => spec_replay_error(spec_replay(g, held, 0, held.len() as int))
                    == Some(failure.error),
            }
        }),
{
    let limit = states[0].spec_limit() as nat;
    lemma_writes_compact_upto(states, entries, entries.len() as int);
    lemma_compaction_preserves_replay(g, entries, limit);
    let kept = spec_compact(entries, entries.len() as int, limit).kept;
    assert(states.last().log() =~= kept);
}

} // verus!
