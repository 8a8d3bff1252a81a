//! The replay driver: finds where in a stream replay has to start, and
//! applies the entries from there on to a guest, one by one and in order,
//! until the stream ends or an entry cannot be applied.
use super::entry::{EntryView, JournalEntry};
use super::error::JournalError;
use super::guest::{Guest, GuestView};
use super::traits::ReadableJournal;
use vstd::prelude::*;

verus! {

/// Where a driver stands.
#[derive(Clone, Copy, Debug, PartialEq, Eq, Structural)]
pub enum ReplayState {
    /// The driver does not know yet where replay starts.
    Scanning,
    /// The driver applies entries.
    Replaying,
    /// The stream has ended and every entry was applied. The guest is
    /// ready.
    Done,
    /// An entry could not be applied. The guest is not ready and will not
    /// be.
    Failed,
}

/// What a scan for checkpoints has found in a run of entries.
#[derive(Clone, Copy, Debug, PartialEq, Eq, Structural)]
pub struct CheckpointScan {
    /// Where the checkpoint begins that has begun and not ended.
    pub open: Option<usize>,
    /// Where the last checkpoint begins that has ended.
    pub last: Option<usize>,
}

/// Which entry could not be applied, by its position in the stream, and
/// why. A stream that could not be read is a failure at the position where
/// the reading stopped.
#[derive(Clone, Copy, Debug, PartialEq, Eq, Structural)]
pub struct ReplayFailure {
    pub index: usize,
    pub error: JournalError,
}

/// What a scan for checkpoints knows after one more entry.
pub open spec fn spec_checkpoint_step(scan: CheckpointScan, entry: EntryView, index: int) -> CheckpointScan {
    match entry {
        EntryView::CheckpointBegin => CheckpointScan {
            open: Some(index as usize),
            last: scan.last,
        },
        EntryView::CheckpointEnd => match scan.open {
            Some(begin) => CheckpointScan { open: None, last: Some(begin) },
            None => scan,
        },
        _ => scan,
    }
}

/// What a scan for checkpoints finds in the first `upto` entries of a
/// stream.
pub open spec fn spec_checkpoints(stream: Seq<EntryView>, upto: int) -> CheckpointScan
    decreases upto,
{
    if upto <= 0 {
        CheckpointScan { open: None, last: None }
    } else {
        spec_checkpoint_step(spec_checkpoints(stream, upto - 1), stream[upto - 1], upto - 1)
    }
}

/// Where replay of a stream starts: at the beginning of the last
/// checkpoint that is complete, or at the beginning of the stream if no
/// checkpoint is.
pub open spec fn spec_replay_start(stream: Seq<EntryView>) -> int {
    match spec_checkpoints(stream, stream.len() as int).last {
        Some(begin) => begin as int,
        None => 0,
    }
}

/// Where replay of a stream ends: where a checkpoint begins that never
/// ended, or at the end of the stream.
pub open spec fn spec_replay_end(stream: Seq<EntryView>) -> int {
    match spec_checkpoints(stream, stream.len() as int).open {
        Some(begin) => begin as int,
        None => stream.len() as int,
    }
}

/// The guest after the entries `from..upto` of a stream were applied to it
/// in order, or the first of them that could not be applied.
pub open spec fn spec_replay(g: GuestView, stream: Seq<EntryView>, from: int, upto: int) -> Result<
    GuestView,
    ReplayFailure,
>
    decreases upto - from,
{
    if upto <= from {
        Ok(g)
    } else {
        match spec_replay(g, stream, from, upto - 1) {
            Err(failure) => Err(failure),
            Ok(before) => match before.apply(stream[upto - 1]) {
                Ok(after) => Ok(after),
                Err(error) => Err(ReplayFailure { index: (upto - 1) as usize, error }),
            },
        }
    }
}

/// What replay of a whole stream gives: the guest after the entries from
/// the start of replay to its end.
pub open spec fn spec_replay_stream(g: GuestView, stream: Seq<EntryView>) -> Result<
    GuestView,
    ReplayFailure,
> {
    spec_replay(g, stream, spec_replay_start(stream), spec_replay_end(stream))
}

/// What a journal replays as: the failure to read it, where it cannot be
/// read from its beginning or ends in a fault, else what its stream
/// replays as.
pub open spec fn spec_replay_journal(
    g: GuestView,
    stream: Seq<EntryView>,
    fault: Option<JournalError>,
    restart_fault: Option<JournalError>,
) -> Result<GuestView, ReplayFailure> {
    match restart_fault {
        Some(error) => Err(ReplayFailure { index: 0, error }),
        None => match fault {
            Some(error) => Err(ReplayFailure { index: stream.len() as usize, error }),
            None => spec_replay_stream(g, stream),
        },
    }
}

/// A scan finds checkpoints only where it has looked.
pub proof fn lemma_checkpoints_in_range(stream: Seq<EntryView>, upto: int)
    requires
        0 <= upto <= usize::MAX,
    ensures
        spec_checkpoints(stream, upto).open matches Some(begin) ==> begin < upto,
        spec_checkpoints(stream, upto).last matches Some(begin) ==> begin < upto,
        spec_checkpoints(stream, upto).open.is_some() && spec_checkpoints(stream, upto).last.is_some()
            ==> spec_checkpoints(stream, upto).last.unwrap() < spec_checkpoints(
            stream,
            upto,
        ).open.unwrap(),
    decreases upto,
{
    if upto > 0 {
        lemma_checkpoints_in_range(stream, upto - 1);
    }
}

/// A failure once met stays the outcome however many more entries follow.
pub proof fn lemma_replay_failure_stays(
    g: GuestView,
    stream: Seq<EntryView>,
    from: int,
    upto: int,
    later: int,
)
    requires
        from <= upto <= later,
        spec_replay(g, stream, from, upto).is_err(),
    ensures
        spec_replay(g, stream, from, later) == spec_replay(g, stream, from, upto),
    decreases later - upto,
{
    if upto < later {
        lemma_replay_failure_stays(g, stream, from, upto, later - 1);
    }
}

/// What a driver is.
pub struct DriverView {
    pub guest: GuestView,
    pub state: ReplayState,
    /// The position replay starts at.
    pub start: usize,
    /// The position replay ends at.
    pub end: usize,
    /// How many entries of the stream the driver was fed.
    pub position: usize,
    pub failure: Option<ReplayFailure>,
}

impl DriverView {
    /// The driver after it was fed the next entry of the stream, or the end
    /// of the stream.
    ///
    /// A driver that replays steps over the entries before the start of
    /// replay and those from its end on, and applies the others. An entry
    /// that cannot be applied makes the driver fail; the end of the stream
    /// makes it done. A driver that does not replay stays as it is.
    pub open spec fn feed(self, event: Option<EntryView>) -> DriverView {
        if self.state != ReplayState::Replaying {
            self
        } else {
            match event {
                None => DriverView { state: ReplayState::Done, ..self },
                Some(entry) => if self.position == usize::MAX {
                    DriverView {
                        state: ReplayState::Failed,
                        failure: Some(
                            ReplayFailure {
                                index: self.position,
                                error: JournalError::Replay(
                                    super::error::ReplayError::Overflow,
                                ),
                            },
                        ),
                        ..self
                    }
                } else if self.position < self.start || self.position >= self.end {
                    DriverView { position: (self.position + 1) as usize, ..self }
                } else {
                    match self.guest.apply(entry) {
                        Ok(after) => DriverView {
                            guest: after,
                            position: (self.position + 1) as usize,
                            ..self
                        },
                        Err(error) => DriverView {
                            state: ReplayState::Failed,
                            failure: Some(ReplayFailure { index: self.position, error }),
                            ..self
                        },
                    }
                },
            }
        }
    }
}

/// The replay driver. It holds the guest while the guest is being put
/// together, and gives it out only when replay is done.
#[derive(Debug)]
pub struct ReplayDriver {
    guest: Guest,
    state: ReplayState,
    start: usize,
    end: usize,
    position: usize,
    failure: Option<ReplayFailure>,
}

impl View for ReplayDriver {
    type V = DriverView;

    closed spec fn view(&self) -> DriverView {
        DriverView {
            guest: self.guest@,
            state: self.state,
            start: self.start,
            end: self.end,
            position: self.position,
            failure: self.failure,
        }
    }
}

impl ReplayDriver {
    /// Whether the guest the driver holds fits together.
    pub closed spec fn well_formed(&self) -> bool {
        self.guest.well_formed()
    }

    /// A driver that is to put this guest together. It does not know yet
    /// where replay starts.
    pub fn new(guest: Guest) -> (driver: ReplayDriver)
        requires
            guest.well_formed(),
        ensures
            driver.well_formed(),
            driver@ == (DriverView {
                guest: guest@,
                state: ReplayState::Scanning,
                start: 0,
                end: 0,
                position: 0,
                failure: None,
            }),
    {
        ReplayDriver {
            guest,
            state: ReplayState::Scanning,
            start: 0,
            end: 0,
            position: 0,
            failure: None,
        }
    }

    /// Tells a scanning driver where replay starts and ends. The driver
    /// replays from then on. A driver that does not scan stays as it is.
    pub fn begin(&mut self, start: usize, end: usize)
        requires
            old(self).well_formed(),
        ensures
            final(self).well_formed(),
            final(self)@ == (if old(self)@.state == ReplayState::Scanning {
                DriverView { state: ReplayState::Replaying, start, end, position: 0, ..old(self)@ }
            } else {
                old(self)@
            }),
    {
        if self.state == ReplayState::Scanning {
            self.state = ReplayState::Replaying;
            self.start = start;
            self.end = end;
            self.position = 0;
        }
    }

    /// Feeds the driver the next entry of the stream, or the end of the
    /// stream, and says where the driver stands then.
    pub fn feed(&mut self, event: Option<&JournalEntry>) -> (state: ReplayState)
        requires
            old(self).well_formed(),
        ensures
            final(self).well_formed(),
            final(self)@ == old(self)@.feed(
                match event {
                    Some(entry) => Some(entry@),
                    None => None,
                },
            ),
            state == final(self)@.state,
    {
        if self.state != ReplayState::Replaying {
            return self.state;
        }
        match event {
            None => {
                self.state = ReplayState::Done;
            },
            Some(entry) => {
                if self.position == usize::MAX {
                    self.state = ReplayState::Failed;
                    self.failure = Some(
                        ReplayFailure {
                            index: self.position,
                            error: JournalError::Replay(super::error::ReplayError::Overflow),
                        },
                    );
                } else if self.position < self.start || self.position >= self.end {
                    self.position = self.position + 1;
                } else {
                    match self.guest.apply(entry) {
                        Ok(()) => {
                            self.position = self.position + 1;
                        },
                        Err(error) => {
                            self.state = ReplayState::Failed;
                            self.failure = Some(ReplayFailure { index: self.position, error });
                        },
                    }
                }
            },
        }
        self.state
    }

    /// Where the driver stands.
    pub fn state(&self) -> (state: ReplayState)
        ensures
            state == self@.state,
    {
        self.state
    }

    /// How many entries of the stream the driver was fed.
    pub fn position(&self) -> (position: usize)
        ensures
            position == self@.position,
    {
        self.position
    }

    /// Why the driver failed, if it did.
    pub fn failure(&self) -> (failure: Option<ReplayFailure>)
        ensures
            failure == self@.failure,
    {
        self.failure
    }

    /// Ends replay and gives the guest, if and only if replay is done. A
    /// driver that failed gives its failure; a driver that was stopped
    /// before the stream ended says so. Either way the guest that was not
    /// put together whole is dropped.
    pub fn finish(self) -> (res: Result<Guest, ReplayFailure>)
        requires
            self.well_formed(),
        ensures
            match self@.state {
                ReplayState::Done => res.is_ok() && res.unwrap()@ == self@.guest
                    && res.unwrap().well_formed(),
                ReplayState::Failed => res == Err::<Guest, ReplayFailure>(
                    match self@.failure {
                        Some(failure) => failure,
                        None => ReplayFailure {
                            index: self@.position,
                            error: JournalError::Replay(super::error::ReplayError::NotReplaying),
                        },
                    },
                ),
                _ => res == Err::<Guest, ReplayFailure>(
                    ReplayFailure {
                        index: self@.position,
                        error: JournalError::Replay(super::error::ReplayError::NotReplaying),
                    },
                ),
            },
    {
        let aborted = ReplayFailure {
            index: self.position,
            error: JournalError::Replay(super::error::ReplayError::NotReplaying),
        };
        match self.state {
            ReplayState::Done => Ok(self.guest),
            ReplayState::Failed => match self.failure {
                Some(failure) => Err(failure),
                None => Err(aborted),
            },
            _ => Err(aborted),
        }
    }
}

/// Reads a journal from its beginning to its end and finds its
/// checkpoints.
pub fn scan_checkpoints<R: ReadableJournal>(journal: &R) -> (res: Result<
    CheckpointScan,
    ReplayFailure,
>)
    requires
        journal.stream().len() <= usize::MAX,
    ensures
        res == (match journal.restart_fault() {
            Some(error) => Err::<CheckpointScan, ReplayFailure>(ReplayFailure { index: 0, error }),
            None => match journal.fault() {
                Some(error) => Err::<CheckpointScan, ReplayFailure>(
                    ReplayFailure { index: journal.stream().len() as usize, error },
                ),
                None => Ok::<CheckpointScan, ReplayFailure>(
                    spec_checkpoints(journal.stream(), journal.stream().len() as int),
                ),
            },
        }),
{
    let mut reader = match journal.as_restarted() {
        Ok(reader) => reader,
        Err(error) => {
            return Err(ReplayFailure { index: 0, error });
        },
    };
    let ghost stream = journal.stream();
    let mut scan = CheckpointScan { open: None, last: None };
    let mut index: usize = 0;
    loop
        invariant
            stream == journal.stream(),
            stream.len() <= usize::MAX,
            journal.restart_fault().is_none(),
            reader.stream() == stream,
            reader.fault() == journal.fault(),
            reader.position() == index,
            index <= stream.len(),
            scan == spec_checkpoints(stream, index as int),
        decreases stream.len() - index,
    {
        match reader.read() {
            Err(error) => {
                return Err(ReplayFailure { index, error });
            },
            Ok(None) => {
                return Ok(scan);
            },
            Ok(Some(entry)) => {
                match entry {
                    JournalEntry::CheckpointBegin => {
                        scan = CheckpointScan { open: Some(index), last: scan.last };
                    },
                    JournalEntry::CheckpointEnd => {
                        match scan.open {
                            Some(begin) => {
                                scan = CheckpointScan { open: None, last: Some(begin) };
                            },
                            None => {},
                        }
                    },
                    _ => {},
                }
                index = index + 1;
            },
        }
    }
}

/// Replays a journal into a guest: the whole of replay, from the scan for
/// the last complete checkpoint to the end of the stream.
///
/// The guest comes back if and only if every entry between the start and
/// the end of replay was applied. Else the answer is the first entry that
/// could not be applied, by its position in the stream, with the reason,
/// and the guest, which was not put together whole, is dropped.
#[verifier::loop_isolation(false)]
pub fn replay<R: ReadableJournal>(journal: &R, guest: Guest) -> (res: Result<Guest, ReplayFailure>)
    requires
        guest.well_formed(),
        journal.stream().len() <= usize::MAX,
    ensures
        match spec_replay_journal(
            guest@,
            journal.stream(),
            journal.fault(),
            journal.restart_fault(),
        ) {
            Ok(after) => res.is_ok() && res.unwrap()@ == after && res.unwrap().well_formed(),
            Err(failure) => res == Err::<Guest, ReplayFailure>(failure),
        },
{
    let ghost stream = journal.stream();
    let ghost g0 = guest@;
    let scan = match scan_checkpoints(journal) {
        Ok(scan) => scan,
        Err(failure) => {
            return Err(failure);
        },
    };
    proof {
        lemma_checkpoints_in_range(stream, stream.len() as int);
    }
    let start: usize = match scan.last {
        Some(begin) => begin,
        None => 0,
    };
    let mut reader = match journal.as_restarted() {
        Ok(reader) => reader,
        Err(error) => {
            return Err(ReplayFailure { index: 0, error });
        },
    };
    let mut driver = ReplayDriver::new(guest);
    let mut count: usize = 0;
    // Replay ends where a checkpoint was left open; where none was, it
    // ends with the stream, which no position reaches beyond.
    let end: usize = match scan.open {
        Some(begin) => begin,
        None => usize::MAX,
    };
    driver.begin(start, end);
    loop
        invariant
            stream == journal.stream(),
            stream.len() <= usize::MAX,
            journal.fault().is_none(),
            reader.stream() == stream,
            reader.fault().is_none(),
            reader.position() == count,
            count <= stream.len(),
            driver.well_formed(),
            driver@.state == ReplayState::Replaying,
            driver@.start == start,
            driver@.end == end,
            driver@.position == count,
            start == spec_replay_start(stream),
            start <= stream.len(),
            spec_replay_end(stream) <= stream.len(),
            match spec_checkpoints(stream, stream.len() as int).open {
                Some(begin) => end == begin,
                None => end == usize::MAX,
            },
            spec_replay(
                g0,
                stream,
                start as int,
                if count as int <= spec_replay_end(stream) {
                    count as int
                } else {
                    spec_replay_end(stream)
                },
            ) == Ok::<GuestView, ReplayFailure>(driver@.guest),
        decreases stream.len() - count,
    {
        let event = match reader.read() {
            Ok(event) => event,
            Err(error) => {
                return Err(ReplayFailure { index: count, error });
            },
        };
        match event {
            None => {
                assert(count >= stream.len());
                driver.feed(None);
                return driver.finish();
            },
            Some(entry) => {
                let ghost before = driver@;
                assert(entry@ == stream[count as int]);
                assert(count < stream.len());
                let state = driver.feed(Some(&entry));
                if state != ReplayState::Replaying {
                    proof {
                        let stop = spec_replay_end(stream);
                        assert(start <= count < stop);
                        assert(before.guest.apply(entry@).is_err());
                        assert(spec_replay(g0, stream, start as int, count as int) == Ok::<
                            GuestView,
                            ReplayFailure,
                        >(before.guest));
                        assert(spec_replay(g0, stream, start as int, count + 1).is_err());
                        lemma_replay_failure_stays(g0, stream, start as int, count + 1, stop);
                    }
                    return driver.finish();
                }
                count = count + 1;
            },
        }
    }
}

} // verus!
