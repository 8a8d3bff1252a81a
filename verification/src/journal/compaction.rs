//! Compaction and checkpoints. A compactor hands on every checkpoint marker
//! and forgets what it remembers where a checkpoint begins, so what it
//! hands on has its checkpoints where the whole stream has them, and
//! replays from the last complete one as the whole stream does.
use super::compact::{
    lemma_subsumed_changes_nothing, lemma_track_follows, spec_compact, spec_replay_error,
    TrackView,
};
use super::entry::EntryView;
use super::guest::GuestView;
use super::replay::{
    lemma_checkpoints_in_range, lemma_replay_failure_stays, spec_checkpoint_step,
    spec_checkpoints, spec_replay, spec_replay_end, spec_replay_start, spec_replay_stream,
    ReplayFailure,
};
use vstd::prelude::*;

verus! {

/// What a compactor hands on of the first `upto` entries of a run.
pub open spec fn spec_kept(entries: Seq<EntryView>, upto: int, limit: nat) -> Seq<EntryView> {
    spec_compact(entries, upto, limit).kept
}

/// Where a position of the whole stream lies in what was handed on: behind
/// as many entries as were handed on before it.
pub open spec fn spec_moved(position: Option<usize>, entries: Seq<EntryView>, limit: nat) -> Option<
    usize,
> {
    match position {
        Some(index) => Some(spec_kept(entries, index as int, limit).len() as usize),
        None => None,
    }
}

/// What was handed on stays handed on: of more entries a compactor hands on
/// what it handed on of fewer, and then more.
pub proof fn lemma_kept_grows(entries: Seq<EntryView>, upto: int, later: int, limit: nat)
    requires
        0 <= upto <= later,
    ensures
        spec_kept(entries, upto, limit).len() <= spec_kept(entries, later, limit).len(),
        spec_kept(entries, later, limit).len() <= later,
        forall|i: int|
            0 <= i < spec_kept(entries, upto, limit).len() ==> spec_kept(entries, later, limit)[i]
                == spec_kept(entries, upto, limit)[i],
    decreases later,
{
    if later > 0 {
        if upto < later {
            lemma_kept_grows(entries, upto, later - 1, limit);
        } else {
            lemma_kept_grows(entries, upto - 1, later - 1, limit);
        }
    }
}

/// Replay of a part of a stream looks only at that part.
pub proof fn lemma_replay_part(
    g: GuestView,
    short: Seq<EntryView>,
    long: Seq<EntryView>,
    from: int,
    upto: int,
)
    requires
        0 <= from,
        upto <= short.len() <= long.len(),
        forall|i: int| 0 <= i < short.len() ==> short[i] == long[i],
    ensures
        spec_replay(g, long, from, upto) == spec_replay(g, short, from, upto),
    decreases upto - from,
{
    if upto > from {
        lemma_replay_part(g, short, long, from, upto - 1);
    }
}

/// A scan for checkpoints looks only at the entries it has come by.
pub proof fn lemma_checkpoints_part(short: Seq<EntryView>, long: Seq<EntryView>, upto: int)
    requires
        upto <= short.len() <= long.len(),
        forall|i: int| 0 <= i < short.len() ==> short[i] == long[i],
    ensures
        spec_checkpoints(long, upto) == spec_checkpoints(short, upto),
    decreases upto,
{
    if upto > 0 {
        lemma_checkpoints_part(short, long, upto - 1);
    }
}

/// Where a scan says a checkpoint begins, a begin marker stands.
pub proof fn lemma_checkpoints_are_begins(stream: Seq<EntryView>, upto: int)
    requires
        0 <= upto <= stream.len() <= usize::MAX,
    ensures
        spec_checkpoints(stream, upto).open matches Some(begin) ==> begin < upto
            && stream[begin as int] is CheckpointBegin,
        spec_checkpoints(stream, upto).last matches Some(begin) ==> begin < upto
            && stream[begin as int] is CheckpointBegin,
    decreases upto,
{
    if upto > 0 {
        lemma_checkpoints_are_begins(stream, upto - 1);
    }
}

/// A marker is always handed on.
pub proof fn lemma_marker_is_kept(entries: Seq<EntryView>, index: int, limit: nat)
    requires
        0 <= index < entries.len(),
        entries[index] is CheckpointBegin || entries[index] is CheckpointEnd,
    ensures
        spec_kept(entries, index + 1, limit) == spec_kept(entries, index, limit).push(
            entries[index],
        ),
        entries[index] is CheckpointBegin ==> spec_compact(entries, index + 1, limit).track
            == TrackView::nothing(),
{
}

/// What is handed on has its checkpoints where the whole stream has them.
pub proof fn lemma_checkpoints_compacted(entries: Seq<EntryView>, upto: int, limit: nat)
    requires
        0 <= upto <= entries.len() <= usize::MAX,
    ensures
        ({
            let kept = spec_kept(entries, upto, limit);
            let whole = spec_checkpoints(entries, upto);
            let handed = spec_checkpoints(kept, kept.len() as int);
            &&& handed.open == spec_moved(whole.open, entries, limit)
            &&& handed.last == spec_moved(whole.last, entries, limit)
        }),
    decreases upto,
{
    if upto > 0 {
        lemma_checkpoints_compacted(entries, upto - 1, limit);
        let before = spec_compact(entries, upto - 1, limit);
        let kept = spec_kept(entries, upto, limit);
        let entry = entries[upto - 1];
        let n = before.kept.len() as int;
        lemma_kept_grows(entries, upto - 1, upto, limit);
        if !before.track.subsumes(entry) {
            lemma_checkpoints_part(before.kept, kept, n);
            assert(kept[n] == entry);
            assert(spec_checkpoints(kept, n + 1) == spec_checkpoint_step(
                spec_checkpoints(kept, n),
                entry,
                n,
            ));
        }
    }
}

/// Compaction step by step, from any start that is the beginning of the
/// stream or the beginning of a checkpoint: replay of what was handed on
/// from there gives the guest that replay of all entries from there gives;
/// or both fail for the same reason.
pub proof fn lemma_compaction_from(
    g: GuestView,
    entries: Seq<EntryView>,
    from: int,
    upto: int,
    limit: nat,
)
    requires
        0 <= from <= upto <= entries.len(),
        from == 0 || (from < entries.len() && entries[from] is CheckpointBegin),
    ensures
        ({
            let c = spec_compact(entries, upto, limit);
            let start = spec_kept(entries, from, limit).len() as int;
            let all = spec_replay(g, entries, from, upto);
            let kept = spec_replay(g, c.kept, start, c.kept.len() as int);
            match all {
                Ok(after) => kept == Ok::<GuestView, ReplayFailure>(after) && (upto > from || from
                    == 0 ==> c.track.holds_in(after)),
                Err(failure) => spec_replay_error(kept) == Some(failure.error),
            }
        }),
    decreases upto - from,
{
    let start = spec_kept(entries, from, limit).len() as int;
    if upto > from {
        lemma_compaction_from(g, entries, from, upto - 1, limit);
        let before = spec_compact(entries, upto - 1, limit);
        let c = spec_compact(entries, upto, limit);
        let entry = entries[upto - 1];
        let all_before = spec_replay(g, entries, from, upto - 1);
        let n = before.kept.len() as int;
        lemma_kept_grows(entries, from, upto - 1, limit);
        if upto - 1 == from && from > 0 {
            // the first step of a checkpoint: the begin marker
            lemma_marker_is_kept(entries, from, limit);
            lemma_replay_part(g, before.kept, c.kept, start, n);
            assert(c.kept[n] == entry);
        } else if before.track.subsumes(entry) {
            match all_before {
                Ok(mid) => {
                    lemma_subsumed_changes_nothing(before.track, mid, entry);
                },
                Err(_) => {},
            }
        } else {
            lemma_replay_part(g, before.kept, c.kept, start, n);
            assert(c.kept[n] == entry);
            match all_before {
                Ok(mid) => {
                    if mid.apply(entry).is_ok() {
                        lemma_track_follows(before.track, mid, entry, limit);
                    }
                },
                Err(_) => {
                    lemma_replay_failure_stays(g, c.kept, start, n, n + 1);
                },
            }
        }
    }
}

/// Compaction keeps restore points. Replay of what a compactor hands on of
/// a stream starts at the checkpoint where replay of the whole stream
/// starts, ends where it ends, and gives the guest it gives. Where replay
/// of the whole stream fails, replay of what was handed on fails for the
/// same reason.
pub proof fn lemma_compaction_preserves_restore(g: GuestView, entries: Seq<EntryView>, limit: nat)
    requires
        entries.len() <= usize::MAX,
    ensures
        ({
            let kept = spec_kept(entries, entries.len() as int, limit);
            match spec_replay_stream(g, entries) {
                Ok(after) => spec_replay_stream(g, kept) == Ok::<GuestView, ReplayFailure>(after),
                Err(failure) => spec_replay_error(spec_replay_stream(g, kept)) == Some(
                    failure.error,
                ),
            }
        }),
{
    let len = entries.len() as int;
    let kept = spec_kept(entries, len, limit);
    let start = spec_replay_start(entries);
    let end = spec_replay_end(entries);
    lemma_checkpoints_in_range(entries, len);
    lemma_checkpoints_are_begins(entries, len);
    lemma_checkpoints_compacted(entries, len, limit);
    lemma_kept_grows(entries, start, end, limit);
    lemma_kept_grows(entries, end, len, limit);
    lemma_kept_grows(entries, 0, start, limit);
    let kept_start = spec_kept(entries, start, limit).len() as int;
    let kept_end = spec_kept(entries, end, limit).len() as int;
    assert(spec_kept(entries, 0, limit).len() == 0);
    assert(spec_replay_start(kept) == kept_start);
    assert(spec_replay_end(kept) == kept_end);
    lemma_compaction_from(g, entries, start, end, limit);
    lemma_replay_part(g, spec_kept(entries, end, limit), kept, kept_start, kept_end);
}

} // verus!
