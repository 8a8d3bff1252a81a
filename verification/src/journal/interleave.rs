//! Many producers, one log. A journal takes one write at a time, so
//! whatever the producers do, their writes reach the log one after another
//! in some order: a schedule. Whatever the schedule, no entry is lost, none
//! comes twice, and the entries of each producer stand in the log in the
//! order the producer wrote them.
use super::checkpoint::push_entry;
use super::entry::{EntryView, JournalEntry};
use super::traits::spec_entry_views;
use vstd::prelude::*;

verus! {

/// How many of the first `upto` writes of a schedule a producer makes.
pub open spec fn spec_turns(schedule: Seq<nat>, producer: nat, upto: int) -> nat
    decreases upto,
{
    if upto <= 0 {
        0
    } else {
        spec_turns(schedule, producer, upto - 1) + (if schedule[upto - 1] == producer {
            1nat
        } else {
            0nat
        })
    }
}

/// The log after the first `upto` writes of a schedule: each write is the
/// next entry of the producer whose turn it is.
pub open spec fn spec_interleaved(
    producers: Seq<Seq<EntryView>>,
    schedule: Seq<nat>,
    upto: int,
) -> Seq<EntryView>
    decreases upto,
{
    if upto <= 0 {
        Seq::empty()
    } else {
        let producer = schedule[upto - 1];
        spec_interleaved(producers, schedule, upto - 1).push(
            producers[producer as int][spec_turns(schedule, producer, upto - 1) as int],
        )
    }
}

/// Whether a schedule lets every producer write all it has and no more.
pub open spec fn spec_schedule_fits(producers: Seq<Seq<EntryView>>, schedule: Seq<nat>) -> bool {
    &&& forall|i: int| 0 <= i < schedule.len() ==> (#[trigger] schedule[i]) < producers.len()
    &&& forall|p: nat|
        p < producers.len() ==> #[trigger] spec_turns(schedule, p, schedule.len() as int)
            == producers[p as int].len()
}

/// The entries among the first `upto` of a log that a producer wrote, in
/// the order they stand in the log.
pub open spec fn spec_written_by(
    log: Seq<EntryView>,
    schedule: Seq<nat>,
    producer: nat,
    upto: int,
) -> Seq<EntryView>
    decreases upto,
{
    if upto <= 0 {
        Seq::empty()
    } else if schedule[upto - 1] == producer {
        spec_written_by(log, schedule, producer, upto - 1).push(log[upto - 1])
    } else {
        spec_written_by(log, schedule, producer, upto - 1)
    }
}

/// How many turns the first `count` producers have among the first `upto`
/// writes of a schedule.
pub open spec fn spec_turns_of_all(schedule: Seq<nat>, count: int, upto: int) -> nat
    decreases count,
{
    if count <= 0 {
        0
    } else {
        spec_turns_of_all(schedule, count - 1, upto) + spec_turns(
            schedule,
            (count - 1) as nat,
            upto,
        )
    }
}

/// A producer has no fewer turns in more writes.
pub proof fn lemma_turns_grow(schedule: Seq<nat>, producer: nat, upto: int, later: int)
    requires
        upto <= later,
    ensures
        spec_turns(schedule, producer, upto) <= spec_turns(schedule, producer, later),
    decreases later - upto,
{
    if upto < later {
        lemma_turns_grow(schedule, producer, upto, later - 1);
    }
}

/// The log grows by one entry with each write, and what stood in it stays.
pub proof fn lemma_interleaved_grows(
    producers: Seq<Seq<EntryView>>,
    schedule: Seq<nat>,
    upto: int,
    later: int,
)
    requires
        0 <= upto <= later,
    ensures
        spec_interleaved(producers, schedule, upto).len() == upto,
        spec_interleaved(producers, schedule, later).len() == later,
        forall|i: int|
            0 <= i < upto ==> spec_interleaved(producers, schedule, later)[i] == spec_interleaved(
                producers,
                schedule,
                upto,
            )[i],
    decreases later,
{
    if later > 0 {
        if upto < later {
            lemma_interleaved_grows(producers, schedule, upto, later - 1);
        } else {
            lemma_interleaved_grows(producers, schedule, upto - 1, later - 1);
        }
    }
}

/// One more write is one more turn for one of the producers.
proof fn lemma_turns_of_all_step(schedule: Seq<nat>, count: int, upto: int)
    requires
        0 < upto,
        0 <= count,
    ensures
        spec_turns_of_all(schedule, count, upto) == spec_turns_of_all(schedule, count, upto - 1)
            + (if schedule[upto - 1] < count {
            1nat
        } else {
            0nat
        }),
    decreases count,
{
    if count > 0 {
        lemma_turns_of_all_step(schedule, count - 1, upto);
    }
}

/// Every write is the turn of one producer: the turns of all producers
/// together are as many as the writes.
pub proof fn lemma_turns_of_all(schedule: Seq<nat>, count: int, upto: int)
    requires
        0 <= upto <= schedule.len(),
        0 <= count,
        forall|i: int| 0 <= i < schedule.len() ==> (#[trigger] schedule[i]) < count,
    ensures
        spec_turns_of_all(schedule, count, upto) == upto,
    decreases upto,
{
    if upto == 0 {
        lemma_no_turns(schedule, count);
    } else {
        lemma_turns_of_all(schedule, count, upto - 1);
        lemma_turns_of_all_step(schedule, count, upto);
    }
}

/// Before the first write nobody has had a turn.
proof fn lemma_no_turns(schedule: Seq<nat>, count: int)
    ensures
        spec_turns_of_all(schedule, count, 0) == 0,
    decreases count,
{
    if count > 0 {
        lemma_no_turns(schedule, count - 1);
    }
}

/// Producers that each have as many turns have that many times their
/// number together.
proof fn lemma_equal_turns(schedule: Seq<nat>, count: int, upto: int, each: nat)
    requires
        0 <= count,
        forall|p: nat| p < count ==> #[trigger] spec_turns(schedule, p, upto) == each,
    ensures
        spec_turns_of_all(schedule, count, upto) == count * each,
    decreases count,
{
    if count > 0 {
        lemma_equal_turns(schedule, count - 1, upto, each);
        assert(spec_turns(schedule, (count - 1) as nat, upto) == each);
        assert((count - 1) * each + each == count * each) by (nonlinear_arith);
    } else {
        assert(0 * each == 0) by (nonlinear_arith);
    }
}

/// What a producer has written after some writes is the first of its
/// entries, as many as it has had turns.
pub proof fn lemma_written_by(
    producers: Seq<Seq<EntryView>>,
    schedule: Seq<nat>,
    producer: nat,
    upto: int,
)
    requires
        spec_schedule_fits(producers, schedule),
        producer < producers.len(),
        0 <= upto <= schedule.len(),
    ensures
        spec_turns(schedule, producer, upto) <= producers[producer as int].len(),
        spec_written_by(
            spec_interleaved(producers, schedule, schedule.len() as int),
            schedule,
            producer,
            upto,
        ) == producers[producer as int].take(spec_turns(schedule, producer, upto) as int),
    decreases upto,
{
    let log = spec_interleaved(producers, schedule, schedule.len() as int);
    let own = producers[producer as int];
    lemma_turns_grow(schedule, producer, upto, schedule.len() as int);
    assert(spec_turns(schedule, producer, schedule.len() as int) == own.len());
    if upto == 0 {
        assert(spec_written_by(log, schedule, producer, 0) =~= own.take(0));
    } else {
        lemma_written_by(producers, schedule, producer, upto - 1);
        if schedule[upto - 1] == producer {
            let turns = spec_turns(schedule, producer, upto - 1) as int;
            lemma_interleaved_grows(producers, schedule, upto, schedule.len() as int);
            assert(log[upto - 1] == spec_interleaved(producers, schedule, upto)[upto - 1]);
            assert(log[upto - 1] == own[turns]);
            assert(own.take(turns).push(own[turns]) =~= own.take(turns + 1));
        }
    }
}

/// Many producers lose nothing. Let producers write to one log, their
/// writes taken one at a time in whatever order, until each has written all
/// it has. Then the log holds as many entries as the producers had
/// together, and the entries of each producer stand in it whole, each once,
/// in the order the producer wrote them.
pub proof fn lemma_interleaving_keeps_every_entry(
    producers: Seq<Seq<EntryView>>,
    schedule: Seq<nat>,
)
    requires
        spec_schedule_fits(producers, schedule),
    ensures
        spec_interleaved(producers, schedule, schedule.len() as int).len() == schedule.len(),
        forall|p: nat|
            p < producers.len() ==> #[trigger] spec_written_by(
                spec_interleaved(producers, schedule, schedule.len() as int),
                schedule,
                p,
                schedule.len() as int,
            ) == producers[p as int],
{
    let len = schedule.len() as int;
    lemma_interleaved_grows(producers, schedule, len, len);
    assert forall|p: nat| p < producers.len() implies #[trigger] spec_written_by(
        spec_interleaved(producers, schedule, len),
        schedule,
        p,
        len,
    ) == producers[p as int] by {
        lemma_written_by(producers, schedule, p, len);
        assert(producers[p as int].take(producers[p as int].len() as int)
            =~= producers[p as int]);
    }
}

/// Where each of the producers writes as many entries as the others, the
/// log holds that many times the number of producers.
pub proof fn lemma_equal_producers_fill_the_log(
    producers: Seq<Seq<EntryView>>,
    schedule: Seq<nat>,
    each: nat,
)
    requires
        spec_schedule_fits(producers, schedule),
        forall|p: int| 0 <= p < producers.len() ==> (#[trigger] producers[p]).len() == each,
    ensures
        spec_interleaved(producers, schedule, schedule.len() as int).len() == producers.len()
            * each,
{
    let len = schedule.len() as int;
    let count = producers.len() as int;
    lemma_interleaved_grows(producers, schedule, len, len);
    lemma_turns_of_all(schedule, count, len);
    assert forall|p: nat| p < count implies #[trigger] spec_turns(schedule, p, len) == each by {
        assert(producers[p as int].len() == each);
    }
    lemma_equal_turns(schedule, count, len, each);
}

/// What producers hold, read as sequences.
pub open spec fn spec_producer_views(producers: Seq<Vec<JournalEntry>>) -> Seq<Seq<EntryView>> {
    Seq::new(producers.len(), |p: int| spec_entry_views(producers[p]@))
}

/// A schedule, read as a sequence of numbers.
pub open spec fn spec_schedule_view(schedule: Seq<usize>) -> Seq<nat> {
    Seq::new(schedule.len(), |i: int| schedule[i] as nat)
}

/// One more write is one more turn for the producer whose turn it is, and
/// for nobody else.
proof fn lemma_turns_step(schedule: Seq<nat>, producer: nat, upto: int)
    requires
        0 <= upto < schedule.len(),
    ensures
        spec_turns(schedule, producer, upto + 1) == spec_turns(schedule, producer, upto) + (
        if schedule[upto] == producer {
            1nat
        } else {
            0nat
        }),
{
}

/// Lays the entries of producers out in the order of a schedule: each
/// write is the next entry of the producer whose turn it is. A schedule
/// that does not let every producer write all it has and no more gives
/// nothing.
pub fn interleave(producers: &Vec<Vec<JournalEntry>>, schedule: &Vec<usize>) -> (merged: Option<
    Vec<JournalEntry>,
>)
    ensures
        match merged {
            Some(entries) => spec_schedule_fits(
                spec_producer_views(producers@),
                spec_schedule_view(schedule@),
            ) && spec_entry_views(entries@) == spec_interleaved(
                spec_producer_views(producers@),
                spec_schedule_view(schedule@),
                schedule@.len() as int,
            ),
            None => !spec_schedule_fits(
                spec_producer_views(producers@),
                spec_schedule_view(schedule@),
            ),
        },
{
    let ghost views = spec_producer_views(producers@);
    let ghost order = spec_schedule_view(schedule@);
    let count = producers.len();
    let len = schedule.len();
    let mut turns: Vec<usize> = Vec::new();
    while turns.len() < count
        invariant
            turns@.len() <= count,
            forall|p: int| 0 <= p < turns@.len() ==> turns@[p] == 0,
        decreases count - turns@.len(),
    {
        turns.push(0);
    }
    let mut merged: Vec<JournalEntry> = Vec::new();
    let mut i: usize = 0;
    while i < len
        invariant
            i <= len,
            len == schedule@.len(),
            count == producers@.len(),
            views == spec_producer_views(producers@),
            order == spec_schedule_view(schedule@),
            turns@.len() == count,
            forall|p: int|
                0 <= p < count ==> (#[trigger] turns@[p]) == spec_turns(order, p as nat, i as int)
                    && turns@[p] <= producers@[p]@.len(),
            forall|j: int| 0 <= j < i ==> (#[trigger] order[j]) < count,
            spec_entry_views(merged@) == spec_interleaved(views, order, i as int),
        decreases len - i,
    {
        let p = schedule[i];
        assert(order[i as int] == p);
        if p >= count {
            return None;
        }
        let k = turns[p];
        assert(turns@[p as int] == spec_turns(order, p as nat, i as int));
        if k >= producers[p].len() {
            proof {
                lemma_turns_step(order, p as nat, i as int);
                lemma_turns_grow(order, p as nat, i + 1, len as int);
                assert(views[p as int].len() == producers@[p as int]@.len());
                assert(spec_turns(order, p as nat, len as int) > views[p as int].len());
            }
            return None;
        }
        let entry = producers[p][k].clone();
        assert(entry@ == views[p as int][k as int]);
        push_entry(&mut merged, entry);
        let ghost old_turns = turns@;
        turns.set(p, k + 1);
        proof {
            let ghost before = old_turns;
            assert forall|q: int| 0 <= q < count implies (#[trigger] turns@[q]) == spec_turns(
                order,
                q as nat,
                i + 1,
            ) && turns@[q] <= producers@[q]@.len() by {
                lemma_turns_step(order, q as nat, i as int);
                assert(before[q] == spec_turns(order, q as nat, i as int));
            }
        }
        i = i + 1;
    }
    let mut p: usize = 0;
    while p < count
        invariant
            p <= count,
            len == schedule@.len(),
            count == producers@.len(),
            views == spec_producer_views(producers@),
            order == spec_schedule_view(schedule@),
            turns@.len() == count,
            forall|q: int|
                0 <= q < count ==> (#[trigger] turns@[q]) == spec_turns(
                    order,
                    q as nat,
                    len as int,
                ),
            forall|j: int| 0 <= j < len ==> (#[trigger] order[j]) < count,
            forall|q: int| 0 <= q < p ==> producers@[q]@.len() == spec_turns(
                order,
                q as nat,
                len as int,
            ),
        decreases count - p,
    {
        assert(turns@[p as int] == spec_turns(order, p as nat, len as int));
        if turns[p] != producers[p].len() {
            proof {
                assert(views[p as int].len() == producers@[p as int]@.len());
                assert(order.len() == len);
                assert((p as nat) < views.len());
                assert(spec_turns(order, p as nat, order.len() as int) != views[p as nat as int].len());
            }
            return None;
        }
        p = p + 1;
    }
    proof {
        assert forall|q: nat| q < views.len() implies #[trigger] spec_turns(
            order,
            q,
            order.len() as int,
        ) == views[q as int].len() by {
            assert(views[q as int].len() == producers@[q as int]@.len());
        }
    }
    Some(merged)
}

} // verus!
