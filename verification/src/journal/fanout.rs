//! The broadcast: one journal in front of many. Each entry written to it is
//! written to every journal behind it; the write is taken only if all of
//! them take it.
use super::entry::{EntryView, JournalEntry};
use super::error::JournalError;
use super::traits::{spec_log_after, WritableJournal};
use vstd::prelude::*;

verus! {

/// The refusal of the first journal, among the first `upto`, that refuses
/// an entry: which journal it is, and what it says.
pub open spec fn spec_first_refusal<W: WritableJournal>(
    backends: Seq<W>,
    entry: EntryView,
    upto: int,
) -> Option<JournalError>
    decreases upto,
{
    if upto <= 0 {
        None
    } else {
        match spec_first_refusal(backends, entry, upto - 1) {
            Some(err) => Some(err),
            None => match backends[upto - 1].refusal(entry) {
                Some(err) => Some(
                    JournalError::Backend { index: (upto - 1) as usize, fault: err.spec_fault() },
                ),
                None => None,
            },
        }
    }
}

/// A journal in front of many journals.
///
/// A write goes to every journal behind the broadcast, in their order, also
/// where one of them has refused it: the journals that are well go on
/// holding every entry. The write is taken if every journal took it. If
/// not, the answer names the first journal that refused and gives its
/// reason; the journals that took the entry hold it, those that refused do
/// not. The caller may take the failed journal out with
/// [`BroadcastJournal::remove`] and go on with the rest.
pub struct BroadcastJournal<W: WritableJournal> {
    backends: Vec<W>,
    taken: Ghost<Seq<EntryView>>,
}

impl<W: WritableJournal> BroadcastJournal<W> {
    /// The journals behind the broadcast, in their order.
    pub closed spec fn spec_backends(&self) -> Seq<W> {
        self.backends@
    }

    /// A broadcast in front of these journals.
    pub fn new(backends: Vec<W>) -> (journal: Self)
        ensures
            journal.spec_backends() == backends@,
            journal.log() == Seq::<EntryView>::empty(),
    {
        BroadcastJournal { backends, taken: Ghost(Seq::empty()) }
    }

    /// How many journals stand behind the broadcast.
    pub fn len(&self) -> (n: usize)
        ensures
            n == self.spec_backends().len(),
    {
        self.backends.len()
    }

    /// One of the journals behind the broadcast.
    pub fn backend(&self, index: usize) -> (backend: &W)
        requires
            index < self.spec_backends().len(),
        ensures
            *backend == self.spec_backends()[index as int],
    {
        &self.backends[index]
    }

    /// Puts one more journal behind the broadcast, last.
    pub fn push(&mut self, backend: W)
        ensures
            final(self).spec_backends() == old(self).spec_backends().push(backend),
            final(self).log() == old(self).log(),
    {
        self.backends.push(backend);
    }

    /// Takes one journal out from behind the broadcast. The others keep
    /// their order.
    pub fn remove(&mut self, index: usize) -> (backend: W)
        requires
            index < old(self).spec_backends().len(),
        ensures
            backend == old(self).spec_backends()[index as int],
            final(self).spec_backends() == old(self).spec_backends().remove(index as int),
            final(self).log() == old(self).log(),
    {
        self.backends.remove(index)
    }

    /// Takes the broadcast away and gives the journals behind it.
    pub fn into_backends(self) -> (backends: Vec<W>)
        ensures
            backends@ == self.spec_backends(),
    {
        self.backends
    }
}

impl<W: WritableJournal> WritableJournal for BroadcastJournal<W> {
    /// The entries every journal behind the broadcast took.
    closed spec fn log(&self) -> Seq<EntryView> {
        self.taken@
    }

    open spec fn refusal(&self, entry: EntryView) -> Option<JournalError> {
        spec_first_refusal(self.spec_backends(), entry, self.spec_backends().len() as int)
    }

    open spec fn records(&self, entry: EntryView) -> bool {
        true
    }

    fn write(&mut self, entry: JournalEntry) -> (res: Result<(), JournalError>)
        ensures
            final(self).spec_backends().len() == old(self).spec_backends().len(),
            forall|i: int|
                0 <= i < old(self).spec_backends().len() ==> (#[trigger] final(self).spec_backends()[i]).log() == spec_log_after(
                    old(self).spec_backends()[i].log(),
                    old(self).spec_backends()[i].refusal(entry@),
                    old(self).spec_backends()[i].records(entry@),
                    entry@,
                ),
    {
        let ghost before = self.backends@;
        let mut first: Option<JournalError> = None;
        let mut i: usize = 0;
        while i < self.backends.len()
            invariant
                i <= self.backends@.len(),
                self.backends@.len() == before.len(),
                before == old(self).backends@,
                self.taken@ == old(self).taken@,
                first == spec_first_refusal(before, entry@, i as int),
                forall|j: int|
                    0 <= j < i ==> (#[trigger] self.backends@[j]).log() == spec_log_after(
                        before[j].log(),
                        before[j].refusal(entry@),
                        before[j].records(entry@),
                        entry@,
                    ),
                forall|j: int| i <= j < before.len() ==> self.backends@[j] == before[j],
            decreases self.backends@.len() - i,
        {
            let copy = entry.clone();
            match self.backends[i].write(copy) {
                Ok(()) => {},
                Err(err) => {
                    if first.is_none() {
                        first = Some(JournalError::Backend { index: i, fault: err.fault() });
                    }
                },
            }
            i = i + 1;
        }
        match first {
            Some(err) => Err(err),
            None => {
                self.taken = Ghost(self.taken@.push(entry@));
                Ok(())
            },
        }
    }
}

/// Where none of the first `upto` journals refuses an entry, there is no
/// first refusal among them.
pub proof fn lemma_all_take<W: WritableJournal>(backends: Seq<W>, entry: EntryView, upto: int)
    requires
        0 <= upto <= backends.len(),
        forall|j: int| 0 <= j < upto ==> (#[trigger] backends[j]).refusal(entry).is_none(),
    ensures
        spec_first_refusal(backends, entry, upto).is_none(),
    decreases upto,
{
    if upto > 0 {
        lemma_all_take(backends, entry, upto - 1);
    }
}

/// Failure isolation. Where journal `k` is the first behind a broadcast to
/// refuse an entry, the refusal of the broadcast names `k` and gives the
/// reason of that journal, whatever the journals behind it say.
pub proof fn lemma_refusal_names_the_first<W: WritableJournal>(
    backends: Seq<W>,
    entry: EntryView,
    k: int,
    upto: int,
)
    requires
        0 <= k < upto <= backends.len(),
        backends[k].refusal(entry).is_some(),
        forall|j: int| 0 <= j < k ==> (#[trigger] backends[j]).refusal(entry).is_none(),
    ensures
        spec_first_refusal(backends, entry, upto) == Some(
            JournalError::Backend {
                index: k as usize,
                fault: backends[k].refusal(entry).unwrap().spec_fault(),
            },
        ),
    decreases upto,
{
    if upto - 1 > k {
        lemma_refusal_names_the_first(backends, entry, k, upto - 1);
    } else {
        lemma_all_take(backends, entry, k);
    }
}

} // verus!
