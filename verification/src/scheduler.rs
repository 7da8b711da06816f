//! Schedule of server polls, earliest first.

use vstd::prelude::*;

verus! {

/// A scheduled poll.
#[derive(Debug)]
pub struct ScheduleEntry {
    pub key: String,
    pub due: u128,
}

/// A server key and when it is due.
#[verifier::ext_equal]
pub struct Due {
    pub key: Seq<char>,
    pub due: u128,
}

impl ScheduleEntry {
    pub open spec fn view(self) -> Due {
        Due { key: self.key@, due: self.due }
    }
}

/// The polls that are waiting. The latest stands first, so that the next one is
/// taken from the end.
#[derive(Debug)]
pub struct SchedulerHandle {
    entries: Vec<ScheduleEntry>,
}

/// What is to be done next.
#[derive(Debug)]
pub enum NextDue {
    /// Nothing is scheduled.
    Idle,
    /// The next poll is due in so many nanoseconds.
    Wait(u128),
    /// A poll is due; it was taken off the schedule.
    Ready(ScheduleEntry),
}

/// How many of the polls come before one that is scheduled now: those that are
/// due no later.
pub open spec fn slot(queue: Seq<Due>, due: u128) -> int
    decreases queue.len(),
{
    if queue.len() == 0 || queue[0].due > due {
        0
    } else {
        1 + slot(queue.drop_first(), due)
    }
}

/// The polls in their order once one more was scheduled.
pub open spec fn scheduled(queue: Seq<Due>, entry: Due) -> Seq<Due> {
    queue.insert(slot(queue, entry.due), entry)
}

/// The polls come in the order of their due times.
pub open spec fn in_order(queue: Seq<Due>) -> bool {
    forall|i: int, j: int| 0 <= i <= j < queue.len() ==> queue[i].due <= queue[j].due
}

proof fn lemma_slot(queue: Seq<Due>, due: u128)
    ensures
        0 <= slot(queue, due) <= queue.len(),
        forall|i: int| 0 <= i < slot(queue, due) ==> (#[trigger] queue[i]).due <= due,
        slot(queue, due) < queue.len() ==> queue[slot(queue, due)].due > due,
    decreases queue.len(),
{
    if queue.len() > 0 && queue[0].due <= due {
        lemma_slot(queue.drop_first(), due);
        assert forall|i: int| 0 <= i < slot(queue, due) implies (#[trigger] queue[i]).due
            <= due by {
            if i > 0 {
                assert(queue[i] == queue.drop_first()[i - 1]);
            }
        }
    }
}

impl SchedulerHandle {
    /// The polls in the order in which they will be taken.
    pub closed spec fn view(self) -> Seq<Due> {
        Seq::new(self.entries@.len(), |i: int| self.entries@[self.entries@.len() - 1 - i]@)
    }

    pub open spec fn wf(self) -> bool {
        in_order(self@)
    }

    /// The schedule without polls.
    pub fn new() -> (r: Self)
        ensures
            r.wf(),
            r@ == Seq::<Due>::empty(),
    {
        let r = SchedulerHandle { entries: Vec::new() };
        assert(r@ =~= Seq::<Due>::empty());
        r
    }

    /// Schedule a server key at the given due time.
    pub fn schedule(&mut self, key: String, due: u128)
        requires
            old(self).wf(),
        ensures
            final(self).wf(),
            final(self)@ == scheduled(old(self)@, Due { key: key@, due }),
    {
        let ghost before = self@;
        let ghost entry = Due { key: key@, due };
        let n: usize = self.entries.len();
        let mut at: usize = n;
        proof {
            lemma_slot(before, due);
        }
        while at > 0 && self.entries[at - 1].due <= due
            invariant
                0 <= at <= n,
                n == self.entries@.len(),
                before == self@,
                in_order(before),
                n - at <= slot(before, due) <= n,
                forall|i: int| 0 <= i < slot(before, due) ==> (#[trigger] before[i]).due <= due,
                slot(before, due) < n ==> before[slot(before, due)].due > due,
            decreases at,
        {
            assert(before[n - at].due <= due);
            at = at - 1;
        }
        proof {
            if at > 0 {
                assert(before[n - at].due > due);
            }
        }
        self.entries.insert(at, ScheduleEntry { key, due });
        proof {
            let now = self@;
            assert(now =~= scheduled(before, entry)) by {
                assert forall|i: int| 0 <= i < now.len() implies #[trigger] now[i] == scheduled(
                    before,
                    entry,
                )[i] by {}
            }
        }
    }

    /// Pop the next due server key, or say how long to wait for it.
    pub fn next_due(&mut self, now: u64) -> (r: NextDue)
        requires
            old(self).wf(),
        ensures
            final(self).wf(),
            match r {
                NextDue::Idle => old(self)@.len() == 0 && final(self)@ == old(self)@,
                NextDue::Wait(wait) => old(self)@.len() > 0 && wait == old(self)@[0].due - now
                    && wait > 0 && final(self)@ == old(self)@,
                NextDue::Ready(entry) => old(self)@.len() > 0 && entry@ == old(self)@[0]
                    && entry.due <= now && final(self)@ == old(self)@.drop_first(),
            },
    {
        let n: usize = self.entries.len();
        if n == 0 {
            return NextDue::Idle;
        }
        let due = self.entries[n - 1].due;
        assert(self@[0].due == due);
        if due > now as u128 {
            return NextDue::Wait(due - now as u128);
        }
        let ghost before = self@;
        match self.entries.pop() {
            Some(entry) => {
                assert(self@ =~= before.drop_first());
                NextDue::Ready(entry)
            },
            None => NextDue::Idle,
        }
    }
}

/// Scheduling keeps the polls in order and loses none.
pub proof fn law_schedule_keeps_order(queue: Seq<Due>, entry: Due)
    requires
        in_order(queue),
    ensures
        in_order(scheduled(queue, entry)),
        scheduled(queue, entry).len() == queue.len() + 1,
        scheduled(queue, entry).to_multiset() == queue.to_multiset().insert(entry),
{
    lemma_slot(queue, entry.due);
    let at = slot(queue, entry.due);
    let now = scheduled(queue, entry);
    assert forall|i: int, j: int| 0 <= i <= j < now.len() implies now[i].due <= now[j].due by {
        if j < at {
            assert(now[j] == queue[j]);
        }
        if at < queue.len() {
            assert(queue[at].due > entry.due);
        }
    }
    vstd::seq_lib::to_multiset_insert(queue, at, entry);
}

/// A poll that is scheduled is on the schedule, and so are those before it.
pub proof fn law_scheduled_polls_are_kept(queue: Seq<Due>, entry: Due)
    ensures
        scheduled(queue, entry).contains(entry),
        forall|other: Due| #[trigger]
            queue.contains(other) ==> scheduled(queue, entry).contains(other),
{
    lemma_slot(queue, entry.due);
    let at = slot(queue, entry.due);
    let now = scheduled(queue, entry);
    assert(now[at] == entry);
    assert forall|other: Due| #[trigger] queue.contains(other) implies now.contains(other) by {
        let i = queue.index_of(other);
        if i < at {
            assert(now[i] == other);
        } else {
            assert(now[i + 1] == other);
        }
    }
}

/// Of two polls that are due at one time, the one that was scheduled first is
/// taken first.
pub proof fn law_ties_come_in_order_of_scheduling(queue: Seq<Due>, first: Due, second: Due)
    requires
        in_order(queue),
        first.due == second.due,
    ensures
        ({
            let at = slot(queue, first.due);
            let now = scheduled(scheduled(queue, first), second);
            &&& now[at] == first
            &&& now[at + 1] == second
        }),
{
    law_schedule_keeps_order(queue, first);
    lemma_slot(queue, first.due);
    let at = slot(queue, first.due);
    let one = scheduled(queue, first);
    lemma_slot(one, second.due);
    let next = slot(one, second.due);
    assert(one[at] == first);
    if next <= at {
        assert(one[next].due <= one[at].due);
    }
    if next > at + 1 {
        assert(one[at + 1].due <= second.due);
        assert(one[at + 1] == queue[at]);
    }
}

} // verus!
