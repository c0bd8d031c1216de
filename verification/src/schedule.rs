//! Checks on a replacement distribution schedule.

use crate::msg::ContractError;
use crate::state::{Config, Schedule, State};
use vstd::prelude::*;

verus! {

/// The order `#[derive(Ord)]` gives `Schedule`: by start time, then end time,
/// then amount.
pub open spec fn schedule_lt(a: Schedule, b: Schedule) -> bool {
    a.start_time < b.start_time || (a.start_time == b.start_time && (a.end_time < b.end_time || (
    a.end_time == b.end_time && a.amount < b.amount)))
}

fn schedule_less(a: Schedule, b: Schedule) -> (less: bool)
    ensures
        less == schedule_lt(a, b),
{
    a.start_time < b.start_time || (a.start_time == b.start_time && (a.end_time < b.end_time || (
    a.end_time == b.end_time && a.amount < b.amount)))
}

/// Entries strictly ascending by schedule, so no schedule occurs twice.
pub open spec fn entries_sorted(entries: Seq<(Schedule, u32)>) -> bool {
    forall|i: int, j: int|
        0 <= i < j < entries.len() ==> schedule_lt(#[trigger] entries[i].0, #[trigger] entries[j].0)
}

/// The count `entries` hold for `schedule`, zero when it has no entry.
pub open spec fn entries_count(entries: Seq<(Schedule, u32)>, schedule: Schedule) -> nat {
    if exists|i: int| 0 <= i < entries.len() && entries[i].0 == schedule {
        let i = choose|i: int| 0 <= i < entries.len() && entries[i].0 == schedule;
        entries[i].1 as nat
    } else {
        0
    }
}

proof fn lemma_entries_count_at(entries: Seq<(Schedule, u32)>, i: int)
    requires
        entries_sorted(entries),
        0 <= i < entries.len(),
    ensures
        entries_count(entries, entries[i].0) == entries[i].1,
{
    let s = entries[i].0;
    let j = choose|j: int| 0 <= j < entries.len() && entries[j].0 == s;
    if j < i {
        assert(schedule_lt(entries[j].0, entries[i].0));
    }
    if j > i {
        assert(schedule_lt(entries[i].0, entries[j].0));
    }
}

/// A count per schedule, kept in ascending schedule order with each schedule
/// at most once, as an ordered map of schedules to counts keeps it.
pub(crate) struct ScheduleCounts {
    entries: Vec<(Schedule, u32)>,
}

impl ScheduleCounts {
    /// The (schedule, count) entries in ascending schedule order.
    pub closed spec fn entries(&self) -> Seq<(Schedule, u32)> {
        self.entries@
    }

    /// No schedule occurs twice.
    pub open spec fn wf(&self) -> bool {
        entries_sorted(self.entries())
    }

    /// The count of `schedule`, zero when it has no entry.
    pub open spec fn count(&self, schedule: Schedule) -> nat {
        entries_count(self.entries(), schedule)
    }

    pub fn new() -> (counts: Self)
        ensures
            counts.wf(),
            forall|s: Schedule| counts.count(s) == 0,
    {
        ScheduleCounts { entries: Vec::new() }
    }

    /// Position of `schedule`, or of the first entry above it.
    fn position(&self, schedule: Schedule) -> (pos: usize)
        requires
            self.wf(),
        ensures
            pos <= self.entries().len(),
            forall|i: int| 0 <= i < pos ==> schedule_lt(#[trigger] self.entries()[i].0, schedule),
            pos < self.entries().len() ==> !schedule_lt(self.entries()[pos as int].0, schedule),
            forall|i: int|
                0 <= i < self.entries().len() && self.entries()[i].0 == schedule ==> i == pos,
    {
        let mut pos: usize = 0;
        while pos < self.entries.len()
            invariant
                self.wf(),
                pos <= self.entries@.len(),
                forall|i: int| 0 <= i < pos ==> schedule_lt(#[trigger] self.entries@[i].0, schedule),
            decreases self.entries@.len() - pos,
        {
            if !schedule_less(self.entries[pos].0, schedule) {
                assert forall|i: int|
                    0 <= i < self.entries().len() && self.entries()[i].0 == schedule implies i
                    == pos by {
                    if i > pos {
                        assert(schedule_lt(self.entries()[pos as int].0, self.entries()[i].0));
                    }
                    if i < pos {
                        assert(schedule_lt(self.entries()[i].0, schedule));
                    }
                }
                return pos;
            }
            pos += 1;
        }
        pos
    }

    /// Adds one to the count of `schedule` (`*entry(schedule).or_insert(0) += 1`).
    pub fn add_one(&mut self, schedule: Schedule)
        requires
            old(self).wf(),
            old(self).count(schedule) < u32::MAX,
        ensures
            final(self).wf(),
            final(self).count(schedule) == old(self).count(schedule) + 1,
            forall|s: Schedule| s != schedule ==> final(self).count(s) == old(self).count(s),
    {
        let pos = self.position(schedule);
        let ghost before = self.entries@;
        if pos < self.entries.len() && self.entries[pos].0 == schedule {
            let (s, c) = self.entries[pos];
            proof {
                lemma_entries_count_at(before, pos as int);
            }
            self.entries.set(pos, (s, c + 1));
            assert forall|i: int, j: int|
                0 <= i < j < self.entries().len() implies schedule_lt(
                #[trigger] self.entries()[i].0,
                #[trigger] self.entries()[j].0,
            ) by {
                assert(self.entries()[i].0 == before[i].0);
                assert(self.entries()[j].0 == before[j].0);
            }
            proof {
                lemma_entries_count_at(self.entries(), pos as int);
            }
            assert forall|x: Schedule| x != schedule implies self.count(x) == entries_count(
                before,
                x,
            ) by {
                if exists|i: int| 0 <= i < before.len() && before[i].0 == x {
                    let i = choose|i: int| 0 <= i < before.len() && before[i].0 == x;
                    lemma_entries_count_at(before, i);
                    lemma_entries_count_at(self.entries(), i);
                } else {
                    assert(!exists|i: int|
                        0 <= i < self.entries().len() && self.entries()[i].0 == x) by {
                        assert forall|i: int|
                            0 <= i < self.entries().len() implies self.entries()[i].0 != x by {
                            assert(self.entries()[i].0 == before[i].0);
                        }
                    }
                }
            }
        } else {
            assert forall|i: int| 0 <= i < before.len() implies before[i].0 != schedule by {
                if i > pos && pos < before.len() {
                    assert(schedule_lt(before[pos as int].0, before[i].0));
                }
            }
            self.entries.insert(pos, (schedule, 1));
            assert forall|i: int, j: int|
                0 <= i < j < self.entries().len() implies schedule_lt(
                #[trigger] self.entries()[i].0,
                #[trigger] self.entries()[j].0,
            ) by {
                if j < pos {
                } else if j == pos {
                } else if i < pos {
                    assert(self.entries()[j].0 == before[j - 1].0);
                    if j - 1 > pos {
                        assert(schedule_lt(before[pos as int].0, before[j - 1].0));
                    }
                } else if i == pos {
                    assert(self.entries()[j].0 == before[j - 1].0);
                    if j - 1 > pos {
                        assert(schedule_lt(before[pos as int].0, before[j - 1].0));
                    }
                } else {
                    assert(self.entries()[i].0 == before[i - 1].0);
                    assert(self.entries()[j].0 == before[j - 1].0);
                }
            }
            proof {
                lemma_entries_count_at(self.entries(), pos as int);
            }
            assert forall|x: Schedule| x != schedule implies self.count(x) == entries_count(
                before,
                x,
            ) by {
                if exists|i: int| 0 <= i < before.len() && before[i].0 == x {
                    let i = choose|i: int| 0 <= i < before.len() && before[i].0 == x;
                    lemma_entries_count_at(before, i);
                    let k = if i < pos {
                        i
                    } else {
                        i + 1
                    };
                    assert(self.entries()[k] == before[i]);
                    lemma_entries_count_at(self.entries(), k);
                } else {
                    assert(!exists|i: int|
                        0 <= i < self.entries().len() && self.entries()[i].0 == x) by {
                        assert forall|i: int|
                            0 <= i < self.entries().len() implies self.entries()[i].0 != x by {
                            if i < pos {
                                assert(self.entries()[i] == before[i]);
                            } else if i > pos {
                                assert(self.entries()[i] == before[i - 1]);
                            }
                        }
                    }
                }
            }
        }
    }

    /// The count of `schedule` (`get(&schedule).unwrap_or(&0)`).
    pub fn get(&self, schedule: Schedule) -> (count: u32)
        requires
            self.wf(),
        ensures
            count == self.count(schedule),
    {
        let pos = self.position(schedule);
        if pos < self.entries.len() && self.entries[pos].0 == schedule {
            proof {
                lemma_entries_count_at(self.entries(), pos as int);
            }
            self.entries[pos].1
        } else {
            0
        }
    }

    /// Takes `by` off the count of `schedule`, which has at least `by`
    /// (`*get_mut(&schedule).unwrap() -= by`).
    pub fn subtract(&mut self, schedule: Schedule, by: u32)
        requires
            old(self).wf(),
            old(self).count(schedule) >= by,
            by > 0,
        ensures
            final(self).wf(),
            final(self).count(schedule) == old(self).count(schedule) - by,
            forall|s: Schedule| s != schedule ==> final(self).count(s) == old(self).count(s),
    {
        let ghost before = self.entries@;
        let pos = self.position(schedule);
        assert(pos < before.len() && before[pos as int].0 == schedule);
        proof {
            lemma_entries_count_at(before, pos as int);
        }
        let (s, c) = self.entries[pos];
        self.entries.set(pos, (s, c - by));
        assert forall|i: int, j: int|
            0 <= i < j < self.entries().len() implies schedule_lt(
            #[trigger] self.entries()[i].0,
            #[trigger] self.entries()[j].0,
        ) by {
            assert(self.entries()[i].0 == before[i].0);
            assert(self.entries()[j].0 == before[j].0);
        }
        proof {
            lemma_entries_count_at(self.entries(), pos as int);
        }
        assert forall|x: Schedule| x != schedule implies self.count(x) == entries_count(before, x) by {
            if exists|i: int| 0 <= i < before.len() && before[i].0 == x {
                let i = choose|i: int| 0 <= i < before.len() && before[i].0 == x;
                lemma_entries_count_at(before, i);
                lemma_entries_count_at(self.entries(), i);
            } else {
                assert(!exists|i: int| 0 <= i < self.entries().len() && self.entries()[i].0 == x)
                    by {
                    assert forall|i: int|
                        0 <= i < self.entries().len() implies self.entries()[i].0 != x by {
                        assert(self.entries()[i].0 == before[i].0);
                    }
                }
            }
        }
    }

    /// The entries in ascending schedule order (`into_iter()`).
    pub fn into_entries(self) -> (entries: Vec<(Schedule, u32)>)
        requires
            self.wf(),
        ensures
            entries@ == self.entries(),
            entries_sorted(entries@),
    {
        self.entries
    }
}

/// The schedule had begun by the last distribution.
pub open spec fn started(schedule: Schedule, state: State) -> bool {
    schedule.start_time <= state.last_distributed
}

/// A tally holding `schedule` once and nothing else.
fn tally_of(schedule: Schedule) -> (counts: ScheduleCounts)
    ensures
        counts.wf(),
        counts.count(schedule) == 1,
        forall|s: Schedule| s != schedule ==> counts.count(s) == 0,
{
    let mut counts = ScheduleCounts::new();
    counts.add_one(schedule);
    counts
}

/// Tallies `schedule` once as existing and once as new, then refuses a begun
/// schedule that the new tally holds fewer times than the existing one
/// (`NewScheduleRemovePastDistribution`), and, once the existing begun
/// schedules are taken off the new tally, a begun schedule left in it
/// (`NewScheduleAddPastDistribution`). Both tallies hold the same schedule, so
/// neither error can come.
pub fn check_schedule(schedule: Schedule, state: &State) -> (result: Result<(), ContractError>)
    ensures
        result is Ok,
{
    let existing_counts = tally_of(schedule);
    let mut new_counts = tally_of(schedule);
    let ghost existing_tally = existing_counts;
    let existing = existing_counts.into_entries();
    proof {
        assert forall|i: int| 0 <= i < existing@.len() implies #[trigger] existing@[i].1
            == new_counts.count(existing@[i].0) by {
            lemma_entries_count_at(existing@, i);
            assert(existing_tally.count(existing@[i].0) == new_counts.count(existing@[i].0));
        }
        assert forall|x: Schedule| new_counts.count(x) > 0 implies exists|i: int|
            0 <= i < existing@.len() && #[trigger] existing@[i].0 == x by {
            assert(existing_tally.count(x) == new_counts.count(x));
        }
    }
    let m = existing.len();
    let mut k: usize = 0;
    while k < m
        invariant
            m == existing@.len(),
            k <= m,
            entries_sorted(existing@),
            new_counts.wf(),
            forall|i: int| k <= i < m ==> #[trigger] existing@[i].1 == new_counts.count(existing@[i].0),
            forall|x: Schedule|
                started(x, *state) && new_counts.count(x) > 0 ==> exists|i: int|
                    k <= i < m && #[trigger] existing@[i].0 == x,
        decreases m - k,
    {
        let (begun, count) = existing[k];
        if begun.start_time <= state.last_distributed {
            if count > new_counts.get(begun) {
                return Err(ContractError::NewScheduleRemovePastDistribution);
            }
            if count > 0 {
                new_counts.subtract(begun, count);
            }
        }
        assert forall|i: int| k + 1 <= i < m implies #[trigger] existing@[i].1 == new_counts.count(
            existing@[i].0,
        ) by {
            assert(schedule_lt(existing@[k as int].0, existing@[i].0));
        }
        assert forall|x: Schedule| started(x, *state) && new_counts.count(x) > 0 implies exists|i: int|
            k + 1 <= i < m && #[trigger] existing@[i].0 == x by {
            let i = choose|i: int| k <= i < m && #[trigger] existing@[i].0 == x;
            assert(i != k);
        }
        k += 1;
    }
    let ghost left = new_counts;
    let added = new_counts.into_entries();
    let n = added.len();
    let mut k: usize = 0;
    while k < n
        invariant
            n == added@.len(),
            k <= n,
            added@ == left.entries(),
            left.wf(),
            forall|x: Schedule| started(x, *state) ==> left.count(x) == 0,
        decreases n - k,
    {
        let (added_schedule, count) = added[k];
        proof {
            lemma_entries_count_at(added@, k as int);
        }
        assert(left.count(added_schedule) == count);
        if count > 0 && added_schedule.start_time <= state.last_distributed {
            assert(started(added_schedule, *state));
            return Err(ContractError::NewScheduleAddPastDistribution);
        }
        k += 1;
    }
    Ok(())
}

/// Checks a replacement distribution schedule: it must list schedules for as
/// many reward tokens as the current one, and each of its schedules passes
/// `check_schedule`.
pub fn assert_new_schedules(config: &Config, state: &State, distribution_schedule: Vec<Vec<Schedule>>) -> (result: Result<
    (),
    ContractError,
>)
    ensures
        result is Ok <==> distribution_schedule@.len() == config.distribution_schedule@.len(),
        result is Err ==> result matches Err(ContractError::InvalidSchedules),
{
    if distribution_schedule.len() != config.distribution_schedule.len() {
        return Err(ContractError::InvalidSchedules);
    }
    let n = distribution_schedule.len();
    let mut index: usize = 0;
    while index < n
        invariant
            n == distribution_schedule@.len(),
            0 <= index <= n,
        decreases n - index,
    {
        let schedules = &distribution_schedule[index];
        let mut j: usize = 0;
        while j < schedules.len()
            invariant
                j <= schedules@.len(),
            decreases schedules@.len() - j,
        {
            match check_schedule(schedules[j], state) {
                Ok(()) => {},
                Err(e) => {
                    return Err(e);
                },
            }
            j += 1;
        }
        index += 1;
    }
    Ok(())
}

} // verus!
