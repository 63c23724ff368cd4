//! When a task is due, and the set of identities already reported.

use vstd::prelude::*;
use crate::calendar::Moment;
use crate::task::{key_of, moment_of, task_views, Task, TaskView};

verus! {

/// The hour and minute at which an all-day task is reported.
pub const ALL_DAY_HOUR: u32 = 9;

pub const ALL_DAY_MINUTE: u32 = 0;

/// Width of the window after the scheduled moment in which a timed task is
/// due, in seconds.
pub const WINDOW_SECONDS: i64 = 60;

/// A task is due at `now` when it is open and either `now` falls in the 60
/// seconds that start at its scheduled moment, or, without a moment, it is
/// dated `now`'s day and the clock shows 09:00.
pub open spec fn due_at(t: TaskView, now: Moment) -> bool {
    !t.completed && match moment_of(t) {
        Some(at) => 0 <= now.seconds() - at.seconds() < WINDOW_SECONDS,
        None => t.date == now.date && now.hour == ALL_DAY_HOUR && now.minute == ALL_DAY_MINUTE,
    }
}

/// A completed task is never due.
pub proof fn lemma_completed_never_due(t: TaskView, now: Moment)
    requires
        t.completed,
    ensures
        !due_at(t, now),
{
}

/// An open task with a scheduled moment `at` is due exactly for the moments
/// in `[at, at + 60 s)`.
pub proof fn lemma_timed_window(t: TaskView, now: Moment)
    requires
        !t.completed,
        moment_of(t) is Some,
    ensures
        due_at(t, now) <==> moment_of(t)->0.seconds() <= now.seconds() < moment_of(t)->0.seconds()
            + 60,
{
}

/// An open task without a time is due exactly on its own day, in the minute
/// 09:00.
pub proof fn lemma_all_day_trigger(t: TaskView, now: Moment)
    requires
        !t.completed,
        t.time is None,
    ensures
        due_at(t, now) <==> t.date == now.date && now.hour == 9 && now.minute == 0,
{
}

/// Whether `task` is due at `now`.
pub fn is_due(task: &Task, now: &Moment) -> (r: bool)
    requires
        now.wf(),
    ensures
        r == due_at(task@, *now),
{
    if task.completed {
        return false;
    }
    match task.datetime() {
        Some(at) => {
            let d = now.seconds_since(&at);
            0 <= d && d < WINDOW_SECONDS
        },
        None => task.date == now.date && now.hour == ALL_DAY_HOUR && now.minute == ALL_DAY_MINUTE,
    }
}

/// The identity keys of the tasks already reported. Keys are only ever
/// added.
pub struct NotifiedSet {
    keys: Vec<String>,
}

impl View for NotifiedSet {
    type V = Set<Seq<char>>;

    closed spec fn view(&self) -> Set<Seq<char>> {
        Set::new(|k: Seq<char>| exists|i: int| 0 <= i < self.keys@.len() && self.keys@[i]@ == k)
    }
}

impl NotifiedSet {
    /// No key is held twice.
    pub closed spec fn wf(&self) -> bool {
        forall|i: int, j: int|
            0 <= i < j < self.keys@.len() ==> self.keys@[i]@ != self.keys@[j]@
    }

    pub fn new() -> (r: NotifiedSet)
        ensures
            r.wf(),
            r@ == Set::<Seq<char>>::empty(),
    {
        let r = NotifiedSet { keys: Vec::new() };
        assert(r@ =~= Set::<Seq<char>>::empty());
        r
    }

    pub fn is_notified(&self, key: &String) -> (r: bool)
        ensures
            r == self@.contains(key@),
    {
        let mut i: usize = 0;
        while i < self.keys.len()
            invariant
                i <= self.keys@.len(),
                forall|j: int| 0 <= j < i ==> self.keys@[j]@ != key@,
            decreases self.keys.len() - i,
        {
            if self.keys[i] == *key {
                assert(self.keys@[i as int]@ == key@);
                return true;
            }
            i = i + 1;
        }
        assert(!self@.contains(key@));
        false
    }

    /// Records `key`; recording a key that is held already changes nothing.
    pub fn mark_notified(&mut self, key: String)
        requires
            old(self).wf(),
        ensures
            final(self).wf(),
            final(self)@ == old(self)@.insert(key@),
    {
        if !self.is_notified(&key) {
            let ghost k = key@;
            self.keys.push(key);
            assert(self.keys@[self.keys@.len() - 1]@ == k);
            assert forall|x: Seq<char>| self@.contains(x) <==> old(self)@.insert(k).contains(x) by {
                if old(self)@.contains(x) {
                    let i = choose|i: int| 0 <= i < old(self).keys@.len() && old(self).keys@[i]@ == x;
                    assert(self.keys@[i]@ == x);
                }
            }
            assert(self@ =~= old(self)@.insert(k));
        } else {
            assert(self@ =~= old(self)@.insert(key@));
        }
    }
}

/// A task is reported when it is due and its key has not been recorded.
pub open spec fn fires(notified: Set<Seq<char>>, t: TaskView, now: Moment) -> bool {
    due_at(t, now) && !notified.contains(key_of(t))
}

/// A cycle over the first `n` tasks, in order: the recorded keys after it,
/// and the positions of the tasks that it reported.
pub open spec fn cycle_upto(
    notified: Set<Seq<char>>,
    tasks: Seq<TaskView>,
    now: Moment,
    n: nat,
) -> (Set<Seq<char>>, Seq<int>)
    decreases n,
{
    if n == 0 {
        (notified, Seq::empty())
    } else {
        let prev = cycle_upto(notified, tasks, now, (n - 1) as nat);
        let t = tasks[n - 1];
        if fires(prev.0, t, now) {
            (prev.0.insert(key_of(t)), prev.1.push(n - 1))
        } else {
            prev
        }
    }
}

/// One polling cycle over all of `tasks`.
pub open spec fn cycle(notified: Set<Seq<char>>, tasks: Seq<TaskView>, now: Moment) -> (Set<
    Seq<char>,
>, Seq<int>) {
    cycle_upto(notified, tasks, now, tasks.len())
}

/// A cycle reports only due tasks whose key was not recorded before it, in
/// the order of the list, each under a key of its own; it records every key
/// it reports and forgets none.
pub proof fn lemma_cycle_reports_new_keys(
    notified: Set<Seq<char>>,
    tasks: Seq<TaskView>,
    now: Moment,
    n: nat,
)
    requires
        n <= tasks.len(),
    ensures
        ({
            let (after, reported) = cycle_upto(notified, tasks, now, n);
            &&& notified.subset_of(after)
            &&& forall|k: Seq<char>| #[trigger]
                after.contains(k) ==> notified.contains(k) || exists|i: int|
                    0 <= i < reported.len() && key_of(tasks[reported[i]]) == k
            &&& forall|i: int|
                0 <= i < reported.len() ==> {
                    &&& 0 <= #[trigger] reported[i] < n
                    &&& due_at(tasks[reported[i]], now)
                    &&& !notified.contains(key_of(tasks[reported[i]]))
                    &&& after.contains(key_of(tasks[reported[i]]))
                }
            &&& forall|i: int, j: int|
                0 <= i < j < reported.len() ==> reported[i] < reported[j] && key_of(
                    tasks[#[trigger] reported[i]],
                ) != key_of(tasks[#[trigger] reported[j]])
        }),
    decreases n,
{
    if n > 0 {
        lemma_cycle_reports_new_keys(notified, tasks, now, (n - 1) as nat);
        let prev = cycle_upto(notified, tasks, now, (n - 1) as nat);
        let t = tasks[n - 1];
        if fires(prev.0, t, now) {
            let cur = cycle_upto(notified, tasks, now, n);
            assert(cur.1.last() == n - 1);
            assert forall|k: Seq<char>| #[trigger]
                cur.0.contains(k) implies notified.contains(k) || exists|i: int|
                    0 <= i < cur.1.len() && key_of(tasks[cur.1[i]]) == k by {
                if k == key_of(t) {
                    assert(key_of(tasks[cur.1[cur.1.len() - 1]]) == k);
                } else if !notified.contains(k) {
                    let i = choose|i: int|
                        0 <= i < prev.1.len() && key_of(tasks[prev.1[i]]) == k;
                    assert(cur.1[i] == prev.1[i]);
                }
            }
        }
    }
}

/// Once a cycle has reported a task, the next cycle reports no task with
/// the same identity key, whatever the tasks and the moment.
pub proof fn lemma_reported_once(
    notified: Set<Seq<char>>,
    first: Seq<TaskView>,
    now1: Moment,
    second: Seq<TaskView>,
    now2: Moment,
)
    ensures
        ({
            let (after, reported1) = cycle(notified, first, now1);
            let (_, reported2) = cycle(after, second, now2);
            forall|i: int, j: int|
                0 <= i < reported1.len() && 0 <= j < reported2.len() ==> key_of(
                    second[#[trigger] reported2[j]],
                ) != key_of(first[#[trigger] reported1[i]])
        }),
{
    let (after, reported1) = cycle(notified, first, now1);
    lemma_cycle_reports_new_keys(notified, first, now1, first.len());
    lemma_cycle_reports_new_keys(after, second, now2, second.len());
}

/// Reports the tasks that are due at `now` and whose key is not in
/// `notified`, in list order, and records their keys. The result holds
/// their positions in `tasks`.
pub fn run_cycle(notified: &mut NotifiedSet, tasks: &Vec<Task>, now: &Moment) -> (reported: Vec<
    usize,
>)
    requires
        old(notified).wf(),
        now.wf(),
    ensures
        final(notified).wf(),
        final(notified)@ == cycle(old(notified)@, task_views(tasks@), *now).0,
        reported@.map_values(|i: usize| i as int) == cycle(
            old(notified)@,
            task_views(tasks@),
            *now,
        ).1,
{
    let ghost views = task_views(tasks@);
    let mut reported: Vec<usize> = Vec::new();
    let mut i: usize = 0;
    while i < tasks.len()
        invariant
            i <= tasks@.len(),
            views == task_views(tasks@),
            now.wf(),
            notified.wf(),
            notified@ == cycle_upto(old(notified)@, views, *now, i as nat).0,
            reported@.map_values(|k: usize| k as int) == cycle_upto(
                old(notified)@,
                views,
                *now,
                i as nat,
            ).1,
        decreases tasks.len() - i,
    {
        let task = &tasks[i];
        assert(views[i as int] == task@);
        if is_due(task, now) {
            let key = task.unique_key();
            if !notified.is_notified(&key) {
                notified.mark_notified(key);
                reported.push(i);
            }
        }
        assert(reported@.map_values(|k: usize| k as int) =~= cycle_upto(
            old(notified)@,
            views,
            *now,
            (i + 1) as nat,
        ).1);
        i = i + 1;
    }
    reported
}

} // verus!
