//! The download task queue with its concurrency limit.
//!
//! The queue keeps tasks in arrival order. At most `max_concurrency` tasks
//! may be active (parsing or downloading) when a new one is promoted.

use vstd::prelude::*;
use crate::error::AppError;
use crate::models::{
    DownloadTask, TaskStatus, now_unix_millis, spec_status_debug_name, spec_status_name,
    valid_transition,
};
use crate::text::{concat_str, str_eq};

verus! {

/// Task queue managing download tasks with concurrency control.
pub struct TaskQueue {
    tasks: Vec<DownloadTask>,
    max_concurrency: u8,
}

/// A task that counts towards the concurrency limit.
pub open spec fn is_active(t: DownloadTask) -> bool {
    t.status == TaskStatus::Parsing || t.status == TaskStatus::Downloading
}

/// The number of tasks in `s` that satisfy `is_active`.
pub open spec fn count_active(s: Seq<DownloadTask>) -> nat
    decreases s.len(),
{
    if s.len() == 0 {
        0
    } else {
        count_active(s.drop_last()) + if is_active(s.last()) { 1nat } else { 0nat }
    }
}

/// The number of downloading tasks in `s`.
pub open spec fn count_downloading(s: Seq<DownloadTask>) -> nat
    decreases s.len(),
{
    if s.len() == 0 {
        0
    } else {
        count_downloading(s.drop_last()) + if s.last().status == TaskStatus::Downloading { 1nat } else { 0nat }
    }
}

/// The index of the first task of `s` with identifier `id`.
pub open spec fn first_with_id(s: Seq<DownloadTask>, id: Seq<char>) -> Option<int> {
    if exists|i: int| 0 <= i < s.len() && s[i].id@ == id {
        Some(choose|i: int| 0 <= i < s.len() && s[i].id@ == id && forall|j: int| 0 <= j < i ==> s[j].id@ != id)
    } else {
        None
    }
}

/// `i` is the first position of a task of `s` with identifier `id`.
pub open spec fn is_first_with_id(s: Seq<DownloadTask>, id: Seq<char>, i: int) -> bool {
    0 <= i < s.len() && s[i].id@ == id && forall|j: int| 0 <= j < i ==> s[j].id@ != id
}

/// `i` is the first position of a waiting task of `s`.
pub open spec fn is_first_waiting(s: Seq<DownloadTask>, i: int) -> bool {
    0 <= i < s.len() && s[i].status == TaskStatus::Waiting
        && forall|j: int| 0 <= j < i ==> s[j].status != TaskStatus::Waiting
}

proof fn lemma_least_with_id(s: Seq<DownloadTask>, id: Seq<char>, i: int)
    requires
        0 <= i < s.len(),
        s[i].id@ == id,
    ensures
        exists|k: int| is_first_with_id(s, id, k),
    decreases i,
{
    if exists|j: int| 0 <= j < i && s[j].id@ == id {
        let j = choose|j: int| 0 <= j < i && s[j].id@ == id;
        lemma_least_with_id(s, id, j);
    } else {
        assert(is_first_with_id(s, id, i));
    }
}

/// The first task with an identifier, when there is one, is well placed.
pub proof fn lemma_first_with_id(s: Seq<DownloadTask>, id: Seq<char>)
    ensures
        first_with_id(s, id) matches Some(i) ==> is_first_with_id(s, id, i),
        first_with_id(s, id) is None ==> forall|j: int| 0 <= j < s.len() ==> s[j].id@ != id,
{
    if exists|i: int| 0 <= i < s.len() && s[i].id@ == id {
        let i = choose|i: int| 0 <= i < s.len() && s[i].id@ == id;
        lemma_least_with_id(s, id, i);
    }
}

/// `s` with the task at `i` given a new status.
pub open spec fn with_status(s: Seq<DownloadTask>, i: int, st: TaskStatus) -> Seq<DownloadTask> {
    s.update(i, DownloadTask { status: st, ..s[i] })
}

/// Counting over a sequence with one element changed.
proof fn lemma_count_active_update(s: Seq<DownloadTask>, i: int, t: DownloadTask)
    requires
        0 <= i < s.len(),
    ensures
        count_active(s.update(i, t)) + (if is_active(s[i]) { 1int } else { 0int })
            == count_active(s) + (if is_active(t) { 1int } else { 0int }),
    decreases s.len(),
{
    if i == s.len() - 1 {
        assert(s.update(i, t).drop_last() =~= s.drop_last());
    } else {
        assert(s.update(i, t).drop_last() =~= s.drop_last().update(i, t));
        lemma_count_active_update(s.drop_last(), i, t);
    }
}

proof fn lemma_count_active_push(s: Seq<DownloadTask>, t: DownloadTask)
    ensures
        count_active(s.push(t)) == count_active(s) + if is_active(t) { 1nat } else { 0nat },
{
    assert(s.push(t).drop_last() =~= s);
}

proof fn lemma_count_downloading_push(s: Seq<DownloadTask>, t: DownloadTask)
    ensures
        count_downloading(s.push(t)) == count_downloading(s) + if t.status == TaskStatus::Downloading { 1nat } else { 0nat },
{
    assert(s.push(t).drop_last() =~= s);
}

fn task_id_is(t: &DownloadTask, id: &str) -> (r: bool)
    ensures
        r == (t.id@ == id@),
{
    str_eq(t.id.as_str(), id)
}

impl TaskQueue {
    /// The tasks, in arrival order.
    pub closed spec fn tasks_view(&self) -> Seq<DownloadTask> {
        self.tasks@
    }

    /// The concurrency limit.
    pub closed spec fn max_view(&self) -> u8 {
        self.max_concurrency
    }

    /// Create a new task queue with the given concurrency limit.
    pub fn new(max_concurrency: u8) -> (r: Self)
        ensures
            r.tasks_view() == Seq::<DownloadTask>::empty(),
            r.max_view() == max_concurrency,
    {
        TaskQueue { tasks: Vec::new(), max_concurrency }
    }

    /// Add a task to the end of the queue.
    pub fn enqueue(&mut self, task: DownloadTask)
        ensures
            final(self).tasks_view() == old(self).tasks_view().push(task),
            final(self).max_view() == old(self).max_view(),
    {
        self.tasks.push(task);
    }

    /// The number of currently downloading tasks.
    pub fn active_count(&self) -> (r: usize)
        ensures
            r == count_downloading(self.tasks_view()),
    {
        let mut n: usize = 0;
        let mut i: usize = 0;
        while i < self.tasks.len()
            invariant
                i <= self.tasks@.len(),
                n == count_downloading(self.tasks@.take(i as int)),
                n <= i,
            decreases self.tasks.len() - i,
        {
            proof {
                assert(self.tasks@.take(i + 1) =~= self.tasks@.take(i as int).push(self.tasks@[i as int]));
                lemma_count_downloading_push(self.tasks@.take(i as int), self.tasks@[i as int]);
            }
            if self.tasks[i].status == TaskStatus::Downloading {
                n = n + 1;
            }
            i += 1;
        }
        assert(self.tasks@.take(self.tasks@.len() as int) =~= self.tasks@);
        n
    }

    fn count_parsing_or_downloading(&self) -> (r: usize)
        ensures
            r == count_active(self.tasks_view()),
    {
        let mut n: usize = 0;
        let mut i: usize = 0;
        while i < self.tasks.len()
            invariant
                i <= self.tasks@.len(),
                n == count_active(self.tasks@.take(i as int)),
                n <= i,
            decreases self.tasks.len() - i,
        {
            proof {
                assert(self.tasks@.take(i + 1) =~= self.tasks@.take(i as int).push(self.tasks@[i as int]));
                lemma_count_active_push(self.tasks@.take(i as int), self.tasks@[i as int]);
            }
            if self.tasks[i].status == TaskStatus::Downloading || self.tasks[i].status == TaskStatus::Parsing {
                n = n + 1;
            }
            i += 1;
        }
        assert(self.tasks@.take(self.tasks@.len() as int) =~= self.tasks@);
        n
    }

    fn position_of(&self, id: &str) -> (r: Option<usize>)
        ensures
            match r {
                Some(i) => is_first_with_id(self.tasks_view(), id@, i as int),
                None => forall|j: int| 0 <= j < self.tasks_view().len() ==> self.tasks_view()[j].id@ != id@,
            },
    {
        let mut i: usize = 0;
        while i < self.tasks.len()
            invariant
                i <= self.tasks@.len(),
                forall|j: int| 0 <= j < i ==> self.tasks@[j].id@ != id@,
            decreases self.tasks.len() - i,
        {
            if task_id_is(&self.tasks[i], id) {
                return Some(i);
            }
            i += 1;
        }
        None
    }

    /// Promote the first waiting task to parsing if fewer than
    /// `max_concurrency` tasks are parsing or downloading; returns its id.
    pub fn promote_next(&mut self) -> (r: Option<String>)
        ensures
            final(self).max_view() == old(self).max_view(),
            count_active(old(self).tasks_view()) >= old(self).max_view() ==> r is None
                && final(self).tasks_view() == old(self).tasks_view(),
            count_active(old(self).tasks_view()) < old(self).max_view() ==> match r {
                Some(id) => exists|i: int| is_first_waiting(old(self).tasks_view(), i)
                    && id@ == old(self).tasks_view()[i].id@
                    && final(self).tasks_view() == with_status(old(self).tasks_view(), i, TaskStatus::Parsing),
                None => (forall|i: int| 0 <= i < old(self).tasks_view().len()
                    ==> old(self).tasks_view()[i].status != TaskStatus::Waiting)
                    && final(self).tasks_view() == old(self).tasks_view(),
            },
            (exists|i: int| 0 <= i < old(self).tasks_view().len()
                && old(self).tasks_view()[i].status == TaskStatus::Waiting) ==> (r is None <==>
                old(self).tasks_view().filter(|t: DownloadTask|
                    t.status == TaskStatus::Parsing || t.status == TaskStatus::Downloading).len()
                    >= old(self).max_view()),
    {
        proof {
            active_tasks_are_parsing_or_downloading(self.tasks@);
        }
        let active = self.count_parsing_or_downloading();
        if active >= self.max_concurrency as usize {
            return None;
        }
        let mut i: usize = 0;
        while i < self.tasks.len()
            invariant
                i <= self.tasks@.len(),
                self.tasks@ == old(self).tasks@,
                self.max_concurrency == old(self).max_concurrency,
                count_active(old(self).tasks@) < old(self).max_concurrency,
                forall|j: int| 0 <= j < i ==> self.tasks@[j].status != TaskStatus::Waiting,
            decreases self.tasks.len() - i,
        {
            if self.tasks[i].status == TaskStatus::Waiting {
                let mut t = self.tasks[i].duplicate();
                t.status = TaskStatus::Parsing;
                let id = t.id.clone();
                self.tasks.set(i, t);
                assert(self.tasks@ =~= with_status(old(self).tasks@, i as int, TaskStatus::Parsing));
                assert(is_first_waiting(old(self).tasks@, i as int));
                proof {
                    active_tasks_are_parsing_or_downloading(old(self).tasks@);
                }
                return Some(id);
            }
            i += 1;
        }
        None
    }

    /// Update a task's status, checked against the state machine, at time
    /// `now` (milliseconds since the Unix epoch).
    pub fn update_status_at(&mut self, id: &str, new_status: TaskStatus, now: i64) -> (r: Result<(), AppError>)
        ensures
            final(self).max_view() == old(self).max_view(),
            match first_with_id(old(self).tasks_view(), id@) {
                None => {
                    &&& final(self).tasks_view() == old(self).tasks_view()
                    &&& r matches Err(AppError::InvalidInput { message }) && message@ == "Task not found: "@ + id@
                },
                Some(i) => {
                    let t = old(self).tasks_view()[i];
                    if valid_transition(t.status, new_status) {
                        r is Ok && final(self).tasks_view() == old(self).tasks_view().update(
                            i,
                            DownloadTask { status: new_status, updated_at: now, ..t },
                        )
                    } else {
                        &&& final(self).tasks_view() == old(self).tasks_view()
                        &&& r matches Err(AppError::InvalidTransition { message, from, to })
                            && message@ == "Cannot transition from "@ + spec_status_debug_name(t.status)
                                + " to "@ + spec_status_debug_name(new_status)
                            && from@ == spec_status_name(t.status) && to@ == spec_status_name(new_status)
                    }
                },
            },
    {
        let idx = match self.position_of(id) {
            Some(i) => i,
            None => {
                assert(first_with_id(self.tasks@, id@) is None);
                return Err(AppError::InvalidInput { message: concat_str("Task not found: ", id) });
            },
        };
        assert(first_with_id(self.tasks@, id@) == Some(idx as int)) by {
            assert(0 <= idx < self.tasks@.len() && self.tasks@[idx as int].id@ == id@);
            let k = choose|k: int| 0 <= k < self.tasks@.len() && self.tasks@[k].id@ == id@
                && forall|j: int| 0 <= j < k ==> self.tasks@[j].id@ != id@;
            if k < idx {
            } else if k > idx {
            }
        }
        let check = self.tasks[idx].status.can_transition_to(&new_status);
        match check {
            Err(e) => Err(e),
            Ok(()) => {
                let mut t = self.tasks[idx].duplicate();
                t.status = new_status;
                t.updated_at = now;
                self.tasks.set(idx, t);
                Ok(())
            },
        }
    }

    /// Update a task's status with state machine validation, stamping the
    /// current time.
    pub fn update_status(&mut self, id: &str, new_status: TaskStatus) -> (r: Result<(), AppError>)
        ensures
            final(self).max_view() == old(self).max_view(),
            final(self).tasks_view().len() == old(self).tasks_view().len(),
            r is Ok <==> match first_with_id(old(self).tasks_view(), id@) {
                None => false,
                Some(i) => valid_transition(old(self).tasks_view()[i].status, new_status),
            },
            r is Ok ==> {
                let i = first_with_id(old(self).tasks_view(), id@)->Some_0;
                final(self).tasks_view() == old(self).tasks_view().update(
                    i,
                    DownloadTask {
                        status: new_status,
                        updated_at: final(self).tasks_view()[i].updated_at,
                        ..old(self).tasks_view()[i]
                    },
                )
            },
            r is Err ==> final(self).tasks_view() == old(self).tasks_view(),
            match first_with_id(old(self).tasks_view(), id@) {
                None => r matches Err(AppError::InvalidInput { message }) && message@ == "Task not found: "@ + id@,
                Some(i) => {
                    let t = old(self).tasks_view()[i];
                    !valid_transition(t.status, new_status) ==> (
                        r matches Err(AppError::InvalidTransition { message, from, to })
                        && message@ == "Cannot transition from "@ + spec_status_debug_name(t.status)
                            + " to "@ + spec_status_debug_name(new_status)
                        && from@ == spec_status_name(t.status) && to@ == spec_status_name(new_status))
                },
            },
    {
        proof {
            lemma_first_with_id(self.tasks@, id@);
        }
        let now = now_unix_millis();
        self.update_status_at(id, new_status, now)
    }

    /// A snapshot of all tasks, in arrival order.
    pub fn get_all(&self) -> (r: Vec<DownloadTask>)
        ensures
            r@ == self.tasks_view(),
    {
        let mut out: Vec<DownloadTask> = Vec::new();
        let mut i: usize = 0;
        while i < self.tasks.len()
            invariant
                i <= self.tasks@.len(),
                out@ =~= self.tasks@.take(i as int),
            decreases self.tasks.len() - i,
        {
            out.push(self.tasks[i].duplicate());
            i += 1;
        }
        assert(self.tasks@.take(self.tasks@.len() as int) =~= self.tasks@);
        out
    }

    /// The first task with the given id, if any.
    pub fn get_task(&self, id: &str) -> (r: Option<DownloadTask>)
        ensures
            match first_with_id(self.tasks_view(), id@) {
                Some(i) => r == Some(self.tasks_view()[i]),
                None => r is None,
            },
    {
        match self.position_of(id) {
            Some(i) => {
                proof {
                    let k = choose|k: int| 0 <= k < self.tasks@.len() && self.tasks@[k].id@ == id@
                        && forall|j: int| 0 <= j < k ==> self.tasks@[j].id@ != id@;
                    assert(k == i);
                }
                Some(self.tasks[i].duplicate())
            },
            None => None,
        }
    }

    /// Remove the first task with the given id from the queue.
    pub fn remove_task(&mut self, id: &str) -> (r: Option<DownloadTask>)
        ensures
            final(self).max_view() == old(self).max_view(),
            match first_with_id(old(self).tasks_view(), id@) {
                Some(i) => r == Some(old(self).tasks_view()[i])
                    && final(self).tasks_view() == old(self).tasks_view().remove(i),
                None => r is None && final(self).tasks_view() == old(self).tasks_view(),
            },
    {
        match self.position_of(id) {
            Some(i) => {
                proof {
                    let k = choose|k: int| 0 <= k < self.tasks@.len() && self.tasks@[k].id@ == id@
                        && forall|j: int| 0 <= j < k ==> self.tasks@[j].id@ != id@;
                    assert(k == i);
                }
                Some(self.tasks.remove(i))
            },
            None => None,
        }
    }

    /// Update the concurrency limit, clamped to `1..=8`.
    pub fn set_max_concurrency(&mut self, max: u8)
        ensures
            final(self).tasks_view() == old(self).tasks_view(),
            final(self).max_view() == if max < 1 { 1 } else if max > 8 { 8 } else { max },
    {
        self.max_concurrency = if max < 1 { 1 } else if max > 8 { 8 } else { max };
    }
}

/// Promoting a task never takes the number of parsing or downloading tasks
/// past the concurrency limit: from a queue within the limit, the queue after
/// `promote_next` is within the limit too.
pub proof fn promote_keeps_concurrency_limit(before: Seq<DownloadTask>, max: u8, i: int)
    requires
        count_active(before) < max,
        is_first_waiting(before, i),
    ensures
        count_active(with_status(before, i, TaskStatus::Parsing)) == count_active(before) + 1,
        count_active(with_status(before, i, TaskStatus::Parsing)) <= max,
{
    lemma_count_active_update(before, i, DownloadTask { status: TaskStatus::Parsing, ..before[i] });
}

/// The tasks that count towards the concurrency limit are exactly the
/// parsing and the downloading ones: paused, waiting and finished tasks do
/// not count.
pub proof fn active_tasks_are_parsing_or_downloading(s: Seq<DownloadTask>)
    ensures
        count_active(s) == s.filter(|t: DownloadTask|
            t.status == TaskStatus::Parsing || t.status == TaskStatus::Downloading).len(),
    decreases s.len(),
{
    reveal(Seq::filter);
    if s.len() > 0 {
        active_tasks_are_parsing_or_downloading(s.drop_last());
    }
}

} // verus!
