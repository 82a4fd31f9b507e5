//! The scheduler's decisions: which task starts next, when to wait for a running task,
//! and when the run is over. The caller performs each action and reports each task's
//! end; the dispatcher never lets more than `concurrency` tasks run at once.

use vstd::prelude::*;

verus! {

#[derive(Debug, Clone, Copy, PartialEq, Eq, Structural)]
pub enum TaskState {
    Pending,
    Running,
    Succeeded,
    Failed,
}

/// What the caller does next.
#[derive(Debug, Clone, Copy, PartialEq, Eq, Structural)]
pub enum Action {
    /// Start the task with this index in the manifest.
    Start(usize),
    /// Wait until some running task ends, then report it.
    Wait,
    /// Every task has ended.
    Done,
}

#[derive(Debug, Clone, Copy, PartialEq, Eq, Structural)]
pub enum DispatchError {
    /// No task could ever start.
    ZeroConcurrency,
}

/// How many entries of `s` are `x`.
pub open spec fn count_state(s: Seq<TaskState>, x: TaskState) -> nat
    decreases s.len(),
{
    if s.len() == 0 {
        0
    } else {
        count_state(s.drop_last(), x) + if s.last() == x {
            1nat
        } else {
            0nat
        }
    }
}

proof fn lemma_count_update(s: Seq<TaskState>, i: int, y: TaskState, x: TaskState)
    requires
        0 <= i < s.len(),
    ensures
        count_state(s.update(i, y), x) + (if s[i] == x {
            1int
        } else {
            0int
        }) == count_state(s, x) + (if y == x {
            1int
        } else {
            0int
        }),
    decreases s.len(),
{
    let t = s.update(i, y);
    if i == s.len() - 1 {
        assert(t.drop_last() =~= s.drop_last());
    } else {
        assert(t.drop_last() =~= s.drop_last().update(i, y));
        lemma_count_update(s.drop_last(), i, y, x);
    }
}

proof fn lemma_count_zero(s: Seq<TaskState>, x: TaskState)
    ensures
        count_state(s, x) == 0 <==> forall|i: int| 0 <= i < s.len() ==> s[i] != x,
    decreases s.len(),
{
    if s.len() > 0 {
        lemma_count_zero(s.drop_last(), x);
        if count_state(s, x) == 0 {
            assert forall|i: int| 0 <= i < s.len() implies s[i] != x by {
                if i < s.len() - 1 {
                    assert(s[i] == s.drop_last()[i]);
                }
            }
        } else if s.last() != x {
            let i = choose|i: int| 0 <= i < s.drop_last().len() && s.drop_last()[i] == x;
            assert(s[i] == x);
        }
    }
}

proof fn lemma_count_le_len(s: Seq<TaskState>, x: TaskState)
    ensures
        count_state(s, x) <= s.len(),
    decreases s.len(),
{
    if s.len() > 0 {
        lemma_count_le_len(s.drop_last(), x);
    }
}

proof fn lemma_count_ended(s: Seq<TaskState>)
    requires
        forall|i: int|
            0 <= i < s.len() ==> s[i] == TaskState::Succeeded || s[i] == TaskState::Failed,
    ensures
        count_state(s, TaskState::Succeeded) + count_state(s, TaskState::Failed) == s.len(),
    decreases s.len(),
{
    if s.len() > 0 {
        assert forall|i: int| 0 <= i < s.drop_last().len() implies s.drop_last()[i]
            == TaskState::Succeeded || s.drop_last()[i] == TaskState::Failed by {
            assert(s.drop_last()[i] == s[i]);
        }
        lemma_count_ended(s.drop_last());
        assert(s.last() == s[s.len() - 1]);
    }
}

proof fn lemma_count_all(n: nat, x: TaskState)
    ensures
        count_state(Seq::new(n, |i: int| x), x) == n,
    decreases n,
{
    if n > 0 {
        assert(Seq::new(n, |i: int| x).drop_last() =~= Seq::new((n - 1) as nat, |i: int| x));
        lemma_count_all((n - 1) as nat, x);
    }
}

/// Hands out the tasks of a manifest in order, at most `concurrency` at a time.
pub struct Dispatcher {
    concurrency: usize,
    next: usize,
    in_flight: usize,
    succeeded: usize,
    failed: Vec<usize>,
    states: Vec<TaskState>,
}

impl Dispatcher {
    /// The state of each task.
    pub closed spec fn states(&self) -> Seq<TaskState> {
        self.states@
    }

    pub closed spec fn concurrency(&self) -> nat {
        self.concurrency as nat
    }

    /// How many tasks have started.
    pub closed spec fn dispatched(&self) -> nat {
        self.next as nat
    }

    /// The tasks that failed, in the order they ended.
    pub closed spec fn failures(&self) -> Seq<usize> {
        self.failed@
    }

    pub closed spec fn wf(&self) -> bool {
        &&& self.concurrency > 0
        &&& self.next <= self.states@.len()
        &&& self.states@.len() <= usize::MAX
        &&& forall|i: int| 0 <= i < self.next ==> self.states@[i] != TaskState::Pending
        &&& forall|i: int| self.next <= i < self.states@.len() ==> self.states@[i]
            == TaskState::Pending
        &&& self.in_flight == count_state(self.states@, TaskState::Running)
        &&& self.in_flight <= self.concurrency
        &&& self.succeeded == count_state(self.states@, TaskState::Succeeded)
        &&& self.failed@.len() == count_state(self.states@, TaskState::Failed)
        &&& forall|k: int|
            0 <= k < self.failed@.len() ==> self.failed@[k] < self.states@.len()
                && self.states@[self.failed@[k] as int] == TaskState::Failed
    }

    /// A dispatcher for `total` tasks, all pending; none when `concurrency` is zero.
    pub fn new(total: usize, concurrency: usize) -> (r: Result<Dispatcher, DispatchError>)
        ensures
            concurrency == 0 <==> r is Err,
            r matches Ok(d) ==> d.wf() && d.concurrency() == concurrency && d.dispatched() == 0
                && d.states() == Seq::new(total as nat, |i: int| TaskState::Pending)
                && d.failures().len() == 0,
    {
        if concurrency == 0 {
            return Err(DispatchError::ZeroConcurrency);
        }
        let mut states: Vec<TaskState> = Vec::new();
        let mut i: usize = 0;
        while i < total
            invariant
                i <= total,
                states@ == Seq::new(i as nat, |k: int| TaskState::Pending),
            decreases total - i,
        {
            states.push(TaskState::Pending);
            i = i + 1;
            assert(states@ =~= Seq::new(i as nat, |k: int| TaskState::Pending));
        }
        proof {
            lemma_count_all(total as nat, TaskState::Pending);
            lemma_count_zero(states@, TaskState::Running);
            lemma_count_zero(states@, TaskState::Succeeded);
            lemma_count_zero(states@, TaskState::Failed);
        }
        Ok(
            Dispatcher {
                concurrency,
                next: 0,
                in_flight: 0,
                succeeded: 0,
                failed: Vec::new(),
                states,
            },
        )
    }

    /// Decides what happens next: start the next pending task while a slot is free, wait
    /// while tasks run, and finish once every task has ended.
    pub fn next_action(&mut self) -> (a: Action)
        requires
            old(self).wf(),
        ensures
            final(self).wf(),
            final(self).concurrency() == old(self).concurrency(),
            final(self).failures() == old(self).failures(),
            match a {
                Action::Start(i) => {
                    &&& i == old(self).dispatched()
                    &&& i < old(self).states().len()
                    &&& count_state(old(self).states(), TaskState::Running) < old(
                        self,
                    ).concurrency()
                    &&& final(self).states() == old(self).states().update(
                        i as int,
                        TaskState::Running,
                    )
                    &&& final(self).dispatched() == i + 1
                },
                Action::Wait => {
                    &&& *final(self) == *old(self)
                    &&& count_state(old(self).states(), TaskState::Running) > 0
                    &&& (old(self).dispatched() == old(self).states().len() || count_state(
                        old(self).states(),
                        TaskState::Running,
                    ) == old(self).concurrency())
                },
                Action::Done => {
                    &&& *final(self) == *old(self)
                    &&& forall|i: int|
                        0 <= i < old(self).states().len() ==> old(self).states()[i]
                            == TaskState::Succeeded || old(self).states()[i]
                            == TaskState::Failed
                },
            },
    {
        if self.next < self.states.len() && self.in_flight < self.concurrency {
            let i = self.next;
            proof {
                lemma_count_update(self.states@, i as int, TaskState::Running, TaskState::Running);
                lemma_count_update(
                    self.states@,
                    i as int,
                    TaskState::Running,
                    TaskState::Succeeded,
                );
                lemma_count_update(self.states@, i as int, TaskState::Running, TaskState::Failed);
            }
            self.states.set(i, TaskState::Running);
            self.next = i + 1;
            self.in_flight = self.in_flight + 1;
            Action::Start(i)
        } else if self.in_flight > 0 {
            Action::Wait
        } else {
            proof {
                lemma_count_zero(self.states@, TaskState::Running);
            }
            Action::Done
        }
    }

    /// Records the end of running task `task`.
    pub fn complete(&mut self, task: usize, ok: bool)
        requires
            old(self).wf(),
            task < old(self).states().len(),
            old(self).states()[task as int] == TaskState::Running,
        ensures
            final(self).wf(),
            final(self).concurrency() == old(self).concurrency(),
            final(self).dispatched() == old(self).dispatched(),
            final(self).states() == old(self).states().update(
                task as int,
                if ok {
                    TaskState::Succeeded
                } else {
                    TaskState::Failed
                },
            ),
            final(self).failures() == if ok {
                old(self).failures()
            } else {
                old(self).failures().push(task)
            },
    {
        let s = if ok {
            TaskState::Succeeded
        } else {
            TaskState::Failed
        };
        proof {
            lemma_count_update(self.states@, task as int, s, TaskState::Running);
            lemma_count_update(self.states@, task as int, s, TaskState::Succeeded);
            lemma_count_update(self.states@, task as int, s, TaskState::Failed);
        }
        self.states.set(task, s);
        proof {
            lemma_count_le_len(self.states@, TaskState::Succeeded);
        }
        self.in_flight = self.in_flight - 1;
        if ok {
            self.succeeded = self.succeeded + 1;
        } else {
            self.failed.push(task);
        }
    }

    /// Whether task `task` is running, so that its end may be reported.
    pub fn is_running(&self, task: usize) -> (r: bool)
        ensures
            r == (task < self.states().len() && self.states()[task as int] == TaskState::Running),
    {
        task < self.states.len() && self.states[task] == TaskState::Running
    }

    /// How many tasks succeeded.
    pub fn succeeded(&self) -> (r: usize)
        requires
            self.wf(),
        ensures
            r == count_state(self.states(), TaskState::Succeeded),
    {
        self.succeeded
    }

    /// The tasks that failed, in the order they ended.
    pub fn failed(&self) -> (r: &Vec<usize>)
        requires
            self.wf(),
        ensures
            r@ == self.failures(),
            r@.len() == count_state(self.states(), TaskState::Failed),
    {
        &self.failed
    }
}

/// At every moment no more tasks run than the concurrency allows.
pub proof fn lemma_running_bounded(d: Dispatcher)
    requires
        d.wf(),
    ensures
        count_state(d.states(), TaskState::Running) <= d.concurrency(),
{
}

/// Once every task has ended, the run has a result for each of them: the successes and
/// the failures add up to the number of tasks, and each failure names a task that failed.
pub proof fn lemma_every_task_reported(d: Dispatcher)
    requires
        d.wf(),
        forall|i: int|
            0 <= i < d.states().len() ==> d.states()[i] == TaskState::Succeeded || d.states()[i]
                == TaskState::Failed,
    ensures
        count_state(d.states(), TaskState::Succeeded) + d.failures().len() == d.states().len(),
        forall|k: int|
            0 <= k < d.failures().len() ==> d.failures()[k] < d.states().len()
                && d.states()[d.failures()[k] as int] == TaskState::Failed,
{
    lemma_count_ended(d.states());
}

} // verus!
