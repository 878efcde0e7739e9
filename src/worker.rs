use crate::action::{strings_view, Action, ActionView};
use crate::job::{has_queue, pairs_view, Job};
use crate::task::{Task, TaskQueue, TaskView};
use std::sync::Arc;
use std::sync::Barrier;
use vstd::prelude::*;

verus! {

#[verifier::external_type_specification]
#[verifier::external_body]
pub struct ExBarrier(std::sync::Barrier);

/// Relies on `std::sync::Barrier::new`: a barrier that releases its waiters
/// once `n` of them have arrived.
#[verifier::external_body]
fn new_barrier(n: usize) -> Barrier {
    Barrier::new(n)
}

/// Relies on `std::sync::Barrier::wait`: blocks until all participants of the
/// barrier have arrived.
#[verifier::external_body]
fn wait_at(b: &Barrier) {
    b.wait();
}

/// Relies on `Arc::clone`: a new handle to the same shared value.
#[verifier::external_body]
pub(crate) fn share<T>(a: &Arc<T>) -> (r: Arc<T>)
    ensures
        *r == **a,
{
    a.clone()
}

/// A synchronisation point of a job, with its participant count.
pub struct StageBarrier {
    participants: usize,
    barrier: Barrier,
}

impl StageBarrier {
    /// A barrier for `participants` waiters.
    pub fn new(participants: usize) -> (r: Self)
        ensures
            r.participants() == participants,
    {
        StageBarrier { participants, barrier: new_barrier(participants) }
    }

    /// The number of waiters this barrier releases together.
    pub closed spec fn participants(&self) -> nat {
        self.participants as nat
    }
}

/// The participant counts of a sequence of barriers.
pub open spec fn barrier_counts(b: Seq<StageBarrier>) -> Seq<nat> {
    b.map_values(|s: StageBarrier| s.participants())
}

/// Why a worker could not wait at a barrier.
#[derive(Debug, PartialEq, Eq, Structural)]
pub enum SyncError {
    /// The worker met more barriers than the job has.
    NoSuchBarrier,
}

/// Why a worker could not be built.
#[derive(Debug, PartialEq, Eq, Structural)]
pub enum AllocationError {
    /// The job has no task queue under the given worker name.
    NoTasks,
    /// The number of handles differs from the number of task queues.
    CountMismatch,
}

/// Why an action failed on its execution handle.
#[derive(Debug, PartialEq, Eq, Structural)]
pub enum ExecutionError {
    /// The handle could not run the command, or the remote side failed.
    Failed,
}

/// The mathematical value of a [`Worker`].
pub struct WorkerView<R> {
    pub env: Seq<(Seq<char>, Seq<char>)>,
    pub runner: Option<R>,
    pub scheduled: Seq<TaskView>,
    pub completed: Seq<TaskView>,
    pub barriers: Seq<nat>,
    pub next_barrier: nat,
}

/// The output lines of a list of completed tasks, in order.
pub open spec fn outputs_of(tasks: Seq<TaskView>) -> Seq<Seq<char>>
    decreases tasks.len(),
{
    if tasks.len() == 0 {
        Seq::empty()
    } else {
        outputs_of(tasks.drop_last()) + match tasks.last() {
            TaskView::Action(a) => match a.output {
                Some(o) => o,
                None => Seq::empty(),
            },
            TaskView::Barrier(_) => Seq::empty(),
        }
    }
}

/// An output line of an action, prefixed with its worker and its name.
pub open spec fn labelled(a: ActionView, line: Seq<char>) -> Seq<char> {
    "["@ + a.runs_on + "]["@ + a.name + "]"@ + line
}

/// One execution handle bound to one task queue for the duration of a job,
/// with the job's barriers and the output of the actions it completed.
pub struct Worker<R> {
    env: Vec<(String, String)>,
    runner: Option<R>,
    scheduled_tasks: TaskQueue,
    completed_tasks: TaskQueue,
    barriers: Arc<Vec<StageBarrier>>,
    next_barrier: usize,
}

impl<R> View for Worker<R> {
    type V = WorkerView<R>;

    closed spec fn view(&self) -> WorkerView<R> {
        WorkerView {
            env: pairs_view(self.env@),
            runner: self.runner,
            scheduled: self.scheduled_tasks@,
            completed: self.completed_tasks@,
            barriers: barrier_counts((*self.barriers)@),
            next_barrier: self.next_barrier as nat,
        }
    }
}

/// Copies a list of string pairs.
fn clone_pairs(v: &Vec<(String, String)>) -> (r: Vec<(String, String)>)
    ensures
        pairs_view(r@) == pairs_view(v@),
{
    let mut out: Vec<(String, String)> = Vec::new();
    let mut i: usize = 0;
    while i < v.len()
        invariant
            i <= v@.len(),
            out@.len() == i,
            forall|k: int| 0 <= k < i ==> (#[trigger] out@[k]).0@ == v@[k].0@ && out@[k].1@ == v@[k].1@,
        decreases v.len() - i,
    {
        out.push((v[i].0.clone(), v[i].1.clone()));
        i += 1;
    }
    assert(pairs_view(out@) =~= pairs_view(v@));
    out
}

impl<R> Worker<R> {
    /// Binds `runner` to the task queue of worker `runner_name`, which it takes
    /// out of `job`.
    pub fn new(runner: R, runner_name: &str, job: &mut Job, barriers: Arc<Vec<StageBarrier>>) -> (r:
        Result<Self, AllocationError>)
        ensures
            final(job)@.env == old(job)@.env,
            final(job)@.stages == old(job)@.stages,
            match r {
                Ok(w) => exists|i: int|
                    0 <= i < old(job)@.queues.len() && #[trigger] old(job)@.queues[i].0
                        == runner_name@ && final(job)@.queues == old(job)@.queues.remove(i)
                        && w@ == (WorkerView {
                        env: old(job)@.env,
                        runner: Some(runner),
                        scheduled: old(job)@.queues[i].1,
                        completed: Seq::empty(),
                        barriers: barrier_counts((*barriers)@),
                        next_barrier: 0,
                    }),
                Err(e) => e == AllocationError::NoTasks && !has_queue(old(job)@.queues, runner_name@)
                    && final(job)@ == old(job)@,
            },
    {
        let env = clone_pairs(job.env());
        match job.get_worker_tasks(runner_name) {
            Some(tasks) => Ok(
                Worker {
                    env,
                    runner: Some(runner),
                    scheduled_tasks: tasks,
                    completed_tasks: TaskQueue::new(),
                    barriers,
                    next_barrier: 0,
                },
            ),
            None => Err(AllocationError::NoTasks),
        }
    }

    /// Removes the next scheduled task, if any.
    pub fn pop_task(&mut self) -> (r: Option<Task>)
        ensures
            old(self)@.scheduled.len() == 0 ==> r is None && final(self)@ == old(self)@,
            old(self)@.scheduled.len() > 0 ==> (r matches Some(t) && t@ == old(self)@.scheduled[0]
                && final(self)@ == (WorkerView {
                scheduled: old(self)@.scheduled.drop_first(),
                ..old(self)@
            })),
    {
        self.scheduled_tasks.pop_front()
    }

    /// Records a completed action.
    pub fn push_task(&mut self, task: Action)
        ensures
            final(self)@ == (WorkerView {
                completed: old(self)@.completed.push(TaskView::Action(task@)),
                ..old(self)@
            }),
    {
        self.completed_tasks.push_back(Task::Action(task));
    }

    /// Waits at the next barrier of the job until all its participants have
    /// arrived, then moves on to the barrier after it.
    pub fn wait_others(&mut self) -> (r: Result<(), SyncError>)
        ensures
            old(self)@.next_barrier < old(self)@.barriers.len() ==> r is Ok && final(self)@ == (
            WorkerView { next_barrier: old(self)@.next_barrier + 1, ..old(self)@ }),
            old(self)@.next_barrier >= old(self)@.barriers.len() ==> r == Err::<(), SyncError>(
                SyncError::NoSuchBarrier,
            ) && final(self)@ == old(self)@,
    {
        if self.next_barrier < self.barriers.len() {
            wait_at(&self.barriers[self.next_barrier].barrier);
            self.next_barrier = self.next_barrier + 1;
            Ok(())
        } else {
            Err(SyncError::NoSuchBarrier)
        }
    }

    /// Labels each output line of `action` with its worker and its name.
    pub fn label_output(action: &Action, lines: &Vec<String>) -> (r: Vec<String>)
        ensures
            strings_view(r@) == strings_view(lines@).map_values(
                |l: Seq<char>| labelled(action@, l),
            ),
    {
        let mut out: Vec<String> = Vec::new();
        let mut i: usize = 0;
        while i < lines.len()
            invariant
                i <= lines@.len(),
                out@.len() == i,
                forall|k: int| 0 <= k < i ==> (#[trigger] out@[k])@ == labelled(action@, lines@[k]@),
            decreases lines.len() - i,
        {
            let s = String::from_str("[").concat(action.runs_on()).concat("][").concat(
                action.name(),
            ).concat("]").concat(lines[i].as_str());
            out.push(s);
            i += 1;
        }
        assert(strings_view(out@) =~= strings_view(lines@).map_values(
            |l: Seq<char>| labelled(action@, l),
        ));
        out
    }

    /// Records what running `action` on the handle gave: its output lines,
    /// labelled, where it succeeded; the worker then stops where it failed, and
    /// keeps what it completed before.
    pub fn finish_action(&mut self, action: Action, outcome: Result<Vec<String>, ExecutionError>) -> (r:
        Result<(), ExecutionError>)
        ensures
            match outcome {
                Ok(lines) => r is Ok && final(self)@ == (WorkerView {
                    completed: old(self)@.completed.push(
                        TaskView::Action(
                            ActionView {
                                output: Some(
                                    strings_view(lines@).map_values(
                                        |l: Seq<char>| labelled(action@, l),
                                    ),
                                ),
                                ..action@
                            },
                        ),
                    ),
                    ..old(self)@
                }),
                Err(e) => r == Err::<(), ExecutionError>(e) && final(self)@ == old(self)@,
            },
    {
        match outcome {
            Ok(lines) => {
                let mut action = action;
                let labelled_lines = Self::label_output(&action, &lines);
                action.set_output(labelled_lines);
                self.push_task(action);
                Ok(())
            },
            Err(e) => Err(e),
        }
    }

    /// Takes the execution handle back from the worker.
    pub fn take_runner(&mut self) -> (r: Option<R>)
        ensures
            r == old(self)@.runner,
            final(self)@ == (WorkerView { runner: None, ..old(self)@ }),
    {
        self.runner.take()
    }

    /// The execution handle bound to the worker, if it still holds one.
    pub fn runner(&self) -> (r: Option<&R>)
        ensures
            match r {
                Some(x) => self@.runner == Some(*x),
                None => self@.runner is None,
            },
    {
        self.runner.as_ref()
    }

    /// The environment that the worker's commands run with.
    pub fn env(&self) -> (r: &Vec<(String, String)>)
        ensures
            pairs_view(r@) == self@.env,
    {
        &self.env
    }

    /// The output lines of the completed actions, in completion order.
    pub fn collect_output(&self) -> (r: Vec<String>)
        ensures
            strings_view(r@) == outputs_of(self@.completed),
    {
        let tasks = self.completed_tasks.tasks();
        let ghost tv = self@.completed;
        let mut out: Vec<String> = Vec::new();
        let mut i: usize = 0;
        assert(tv.take(0) =~= Seq::<TaskView>::empty());
        assert(strings_view(out@) =~= Seq::<Seq<char>>::empty());
        while i < tasks.len()
            invariant
                i <= tasks@.len(),
                tv == crate::task::tasks_view(tasks@),
                strings_view(out@) == outputs_of(tv.take(i as int)),
            decreases tasks.len() - i,
        {
            assert(tv.take(i + 1).drop_last() =~= tv.take(i as int));
            assert(tv.take(i + 1).last() == tasks@[i as int]@);
            match &tasks[i] {
                Task::Action(a) => {
                    match a.output() {
                        Some(lines) => {
                            let ghost before = strings_view(out@);
                            let mut j: usize = 0;
                            while j < lines.len()
                                invariant
                                    j <= lines@.len(),
                                    strings_view(out@) == before + strings_view(lines@).take(j as int),
                                decreases lines.len() - j,
                            {
                                let ghost prev = out@;
                                out.push(lines[j].clone());
                                assert(strings_view(out@) =~= strings_view(prev).push(lines@[j as int]@));
                                assert(strings_view(lines@).take(j + 1) =~= strings_view(lines@).take(j as int).push(lines@[j as int]@));
                                j += 1;
                            }
                            assert(strings_view(lines@).take(j as int) =~= strings_view(lines@));
                        },
                        None => {
                            assert(strings_view(out@) =~= strings_view(out@) + Seq::<Seq<char>>::empty());
                        },
                    }
                },
                Task::Barrier(_) => {
                    assert(strings_view(out@) =~= strings_view(out@) + Seq::<Seq<char>>::empty());
                },
            }
            i += 1;
        }
        assert(tv.take(i as int) =~= tv);
        out
    }
}

/// Builds one barrier per stage of a job, each with that stage's participant
/// count, to be shared by all its workers.
pub fn create_barriers(barrier_participants: &Vec<usize>) -> (r: Arc<Vec<StageBarrier>>)
    ensures
        barrier_counts((*r)@) == crate::job::counts_view(barrier_participants@),
{
    let mut barriers: Vec<StageBarrier> = Vec::new();
    let mut i: usize = 0;
    while i < barrier_participants.len()
        invariant
            i <= barrier_participants@.len(),
            barriers@.len() == i,
            forall|k: int| 0 <= k < i ==> (#[trigger] barriers@[k]).participants() == barrier_participants@[k],
        decreases barrier_participants.len() - i,
    {
        barriers.push(StageBarrier::new(barrier_participants[i]));
        i += 1;
    }
    assert(barrier_counts(barriers@) =~= crate::job::counts_view(barrier_participants@));
    Arc::new(barriers)
}

} // verus!
