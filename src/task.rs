use crate::action::{Action, ActionView};
use std::collections::VecDeque;
use vstd::prelude::*;

verus! {

/// The mathematical value of a [`Task`].
pub enum TaskView {
    Action(ActionView),
    Barrier(nat),
}

/// The unit scheduled onto a worker's queue.
#[derive(Debug)]
pub enum Task {
    /// Commands to run on the worker.
    Action(Action),
    /// A synchronisation point with the given number of participants.
    Barrier(usize),
}

impl View for Task {
    type V = TaskView;

    open spec fn view(&self) -> TaskView {
        match self {
            Task::Action(a) => TaskView::Action(a@),
            Task::Barrier(n) => TaskView::Barrier(*n as nat),
        }
    }
}

/// The views of a list of tasks.
pub open spec fn tasks_view(v: Seq<Task>) -> Seq<TaskView> {
    v.map_values(|t: Task| t@)
}

/// A FIFO sequence of tasks that belongs to one worker.
pub struct TaskQueue {
    tasks: VecDeque<Task>,
}

impl View for TaskQueue {
    type V = Seq<TaskView>;

    closed spec fn view(&self) -> Seq<TaskView> {
        tasks_view(self.tasks@)
    }
}

impl TaskQueue {
    /// Creates an empty queue.
    pub fn new() -> (r: Self)
        ensures
            r@ == Seq::<TaskView>::empty(),
    {
        let r = TaskQueue { tasks: VecDeque::new() };
        assert(r@ =~= Seq::<TaskView>::empty());
        r
    }

    /// Appends a task at the back of the queue.
    pub fn push_back(&mut self, job_entry: Task)
        ensures
            final(self)@ == old(self)@.push(job_entry@),
    {
        self.tasks.push_back(job_entry);
        assert(final(self)@ =~= old(self)@.push(job_entry@));
    }

    /// Removes the task at the front of the queue, if any.
    pub fn pop_front(&mut self) -> (r: Option<Task>)
        ensures
            old(self)@.len() == 0 ==> r is None && final(self)@ == old(self)@,
            old(self)@.len() > 0 ==> (r matches Some(t) && t@ == old(self)@[0] && final(self)@
                == old(self)@.drop_first()),
    {
        let r = self.tasks.pop_front();
        proof {
            if old(self)@.len() > 0 {
                assert(final(self)@ =~= old(self)@.drop_first());
            } else {
                assert(final(self)@ =~= old(self)@);
            }
        }
        r
    }

    /// Returns the number of tasks in the queue.
    pub fn len(&self) -> (r: usize)
        ensures
            r == self@.len(),
    {
        self.tasks.len()
    }

    /// Returns the tasks of the queue, front first.
    pub fn tasks(&self) -> (r: &VecDeque<Task>)
        ensures
            tasks_view(r@) == self@,
    {
        &self.tasks
    }
}

} // verus!
