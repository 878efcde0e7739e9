use crate::action::strings_view;
use crate::job::{distinct_names, Job, JobView};
use crate::task::TaskView;
use crate::worker::{barrier_counts, outputs_of, share, AllocationError, StageBarrier, Worker, WorkerView};
use std::sync::Arc;
use vstd::prelude::*;

verus! {

/// The idle execution handles that jobs draw from.
pub struct Pool<R> {
    idle: Vec<R>,
}

impl<R> View for Pool<R> {
    type V = Seq<R>;

    closed spec fn view(&self) -> Seq<R> {
        self.idle@
    }
}

/// The handles that a list of workers gives back, in order.
pub open spec fn returned<R>(workers: Seq<WorkerView<R>>) -> Seq<R>
    decreases workers.len(),
{
    if workers.len() == 0 {
        Seq::empty()
    } else {
        returned(workers.drop_last()) + match workers.last().runner {
            Some(r) => seq![r],
            None => Seq::empty(),
        }
    }
}

/// The views of a list of workers.
pub open spec fn workers_view<R>(workers: Seq<Worker<R>>) -> Seq<WorkerView<R>> {
    workers.map_values(|w: Worker<R>| w@)
}

/// The output of a job: that of each worker in turn, each in the order in
/// which it completed its actions.
pub open spec fn job_output<R>(workers: Seq<WorkerView<R>>) -> Seq<Seq<char>>
    decreases workers.len(),
{
    if workers.len() == 0 {
        Seq::empty()
    } else {
        job_output(workers.drop_last()) + outputs_of(workers.last().completed)
    }
}

impl<R> Pool<R> {
    /// A pool that holds `handles`, all idle.
    pub fn new(handles: Vec<R>) -> (r: Self)
        ensures
            r@ == handles@,
    {
        Pool { idle: handles }
    }

    /// The number of idle handles.
    pub fn len(&self) -> (r: usize)
        ensures
            r == self@.len(),
    {
        self.idle.len()
    }

    /// Checks out `n` handles, where that many are idle; the pool is left as it
    /// was where they are not.
    pub fn allocate_runners(&mut self, n: usize) -> (r: Option<Vec<R>>)
        ensures
            old(self)@.len() < n ==> r is None && final(self)@ == old(self)@,
            old(self)@.len() >= n ==> (r matches Some(v) && v@ == old(self)@.skip(
                old(self)@.len() - n,
            ) && final(self)@ == old(self)@.take(old(self)@.len() - n)),
    {
        if self.idle.len() < n {
            None
        } else {
            let at = self.idle.len() - n;
            let v = self.idle.split_off(at);
            assert(v@ =~= old(self)@.skip(old(self)@.len() - n));
            assert(self.idle@ =~= old(self)@.take(old(self)@.len() - n));
            Some(v)
        }
    }

    /// Takes back the handle of each worker, in order, into the idle pool.
    pub fn release(&mut self, workers: Vec<Worker<R>>) -> (r: usize)
        ensures
            final(self)@ == old(self)@ + returned(workers_view(workers@)),
            r == returned(workers_view(workers@)).len(),
    {
        let ghost all = workers_view(workers@);
        let mut workers = workers;
        let total = workers.len();
        let mut count: usize = 0;
        let ghost mut done: int = 0;
        assert(all.take(0) =~= Seq::<WorkerView<R>>::empty());
        assert(self.idle@ =~= old(self)@ + returned(all.take(0)));
        loop
            invariant
                0 <= done <= all.len(),
                workers@.len() == all.len() - done,
                forall|k: int| 0 <= k < workers@.len() ==> (#[trigger] workers@[k])@ == all[done + k],
                self.idle@ == old(self)@ + returned(all.take(done)),
                count == returned(all.take(done)).len(),
                count <= done,
                all.len() == total,
            ensures
                self.idle@ == old(self)@ + returned(all),
                count == returned(all).len(),
            decreases all.len() - done,
        {
            if workers.len() == 0 {
                assert(all.take(done) =~= all);
                break;
            }
            let ghost rest = workers@;
            let mut w = workers.remove(0);
            assert(forall|k: int| 0 <= k < workers@.len() ==> workers@[k] == rest[k + 1]);
            assert(w@ == all[done]);
            assert(all.take(done + 1).drop_last() =~= all.take(done));
            assert(all.take(done + 1).last() == all[done]);
            match w.take_runner() {
                Some(h) => {
                    self.idle.push(h);
                    count = count + 1;
                    assert(self.idle@ =~= old(self)@ + returned(all.take(done + 1)));
                },
                None => {
                    assert(self.idle@ =~= old(self)@ + returned(all.take(done + 1)));
                },
            }
            proof {
                done = done + 1;
            }
        }
        count
    }
}

/// Pairs each handle with one task queue of `job`, in order, and builds the
/// worker that drains it, sharing the job's barriers.
pub fn schedule_tasks<R>(job: Job, runners: Vec<R>, barriers: Arc<Vec<StageBarrier>>) -> (r: Result<
    Vec<Worker<R>>,
    AllocationError,
>)
    ensures
        runners@.len() != job@.queues.len() ==> r == Err::<Vec<Worker<R>>, AllocationError>(
            AllocationError::CountMismatch,
        ),
        runners@.len() == job@.queues.len() ==> (r matches Ok(ws) && ws@.len() == runners@.len()
            && forall|i: int|
            0 <= i < ws@.len() ==> (#[trigger] ws@[i])@ == (WorkerView {
                env: job@.env,
                runner: Some(runners@[i]),
                scheduled: job@.queues[i].1,
                completed: Seq::<TaskView>::empty(),
                barriers: barrier_counts((*barriers)@),
                next_barrier: 0,
            })),
{
    if runners.len() != job.num_workers() {
        return Err(AllocationError::CountMismatch);
    }
    let names = job.get_task_names();
    let ghost jv: JobView = job@;
    let ghost rv = runners@;
    let mut job = job;
    let mut runners = runners;
    let mut workers: Vec<Worker<R>> = Vec::new();
    let mut i: usize = 0;
    let n = names.len();
    assert(strings_view(names@).len() == names@.len());
    assert(crate::job::queue_names(jv.queues).len() == jv.queues.len());
    assert(jv.queues.skip(0) =~= jv.queues);
    assert(rv.skip(0) =~= rv);
    while i < n
        invariant
            n == jv.queues.len(),
            n == rv.len(),
            i <= n,
            strings_view(names@) == crate::job::queue_names(jv.queues),
            names@.len() == n,
            distinct_names(jv.queues),
            job@.env == jv.env,
            job@.queues == jv.queues.skip(i as int),
            runners@ == rv.skip(i as int),
            workers@.len() == i,
            forall|k: int|
                0 <= k < i ==> (#[trigger] workers@[k])@ == (WorkerView {
                    env: jv.env,
                    runner: Some(rv[k]),
                    scheduled: jv.queues[k].1,
                    completed: Seq::<TaskView>::empty(),
                    barriers: barrier_counts((*barriers)@),
                    next_barrier: 0,
                }),
        decreases n - i,
    {
        let ghost before = job@.queues;
        let runner = runners.remove(0);
        assert(runners@ =~= rv.skip(i + 1));
        assert(strings_view(names@)[i as int] == names@[i as int]@);
        assert(crate::job::queue_names(jv.queues)[i as int] == jv.queues[i as int].0);
        assert(names@[i as int]@ == jv.queues[i as int].0);
        assert(before[0] == jv.queues[i as int]);
        let w = match Worker::new(runner, names[i].as_str(), &mut job, share(&barriers)) {
            Ok(w) => w,
            Err(e) => {
                assert(crate::job::has_queue(before, names@[i as int]@));
                return Err(e);
            },
        };
        proof {
            let j = choose|j: int|
                0 <= j < before.len() && #[trigger] before[j].0 == names@[i as int]@
                    && job@.queues == before.remove(j) && w@ == (WorkerView {
                    env: jv.env,
                    runner: Some(rv[i as int]),
                    scheduled: before[j].1,
                    completed: Seq::empty(),
                    barriers: barrier_counts((*barriers)@),
                    next_barrier: 0,
                });
            if j != 0 {
                assert(before[j] == jv.queues[i + j]);
                assert(jv.queues[i + j].0 != jv.queues[i as int].0);
            }
            assert(before.remove(0) =~= jv.queues.skip(i + 1));
        }
        workers.push(w);
        i += 1;
    }
    Ok(workers)
}

/// The output of all workers, worker after worker.
pub fn collect_output<R>(workers: &Vec<Worker<R>>) -> (r: Vec<String>)
    ensures
        strings_view(r@) == job_output(workers_view(workers@)),
{
    let ghost all = workers_view(workers@);
    let mut out: Vec<String> = Vec::new();
    let mut i: usize = 0;
    assert(all.take(0) =~= Seq::<WorkerView<R>>::empty());
    assert(strings_view(out@) =~= Seq::<Seq<char>>::empty());
    while i < workers.len()
        invariant
            i <= workers@.len(),
            all == workers_view(workers@),
            strings_view(out@) == job_output(all.take(i as int)),
        decreases workers.len() - i,
    {
        assert(all.take(i + 1).drop_last() =~= all.take(i as int));
        assert(all.take(i + 1).last() == workers@[i as int]@);
        let mut lines = workers[i].collect_output();
        let ghost before = strings_view(out@);
        let ghost added = strings_view(lines@);
        out.append(&mut lines);
        assert(strings_view(out@) =~= before + added);
        i += 1;
    }
    assert(all.take(i as int) =~= all);
    out
}

/// Checking out `n` handles and giving back those of the workers built on them,
/// in the order of placement, leaves the pool as it was: each handle comes
/// back exactly once.
pub proof fn lemma_handles_return_once<R>(pool: Seq<R>, n: nat, workers: Seq<WorkerView<R>>)
    requires
        n <= pool.len(),
        workers.len() == n,
        forall|i: int| 0 <= i < n ==> (#[trigger] workers[i]).runner == Some(pool[pool.len() - n + i]),
    ensures
        pool.take(pool.len() - n) + returned(workers) == pool,
{
    lemma_returned_all(workers);
    let k = pool.len() - n;
    assert(returned(workers) =~= pool.skip(k)) by {
        assert forall|i: int| 0 <= i < n implies returned(workers)[i] == pool.skip(k)[i] by {
            assert(workers[i].runner == Some(pool[k + i]));
        }
    }
    assert(pool.take(k) + pool.skip(k) =~= pool);
}

proof fn lemma_returned_all<R>(workers: Seq<WorkerView<R>>)
    requires
        forall|i: int| 0 <= i < workers.len() ==> (#[trigger] workers[i]).runner is Some,
    ensures
        returned(workers).len() == workers.len(),
        forall|i: int| 0 <= i < workers.len() ==> Some(#[trigger] returned(workers)[i]) == workers[i].runner,
    decreases workers.len(),
{
    if workers.len() > 0 {
        let prev = workers.drop_last();
        assert forall|i: int| 0 <= i < prev.len() implies (#[trigger] prev[i]).runner is Some by {
            assert(prev[i] == workers[i]);
        }
        lemma_returned_all(prev);
        assert forall|i: int| 0 <= i < workers.len() implies Some(#[trigger] returned(workers)[i])
            == workers[i].runner by {
            if i < prev.len() {
                assert(prev[i] == workers[i]);
            }
        }
    }
}

proof fn lemma_job_output_prefix<R>(workers: Seq<WorkerView<R>>, i: int)
    requires
        0 <= i <= workers.len(),
    ensures
        job_output(workers.take(i)).len() <= job_output(workers).len(),
        job_output(workers).take(job_output(workers.take(i)).len() as int) == job_output(workers.take(i)),
    decreases workers.len() - i,
{
    if i == workers.len() {
        assert(workers.take(i) =~= workers);
        assert(job_output(workers).take(job_output(workers).len() as int) =~= job_output(workers));
    } else {
        lemma_job_output_prefix(workers, i + 1);
        assert(workers.take(i + 1).drop_last() =~= workers.take(i));
        let a = job_output(workers.take(i));
        let b = job_output(workers.take(i + 1));
        assert(b == a + outputs_of(workers.take(i + 1).last().completed));
        assert(job_output(workers).take(a.len() as int) =~= b.take(a.len() as int));
        assert(b.take(a.len() as int) =~= a);
    }
}

/// The output of each worker stands whole in the job's output, after that of
/// the workers before it, whatever became of the other workers: a worker that
/// stopped on a failed action takes nothing away from the others.
pub proof fn lemma_worker_output_kept<R>(workers: Seq<WorkerView<R>>, i: int)
    requires
        0 <= i < workers.len(),
    ensures
        ({
            let start = job_output(workers.take(i)).len() as int;
            let own = outputs_of(workers[i].completed);
            start + own.len() <= job_output(workers).len() && job_output(workers).subrange(
                start,
                start + own.len(),
            ) == own
        }),
{
    lemma_job_output_prefix(workers, i + 1);
    assert(workers.take(i + 1).drop_last() =~= workers.take(i));
    assert(workers.take(i + 1).last() == workers[i]);
    let a = job_output(workers.take(i));
    let own = outputs_of(workers[i].completed);
    let b = job_output(workers.take(i + 1));
    assert(b == a + own);
    assert(job_output(workers).subrange(a.len() as int, (a.len() + own.len()) as int) =~= b.subrange(
        a.len() as int,
        (a.len() + own.len()) as int,
    ));
    assert(b.subrange(a.len() as int, (a.len() + own.len()) as int) =~= own);
}

} // verus!
