use demikernel_ci::action::Action;
use demikernel_ci::job::Job;
use demikernel_ci::runner::process_output;
use demikernel_ci::scheduler::{collect_output, schedule_tasks, Pool};
use demikernel_ci::task::Task;
use demikernel_ci::worker::{create_barriers, AllocationError, ExecutionError, SyncError, Worker};

const SCENARIO: &str = "job:\n  - action: A\n    runs-on: w1\n    commands: [\"echo hi\"]\n  - barrier: true\n  - action: B\n    runs-on: w1\n    commands: [\"echo bye\"]\n";

/// Drains a worker, answering each action with the output `answer` gives.
fn drain<F: Fn(&Action) -> Result<Vec<String>, ExecutionError>>(w: &mut Worker<u32>, answer: F) -> usize {
    let mut stages = 0;
    while let Some(t) = w.pop_task() {
        match t {
            Task::Action(a) => {
                let outcome = answer(&a);
                if w.finish_action(a, outcome).is_err() {
                    break;
                }
            },
            Task::Barrier(_) => {
                w.wait_others().unwrap();
                stages += 1;
            },
        }
    }
    stages
}

#[test]
fn single_worker_runs_both_stages_in_order() {
    let job = Job::from_text(SCENARIO, Vec::new()).unwrap();
    let barriers = create_barriers(job.barrier_participants());
    let mut pool = Pool::new(vec![7u32]);
    let handles = pool.allocate_runners(job.num_workers()).unwrap();
    assert_eq!(pool.len(), 0);
    let mut workers = schedule_tasks(job, handles, barriers).unwrap();
    let stages = drain(&mut workers[0], |a| {
        let text = if a.name() == "A" { "hi\n" } else { "bye\n" };
        Ok(process_output("stdout", text))
    });
    assert_eq!(stages, 1);
    assert_eq!(collect_output(&workers), vec!["[w1][A][stdout] hi", "[w1][B][stdout] bye"]);
    assert_eq!(pool.release(workers), 1);
    assert_eq!(pool.len(), 1);
}

#[test]
fn failed_action_leaves_other_workers_output() {
    let text = "job:\n  - action: a\n    runs-on: w1\n    commands: [\"x\"]\n  - action: b\n    runs-on: w2\n    commands: [\"y\"]\n  - action: c\n    runs-on: w2\n    commands: [\"z\"]\n";
    let job = Job::from_text(text, Vec::new()).unwrap();
    let barriers = create_barriers(job.barrier_participants());
    let mut pool = Pool::new(vec![1u32, 2, 3]);
    let handles = pool.allocate_runners(job.num_workers()).unwrap();
    assert_eq!(handles, vec![2, 3]);
    let mut workers = schedule_tasks(job, handles, barriers).unwrap();
    assert_eq!(workers[0].runner(), Some(&2));
    drain(&mut workers[0], |a| Ok(vec![format!("{} ok", a.name())]));
    drain(&mut workers[1], |_| Err(ExecutionError::Failed));
    assert_eq!(collect_output(&workers), vec!["[w1][a]a ok"]);
    assert_eq!(pool.release(workers), 2);
    assert_eq!(pool.allocate_runners(3), Some(vec![1, 2, 3]));
}

#[test]
fn allocation_waits_for_enough_handles() {
    let mut pool = Pool::new(vec![1u32]);
    assert_eq!(pool.allocate_runners(2), None);
    assert_eq!(pool.len(), 1);
    assert_eq!(pool.allocate_runners(0), Some(Vec::new()));
    assert_eq!(pool.len(), 1);
}

#[test]
fn placement_needs_one_handle_per_queue() {
    let job = Job::from_text(SCENARIO, Vec::new()).unwrap();
    let barriers = create_barriers(job.barrier_participants());
    let r = schedule_tasks(job, vec![1u32, 2], barriers);
    assert!(matches!(r, Err(AllocationError::CountMismatch)));
}

#[test]
fn worker_without_queue_is_refused() {
    let mut job = Job::from_text(SCENARIO, Vec::new()).unwrap();
    let barriers = create_barriers(job.barrier_participants());
    let r = Worker::new(1u32, "w9", &mut job, barriers);
    assert!(matches!(r, Err(AllocationError::NoTasks)));
    assert_eq!(job.num_workers(), 1);
}

#[test]
fn worker_takes_its_queue_and_gives_back_its_handle() {
    let env = vec![("DEMIKERNEL_T".to_string(), "x".to_string())];
    let mut job = Job::from_text(SCENARIO, env.clone()).unwrap();
    let barriers = create_barriers(job.barrier_participants());
    let mut w = Worker::new(5u32, "w1", &mut job, barriers).unwrap();
    assert_eq!(job.num_workers(), 0);
    assert_eq!(w.env(), &env);
    assert_eq!(w.take_runner(), Some(5));
    assert_eq!(w.take_runner(), None);
    assert!(w.collect_output().is_empty());
}

#[test]
fn waiting_past_the_last_barrier_fails() {
    let mut job = Job::from_text(SCENARIO, Vec::new()).unwrap();
    let barriers = create_barriers(job.barrier_participants());
    let mut w = Worker::new(1u32, "w1", &mut job, barriers).unwrap();
    assert_eq!(w.wait_others(), Ok(()));
    assert_eq!(w.wait_others(), Err(SyncError::NoSuchBarrier));
}

#[test]
fn output_is_labelled_with_worker_and_action() {
    let a = Action::new("build", vec!["make".to_string()], "w2");
    let lines = Worker::<u32>::label_output(&a, &vec!["[stdout] done".to_string()]);
    assert_eq!(lines, vec!["[w2][build][stdout] done"]);
    let mut b = Action::new("t", vec!["x".to_string()], "w");
    b.set_output(vec!["o".to_string()]);
    assert_eq!(b.output(), &Some(vec!["o".to_string()]));
}
