use demikernel_ci::job::{Job, ParseError};
use demikernel_ci::task::{Task, TaskQueue};

fn compile(text: &str) -> Result<Job, ParseError> {
    Job::from_text(text, Vec::new())
}

fn action_names(q: &TaskQueue) -> Vec<String> {
    q.tasks()
        .iter()
        .map(|t| match t {
            Task::Action(a) => a.name().to_string(),
            Task::Barrier(n) => format!("barrier:{}", n),
        })
        .collect()
}

#[test]
fn actions_only_give_one_queue_per_worker_in_source_order() {
    let text = "job:\n  - action: a1\n    runs-on: w1\n    commands: [\"x\"]\n  - action: b1\n    runs-on: w2\n    commands: [\"y\"]\n  - action: a2\n    runs-on: w1\n    commands: [\"z\"]\n";
    let mut job = compile(text).unwrap();
    assert_eq!(job.num_workers(), 2);
    assert_eq!(job.get_task_names(), vec!["w1".to_string(), "w2".to_string()]);
    assert!(job.barrier_participants().is_empty());
    let w1 = job.get_worker_tasks("w1").unwrap();
    assert_eq!(action_names(&w1), vec!["a1", "a2"]);
    let w2 = job.get_worker_tasks("w2").unwrap();
    assert_eq!(action_names(&w2), vec!["b1"]);
    assert_eq!(job.num_workers(), 0);
    assert!(job.get_worker_tasks("w1").is_none());
}

#[test]
fn barrier_after_distinct_actions_counts_them() {
    let text = "job:\n  - action: a\n    runs-on: w1\n    commands: [\"x\"]\n  - action: b\n    runs-on: w2\n    commands: [\"y\"]\n  - action: c\n    runs-on: w3\n    commands: [\"z\"]\n  - barrier: true\n";
    let mut job = compile(text).unwrap();
    assert_eq!(job.barrier_participants(), &vec![3usize]);
    assert_eq!(job.num_workers(), 3);
    for name in ["w1", "w2", "w3"] {
        let q = job.get_worker_tasks(name).unwrap();
        assert!(matches!(q.tasks().back(), Some(Task::Barrier(3))));
        assert_eq!(q.len(), 2);
    }
}

#[test]
fn barrier_reaches_only_queues_that_exist() {
    let text = "job:\n  - action: a\n    runs-on: w1\n    commands: [\"x\"]\n  - barrier: {}\n  - action: b\n    runs-on: w2\n    commands: [\"y\"]\n  - barrier: 1\n";
    let mut job = compile(text).unwrap();
    assert_eq!(job.barrier_participants(), &vec![1usize, 1]);
    let w1 = job.get_worker_tasks("w1").unwrap();
    assert_eq!(action_names(&w1), vec!["a", "barrier:1", "barrier:1"]);
    let w2 = job.get_worker_tasks("w2").unwrap();
    assert_eq!(action_names(&w2), vec!["b", "barrier:1"]);
}

#[test]
fn compiling_twice_gives_the_same_queues() {
    let text = "job:\n  - action: a\n    runs-on: w1\n    commands: [\"x\", \"y\"]\n  - barrier: true\n  - action: b\n    runs-on: w1\n    commands: [\"z\"]\n";
    let env = vec![("DEMIKERNEL_T".to_string(), "r".to_string())];
    let mut first = Job::from_text(text, env.clone()).unwrap();
    let mut second = Job::from_text(text, env).unwrap();
    assert_eq!(first.get_task_names(), second.get_task_names());
    assert_eq!(first.barrier_participants(), second.barrier_participants());
    assert_eq!(first.env(), second.env());
    let q1 = first.get_worker_tasks("w1").unwrap();
    let q2 = second.get_worker_tasks("w1").unwrap();
    assert_eq!(action_names(&q1), action_names(&q2));
}

#[test]
fn single_worker_with_barrier_scenario() {
    let text = "job:\n  - action: A\n    runs-on: w1\n    commands: [\"echo hi\"]\n  - barrier: true\n  - action: B\n    runs-on: w1\n    commands: [\"echo bye\"]\n";
    let mut job = compile(text).unwrap();
    assert_eq!(job.barrier_participants(), &vec![1usize]);
    let q = job.get_worker_tasks("w1").unwrap();
    assert_eq!(action_names(&q), vec!["A", "barrier:1", "B"]);
    match q.tasks().front() {
        Some(Task::Action(a)) => {
            assert_eq!(a.commands(), &vec!["echo hi".to_string()]);
            assert_eq!(a.runs_on(), "w1");
            assert!(a.output().is_none());
        },
        _ => panic!("expected an action"),
    }
}

#[test]
fn empty_command_list_is_rejected() {
    let text = "job:\n  - action: a\n    runs-on: w1\n    commands: []\n";
    assert_eq!(compile(text).err(), Some(ParseError::MalformedAction));
}

#[test]
fn missing_job_list_is_rejected() {
    assert_eq!(compile("other: 1\n").err(), Some(ParseError::MissingJobList));
    assert_eq!(compile("").err(), Some(ParseError::MissingJobList));
    assert_eq!(compile("job: 3\n").err(), Some(ParseError::MissingJobList));
}

#[test]
fn invalid_yaml_is_rejected() {
    assert_eq!(compile("job: [\n").err(), Some(ParseError::InvalidYaml));
}

#[test]
fn malformed_actions_are_rejected() {
    let no_runs_on = "job:\n  - action: a\n    commands: [\"x\"]\n";
    assert_eq!(compile(no_runs_on).err(), Some(ParseError::MalformedAction));
    let no_commands = "job:\n  - action: a\n    runs-on: w1\n";
    assert_eq!(compile(no_commands).err(), Some(ParseError::MalformedAction));
    let scalar_commands = "job:\n  - action: a\n    runs-on: w1\n    commands: x\n";
    assert_eq!(compile(scalar_commands).err(), Some(ParseError::MalformedAction));
    let number_command = "job:\n  - action: a\n    runs-on: w1\n    commands: [\"x\", 3]\n";
    assert_eq!(compile(number_command).err(), Some(ParseError::MalformedAction));
    let list_name = "job:\n  - action: [a]\n    runs-on: w1\n    commands: [\"x\"]\n";
    assert_eq!(compile(list_name).err(), Some(ParseError::MalformedAction));
}

#[test]
fn unrecognised_entries_are_skipped() {
    let text = "job:\n  - note: hello\n  - plain\n  - action: a\n    runs-on: w1\n    commands: [\"x\"]\n";
    let mut job = compile(text).unwrap();
    assert_eq!(job.num_workers(), 1);
    let q = job.get_worker_tasks("w1").unwrap();
    assert_eq!(action_names(&q), vec!["a"]);
}

#[test]
fn environment_is_kept() {
    let env = vec![("DEMIKERNEL_TARGET".to_string(), "release".to_string())];
    let job = Job::from_text("job: []\n", env.clone()).unwrap();
    assert_eq!(job.env(), &env);
    assert_eq!(job.num_workers(), 0);
}
