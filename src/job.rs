use crate::action::{strings_view, Action, ActionView};
use crate::document::{
    as_list, as_str, get, hash_of, list_of, load_documents, lookup, member, str_of,
    yaml_documents, Node,
};
use crate::task::{tasks_view, Task, TaskQueue, TaskView};
use vstd::prelude::*;

verus! {

/// Why a job specification was refused.
#[derive(Debug, PartialEq, Eq, Structural)]
pub enum ParseError {
    /// The text is not valid YAML.
    InvalidYaml,
    /// The first document has no `job` list.
    MissingJobList,
    /// An action entry lacks its name, its `runs-on` target or a non-empty
    /// list of string commands.
    MalformedAction,
}

/// What one entry of the `job` list stands for.
pub enum EntryKind {
    Act(ActionView),
    Barrier,
    Skip,
    Invalid,
}

/// The string scalar held by `n`, or the empty string.
pub open spec fn scalar(n: Node) -> Seq<char> {
    match n {
        Node::Str(s) => s@,
        _ => Seq::empty(),
    }
}

/// Whether every item is a string scalar.
pub open spec fn all_strings(items: Seq<Node>) -> bool {
    forall|i: int| 0 <= i < items.len() ==> (#[trigger] str_of(items[i])) is Some
}

/// Classifies an entry of the `job` list.
pub open spec fn classify(entry: Node) -> EntryKind {
    match hash_of(entry) {
        None => EntryKind::Skip,
        Some(h) => match lookup(h, "action"@) {
            Some(a) => match (str_of(a), lookup(h, "runs-on"@), lookup(h, "commands"@)) {
                (Some(name), Some(r), Some(c)) => match (str_of(r), list_of(c)) {
                    (Some(runs_on), Some(items)) => if items.len() > 0 && all_strings(items) {
                        EntryKind::Act(
                            ActionView {
                                name,
                                commands: items.map_values(|n: Node| scalar(n)),
                                runs_on,
                                output: None,
                            },
                        )
                    } else {
                        EntryKind::Invalid
                    },
                    _ => EntryKind::Invalid,
                },
                _ => EntryKind::Invalid,
            },
            None => if lookup(h, "barrier"@) is Some {
                EntryKind::Barrier
            } else {
                EntryKind::Skip
            },
        },
    }
}

/// The tasks that a list of entries stands for, in order, or `None` where one
/// entry is invalid. Barriers carry no participant count yet.
pub open spec fn parse_entries(entries: Seq<Node>) -> Option<Seq<TaskView>>
    decreases entries.len(),
{
    if entries.len() == 0 {
        Some(Seq::empty())
    } else {
        match parse_entries(entries.drop_last()) {
            None => None,
            Some(p) => match classify(entries.last()) {
                EntryKind::Act(a) => Some(p.push(TaskView::Action(a))),
                EntryKind::Barrier => Some(p.push(TaskView::Barrier(0))),
                EntryKind::Skip => Some(p),
                EntryKind::Invalid => None,
            },
        }
    }
}

/// The `job` list of the first document.
pub open spec fn job_list(docs: Seq<Node>) -> Option<Seq<Node>> {
    if docs.len() == 0 {
        None
    } else {
        match member(docs[0], "job"@) {
            Some(j) => list_of(j),
            None => None,
        }
    }
}

/// The tasks that a list of YAML documents specifies.
pub open spec fn parse_documents(docs: Seq<Node>) -> Result<Seq<TaskView>, ParseError> {
    match job_list(docs) {
        None => Err(ParseError::MissingJobList),
        Some(l) => match parse_entries(l) {
            Some(t) => Ok(t),
            None => Err(ParseError::MalformedAction),
        },
    }
}

proof fn lemma_parse_entries_invalid_prefix(entries: Seq<Node>, i: int)
    requires
        0 <= i <= entries.len(),
        parse_entries(entries.take(i)) is None,
    ensures
        parse_entries(entries) is None,
    decreases entries.len() - i,
{
    if i < entries.len() {
        assert(entries.take(i + 1).drop_last() =~= entries.take(i));
        lemma_parse_entries_invalid_prefix(entries, i + 1);
    } else {
        assert(entries.take(i) =~= entries);
    }
}

/// Reads the string scalars of `items`, where all of them are.
fn string_list(items: &Vec<Node>) -> (r: Option<Vec<String>>)
    ensures
        match r {
            Some(v) => all_strings(items@) && strings_view(v@) == items@.map_values(
                |n: Node| scalar(n),
            ),
            None => !all_strings(items@),
        },
{
    let mut out: Vec<String> = Vec::new();
    let mut i: usize = 0;
    while i < items.len()
        invariant
            i <= items@.len(),
            out@.len() == i,
            all_strings(items@.take(i as int)),
            strings_view(out@) == items@.take(i as int).map_values(|n: Node| scalar(n)),
        decreases items.len() - i,
    {
        match as_str(&items[i]) {
            Some(s) => {
                let ghost before = out@;
                let c = s.clone();
                out.push(c);
                assert(scalar(items@[i as int]) == s@);
                assert(strings_view(out@) =~= strings_view(before).push(c@));
                assert(items@.take(i + 1) =~= items@.take(i as int).push(items@[i as int]));
                assert(strings_view(out@) =~= items@.take(i + 1).map_values(|n: Node| scalar(n)));
                assert forall|k: int| 0 <= k < i + 1 implies (#[trigger] str_of(
                    items@.take(i + 1)[k],
                )) is Some by {
                    if k < i {
                        assert(items@.take(i + 1)[k] == items@.take(i as int)[k]);
                    }
                }
            },
            None => {
                assert(str_of(items@[i as int]) is None);
                return None;
            },
        }
        i += 1;
    }
    assert(items@.take(i as int) =~= items@);
    Some(out)
}

/// Reads one entry of the `job` list.
fn parse_entry(entry: &Node) -> (r: Result<Option<Task>, ParseError>)
    ensures
        match classify(*entry) {
            EntryKind::Act(a) => r matches Ok(Some(t)) && t@ == TaskView::Action(a),
            EntryKind::Barrier => r matches Ok(Some(t)) && t@ == TaskView::Barrier(0),
            EntryKind::Skip => r matches Ok(None),
            EntryKind::Invalid => r == Err::<Option<Task>, ParseError>(ParseError::MalformedAction),
        },
{
    match entry {
        Node::Hash(_) => {},
        _ => return Ok(None),
    }
    match get(entry, "action") {
        Some(a) => {
            let name = match as_str(a) {
                Some(s) => s,
                None => return Err(ParseError::MalformedAction),
            };
            let runs_on = match get(entry, "runs-on") {
                Some(r) => match as_str(r) {
                    Some(s) => s,
                    None => return Err(ParseError::MalformedAction),
                },
                None => return Err(ParseError::MalformedAction),
            };
            let items = match get(entry, "commands") {
                Some(c) => match as_list(c) {
                    Some(v) => v,
                    None => return Err(ParseError::MalformedAction),
                },
                None => return Err(ParseError::MalformedAction),
            };
            let commands = match string_list(items) {
                Some(v) => v,
                None => return Err(ParseError::MalformedAction),
            };
            assert(strings_view(commands@).len() == commands@.len());
            if commands.len() == 0 {
                return Err(ParseError::MalformedAction);
            }
            let action = Action::new(name.as_str(), commands, runs_on.as_str());
            assert(member(*entry, "action"@) == Some(*a));
            assert(classify(*entry) == EntryKind::Act(action@));
            Ok(Some(Task::Action(action)))
        },
        None => {
            if get(entry, "barrier").is_some() {
                Ok(Some(Task::Barrier(0)))
            } else {
                Ok(None)
            }
        },
    }
}

/// Reads the tasks of a job specification from its YAML documents, in
/// document order; unrecognised entries are skipped.
pub fn parse(docs: &Vec<Node>) -> (r: Result<TaskQueue, ParseError>)
    ensures
        match r {
            Ok(q) => parse_documents(docs@) == Ok::<Seq<TaskView>, ParseError>(q@),
            Err(e) => parse_documents(docs@) == Err::<Seq<TaskView>, ParseError>(e),
        },
{
    if docs.len() == 0 {
        return Err(ParseError::MissingJobList);
    }
    let job = match get(&docs[0], "job") {
        Some(j) => match as_list(j) {
            Some(v) => v,
            None => return Err(ParseError::MissingJobList),
        },
        None => return Err(ParseError::MissingJobList),
    };
    let mut tasks = TaskQueue::new();
    let mut i: usize = 0;
    while i < job.len()
        invariant
            i <= job@.len(),
            job_list(docs@) == Some(job@),
            parse_entries(job@.take(i as int)) == Some(tasks@),
        decreases job.len() - i,
    {
        assert(job@.take(i + 1).drop_last() =~= job@.take(i as int));
        assert(job@.take(i + 1).last() == job@[i as int]);
        match parse_entry(&job[i]) {
            Ok(Some(t)) => tasks.push_back(t),
            Ok(None) => {},
            Err(e) => {
                proof {
                    lemma_parse_entries_invalid_prefix(job@, i + 1);
                }
                return Err(e);
            },
        }
        i += 1;
    }
    assert(job@.take(i as int) =~= job@);
    Ok(tasks)
}

/// The state of compilation after a prefix of the tasks: one queue per worker
/// name in order of first appearance, the participant count of each barrier
/// met so far, and the number of actions met since the last barrier.
pub struct CompileState {
    pub queues: Seq<(Seq<char>, Seq<TaskView>)>,
    pub stages: Seq<nat>,
    pub pending: nat,
}

/// Whether no two queues carry the same worker name.
pub open spec fn distinct_names(queues: Seq<(Seq<char>, Seq<TaskView>)>) -> bool {
    forall|i: int, j: int|
        0 <= i < queues.len() && 0 <= j < queues.len() && i != j ==> #[trigger] queues[i].0
            != #[trigger] queues[j].0
}

/// Whether some queue carries the worker name `name`.
pub open spec fn has_queue(queues: Seq<(Seq<char>, Seq<TaskView>)>, name: Seq<char>) -> bool {
    exists|i: int| 0 <= i < queues.len() && #[trigger] queues[i].0 == name
}

/// Appends an action to the queue of its worker, creating that queue at the
/// end where it is new.
pub open spec fn add_action(queues: Seq<(Seq<char>, Seq<TaskView>)>, a: ActionView) -> Seq<
    (Seq<char>, Seq<TaskView>),
> {
    if has_queue(queues, a.runs_on) {
        let i = choose|i: int| 0 <= i < queues.len() && #[trigger] queues[i].0 == a.runs_on;
        queues.update(i, (queues[i].0, queues[i].1.push(TaskView::Action(a))))
    } else {
        queues.push((a.runs_on, seq![TaskView::Action(a)]))
    }
}

/// Appends a barrier with `count` participants to every queue.
pub open spec fn add_barrier(queues: Seq<(Seq<char>, Seq<TaskView>)>, count: nat) -> Seq<
    (Seq<char>, Seq<TaskView>),
> {
    queues.map_values(
        |q: (Seq<char>, Seq<TaskView>)| (q.0, q.1.push(TaskView::Barrier(count))),
    )
}

/// One step of compilation.
pub open spec fn compile_step(st: CompileState, t: TaskView) -> CompileState {
    match t {
        TaskView::Action(a) => CompileState {
            queues: add_action(st.queues, a),
            stages: st.stages,
            pending: st.pending + 1,
        },
        TaskView::Barrier(_) => CompileState {
            queues: add_barrier(st.queues, st.pending),
            stages: st.stages.push(st.pending),
            pending: 0,
        },
    }
}

/// Compiles a sequence of tasks into per-worker queues and barrier stages.
pub open spec fn compile_tasks(tasks: Seq<TaskView>) -> CompileState
    decreases tasks.len(),
{
    if tasks.len() == 0 {
        CompileState { queues: Seq::empty(), stages: Seq::empty(), pending: 0 }
    } else {
        compile_step(compile_tasks(tasks.drop_last()), tasks.last())
    }
}

/// The mathematical value of a [`Job`].
pub struct JobView {
    pub env: Seq<(Seq<char>, Seq<char>)>,
    pub queues: Seq<(Seq<char>, Seq<TaskView>)>,
    pub stages: Seq<nat>,
}

/// The views of a list of string pairs.
pub open spec fn pairs_view(v: Seq<(String, String)>) -> Seq<(Seq<char>, Seq<char>)> {
    v.map_values(|p: (String, String)| (p.0@, p.1@))
}

/// The views of a list of named queues.
pub open spec fn queues_view(v: Seq<(String, TaskQueue)>) -> Seq<(Seq<char>, Seq<TaskView>)> {
    v.map_values(|p: (String, TaskQueue)| (p.0@, p.1@))
}

/// The views of a list of participant counts.
pub open spec fn counts_view(v: Seq<usize>) -> Seq<nat> {
    v.map_values(|n: usize| n as nat)
}

/// The job that a specification compiles to, with the environment `env`.
pub open spec fn compile_job(tasks: Seq<TaskView>, env: Seq<(Seq<char>, Seq<char>)>) -> JobView {
    JobView { env, queues: compile_tasks(tasks).queues, stages: compile_tasks(tasks).stages }
}

/// The job that a YAML text specifies, with the environment `env`.
pub open spec fn job_of_text(text: Seq<char>, env: Seq<(Seq<char>, Seq<char>)>) -> Result<
    JobView,
    ParseError,
> {
    match yaml_documents(text) {
        None => Err(ParseError::InvalidYaml),
        Some(docs) => match parse_documents(docs) {
            Err(e) => Err(e),
            Ok(tasks) => Ok(compile_job(tasks, env)),
        },
    }
}

/// A job compiled from its specification: one task queue per worker name, the
/// participant count of each barrier in order, and the environment that every
/// command runs with.
pub struct Job {
    env: Vec<(String, String)>,
    tasks_queues: Vec<(String, TaskQueue)>,
    barrier_participants: Vec<usize>,
}

impl View for Job {
    type V = JobView;

    closed spec fn view(&self) -> JobView {
        JobView {
            env: pairs_view(self.env@),
            queues: queues_view(self.tasks_queues@),
            stages: counts_view(self.barrier_participants@),
        }
    }
}

impl Job {
    /// The worker names of the queues are distinct.
    #[verifier::type_invariant]
    spec fn inv(&self) -> bool {
        distinct_names(queues_view(self.tasks_queues@))
    }

    /// Whether the worker names of the queues are distinct.
    pub open spec fn wf(&self) -> bool {
        distinct_names(self@.queues)
    }

    /// Returns the index of the queue of worker `name`, if there is one.
    fn find_queue(queues: &Vec<(String, TaskQueue)>, name: &String) -> (r: Option<usize>)
        ensures
            match r {
                Some(i) => i < queues@.len() && queues@[i as int].0@ == name@,
                None => !has_queue(queues_view(queues@), name@),
            },
    {
        let mut i: usize = 0;
        while i < queues.len()
            invariant
                i <= queues@.len(),
                forall|j: int| 0 <= j < i ==> queues@[j].0@ != name@,
            decreases queues.len() - i,
        {
            if queues[i].0 == *name {
                return Some(i);
            }
            i += 1;
        }
        assert forall|j: int| 0 <= j < queues@.len() implies #[trigger] queues_view(queues@)[j].0
            != name@ by {
            assert(queues_view(queues@)[j].0 == queues@[j].0@);
        }
        None
    }

    /// Compiles a sequence of tasks: each action goes to the queue of its
    /// worker, and each barrier is appended to every queue that exists at that
    /// point, with the number of actions since the previous barrier as its
    /// participant count.
    pub fn compile(tasks: TaskQueue, env: Vec<(String, String)>) -> (r: Job)
        ensures
            r@ == compile_job(tasks@, pairs_view(env@)),
    {
        let ghost all = tasks@;
        let mut tasks = tasks;
        let total = tasks.len();
        let mut queues: Vec<(String, TaskQueue)> = Vec::new();
        let mut stages: Vec<usize> = Vec::new();
        let mut pending: usize = 0;
        let ghost mut done: int = 0;
        assert(all.take(0) =~= Seq::<TaskView>::empty());
        assert(queues_view(queues@) =~= Seq::<(Seq<char>, Seq<TaskView>)>::empty());
        assert(counts_view(stages@) =~= Seq::<nat>::empty());
        loop
            invariant
                0 <= done <= all.len(),
                all.len() == total,
                tasks@ == all.skip(done),
                pending <= done,
                distinct_names(queues_view(queues@)),
                compile_tasks(all.take(done)) == (CompileState {
                    queues: queues_view(queues@),
                    stages: counts_view(stages@),
                    pending: pending as nat,
                }),
            ensures
                distinct_names(queues_view(queues@)),
                compile_tasks(all) == (CompileState {
                    queues: queues_view(queues@),
                    stages: counts_view(stages@),
                    pending: pending as nat,
                }),
            decreases all.len() - done,
        {
            let ghost before = all.take(done);
            let next = tasks.pop_front();
            match next {
                None => {
                    assert(all.take(done) =~= all);
                    break;
                },
                Some(t) => {
                    let ghost tv = t@;
                    assert(all.take(done + 1) =~= before.push(t@));
                    assert(before.push(tv).drop_last() =~= before);
                    assert(all.skip(done).drop_first() =~= all.skip(done + 1));
                    match t {
                        Task::Action(a) => {
                            let name = String::from_str(a.runs_on());
                            let ghost old_q = queues_view(queues@);
                            match Self::find_queue(&queues, &name) {
                                Some(i) => {
                                    assert(old_q[i as int].0 == a@.runs_on);
                                    let mut entry = queues.remove(i);
                                    let ghost aview = a@;
                                    entry.1.push_back(Task::Action(a));
                                    queues.insert(i, entry);
                                    proof {
                                        let j = choose|j: int|
                                            0 <= j < old_q.len() && #[trigger] old_q[j].0
                                                == aview.runs_on;
                                        assert(old_q[i as int].0 == aview.runs_on);
                                        assert(j == i);
                                        assert(queues_view(queues@) =~= add_action(old_q, aview));
                                        assert(distinct_names(queues_view(queues@)));
                                    }
                                },
                                None => {
                                    let mut q = TaskQueue::new();
                                    let ghost aview = a@;
                                    q.push_back(Task::Action(a));
                                    queues.push((name, q));
                                    assert(queues_view(queues@) =~= add_action(old_q, aview));
                                    assert(distinct_names(queues_view(queues@)));
                                },
                            }
                            pending += 1;
                        },
                        Task::Barrier(_) => {
                            let ghost old_q = queues_view(queues@);
                            let mut j: usize = 0;
                            while j < queues.len()
                                invariant
                                    j <= queues@.len(),
                                    queues@.len() == old_q.len(),
                                    forall|k: int|
                                        0 <= k < queues@.len() ==> (#[trigger] queues_view(
                                            queues@,
                                        )[k]) == if k < j {
                                            (
                                                old_q[k].0,
                                                old_q[k].1.push(TaskView::Barrier(pending as nat)),
                                            )
                                        } else {
                                            old_q[k]
                                        },
                                decreases queues.len() - j,
                            {
                                let ghost prev = queues_view(queues@);
                                let ghost raw = queues@;
                                assert(prev[j as int] == old_q[j as int]);
                                assert(prev[j as int] == (raw[j as int].0@, raw[j as int].1@));
                                let mut entry = queues.remove(j);
                                entry.1.push_back(Task::Barrier(pending));
                                let ghost e0 = entry.0@;
                                let ghost e1 = entry.1@;
                                queues.insert(j, entry);
                                assert(queues@.len() == raw.len());
                                assert(queues@[j as int].0@ == e0 && queues@[j as int].1@ == e1);
                                assert(e0 == old_q[j as int].0);
                                assert(e1 == old_q[j as int].1.push(TaskView::Barrier(pending as nat)));
                                assert(forall|k: int| 0 <= k < raw.len() && k != j ==> queues@[k] == raw[k]);
                                assert forall|k: int| 0 <= k < queues@.len() implies (
                                #[trigger] queues_view(queues@)[k]) == if k < j + 1 {
                                    (old_q[k].0, old_q[k].1.push(TaskView::Barrier(pending as nat)))
                                } else {
                                    old_q[k]
                                } by {
                                    if k != j {
                                        assert(queues_view(queues@)[k] == prev[k]);
                                    }
                                }
                                j += 1;
                            }
                            assert(queues_view(queues@) =~= add_barrier(old_q, pending as nat));
                            let ghost old_s = counts_view(stages@);
                            stages.push(pending);
                            assert(counts_view(stages@) =~= old_s.push(pending as nat));
                            pending = 0;
                        },
                    }
                    assert(compile_tasks(before.push(tv)) == compile_step(compile_tasks(before), tv));
                    proof {
                        done = done + 1;
                    }
                },
            }
        }
        Job { env, tasks_queues: queues, barrier_participants: stages }
    }

    /// Reads and compiles a job specification written in YAML.
    pub fn from_text(text: &str, env: Vec<(String, String)>) -> (r: Result<Job, ParseError>)
        ensures
            result_view(&r) == job_of_text(text@, pairs_view(env@)),
    {
        let docs = match load_documents(text) {
            Some(d) => d,
            None => return Err(ParseError::InvalidYaml),
        };
        match parse(&docs) {
            Ok(tasks) => Ok(Self::compile(tasks, env)),
            Err(e) => Err(e),
        }
    }

    /// Removes and returns the task queue of worker `worker_name`.
    pub fn get_worker_tasks(&mut self, worker_name: &str) -> (r: Option<TaskQueue>)
        ensures
            final(self)@.env == old(self)@.env,
            final(self)@.stages == old(self)@.stages,
            match r {
                Some(q) => exists|i: int|
                    0 <= i < old(self)@.queues.len() && #[trigger] old(self)@.queues[i].0
                        == worker_name@ && q@ == old(self)@.queues[i].1 && final(self)@.queues
                        == old(self)@.queues.remove(i),
                None => !has_queue(old(self)@.queues, worker_name@) && final(self)@ == old(
                    self,
                )@,
            },
    {
        proof {
            use_type_invariant(&*self);
        }
        let name = String::from_str(worker_name);
        match Self::find_queue(&self.tasks_queues, &name) {
            Some(i) => {
                let ghost old_q = queues_view(self.tasks_queues@);
                assert(old_q[i as int].0 == worker_name@);
                let mut queues: Vec<(String, TaskQueue)> = Vec::new();
                assert(distinct_names(queues_view(queues@)));
                std::mem::swap(&mut queues, &mut self.tasks_queues);
                assert(queues_view(queues@) == old_q);
                let ghost raw = queues@;
                let entry = queues.remove(i);
                assert(entry == raw[i as int]);
                assert(entry.1@ == old_q[i as int].1);
                assert(queues_view(queues@) =~= old_q.remove(i as int));
                assert(distinct_names(queues_view(queues@))) by {
                    assert forall|a: int, b: int|
                        0 <= a < old_q.len() - 1 && 0 <= b < old_q.len() - 1 && a != b implies
                        #[trigger] old_q.remove(i as int)[a].0 != #[trigger] old_q.remove(
                        i as int,
                    )[b].0 by {
                        let a2 = if a < i { a } else { a + 1 };
                        let b2 = if b < i { b } else { b + 1 };
                        assert(old_q.remove(i as int)[a] == old_q[a2]);
                        assert(old_q.remove(i as int)[b] == old_q[b2]);
                    }
                }
                self.tasks_queues = queues;
                assert(old_q == old(self)@.queues);
                assert(self@.queues == old_q.remove(i as int));
                assert(self@.env == old(self)@.env);
                assert(old_q[i as int].0 == worker_name@);
                Some(entry.1)
            },
            None => None,
        }
    }

    /// Returns the participant count of each barrier, in order.
    pub fn barrier_participants(&self) -> (r: &Vec<usize>)
        ensures
            counts_view(r@) == self@.stages,
    {
        &self.barrier_participants
    }

    /// Returns the number of task queues, one per worker name.
    pub fn num_workers(&self) -> (r: usize)
        ensures
            r == self@.queues.len(),
    {
        self.tasks_queues.len()
    }

    /// Returns the worker names of the task queues, in order; they are
    /// distinct.
    pub fn get_task_names(&self) -> (r: Vec<String>)
        ensures
            strings_view(r@) == queue_names(self@.queues),
            self.wf(),
    {
        proof {
            use_type_invariant(self);
        }
        let mut names: Vec<String> = Vec::new();
        let mut i: usize = 0;
        while i < self.tasks_queues.len()
            invariant
                i <= self.tasks_queues@.len(),
                names@.len() == i,
                forall|k: int| 0 <= k < i ==> (#[trigger] names@[k])@ == self.tasks_queues@[k].0@,
            decreases self.tasks_queues.len() - i,
        {
            names.push(self.tasks_queues[i].0.clone());
            i += 1;
        }
        assert(strings_view(names@) =~= queue_names(self@.queues));
        names
    }

    /// Returns the environment that every command of the job runs with.
    pub fn env(&self) -> (r: &Vec<(String, String)>)
        ensures
            pairs_view(r@) == self@.env,
    {
        &self.env
    }

}

/// The view of a compilation result.
pub open spec fn result_view(r: &Result<Job, ParseError>) -> Result<JobView, ParseError> {
    match r {
        Ok(j) => Ok(j@),
        Err(e) => Err(*e),
    }
}

/// The worker names of a list of queues.
pub open spec fn queue_names(queues: Seq<(Seq<char>, Seq<TaskView>)>) -> Seq<Seq<char>> {
    queues.map_values(|q: (Seq<char>, Seq<TaskView>)| q.0)
}

/// Whether `t` is an action bound to worker `name`.
pub open spec fn targets(t: TaskView, name: Seq<char>) -> bool {
    match t {
        TaskView::Action(a) => a.runs_on == name,
        TaskView::Barrier(_) => false,
    }
}

/// The predicate that selects the actions bound to worker `name`.
pub open spec fn for_worker(name: Seq<char>) -> spec_fn(TaskView) -> bool {
    |t: TaskView| targets(t, name)
}

/// The worker name of a task, empty for a barrier.
pub open spec fn target_of(t: TaskView) -> Seq<char> {
    match t {
        TaskView::Action(a) => a.runs_on,
        TaskView::Barrier(_) => Seq::empty(),
    }
}

/// Whether every task is an action.
pub open spec fn actions_only(tasks: Seq<TaskView>) -> bool {
    forall|i: int| 0 <= i < tasks.len() ==> #[trigger] tasks[i] is Action
}

proof fn lemma_actions_only(tasks: Seq<TaskView>)
    requires
        actions_only(tasks),
    ensures
        distinct_names(compile_tasks(tasks).queues),
        queue_names(compile_tasks(tasks).queues).to_set() == tasks.map_values(
            |t: TaskView| target_of(t),
        ).to_set(),
        forall|i: int|
            0 <= i < compile_tasks(tasks).queues.len() ==> (#[trigger] compile_tasks(
                tasks,
            ).queues[i]).1 == tasks.filter(for_worker(compile_tasks(tasks).queues[i].0)),
        compile_tasks(tasks).stages.len() == 0,
        compile_tasks(tasks).pending == tasks.len(),
    decreases tasks.len(),
{
    reveal(Seq::filter);
    let names = tasks.map_values(|t: TaskView| target_of(t));
    if tasks.len() == 0 {
        assert(queue_names(compile_tasks(tasks).queues).to_set() =~= names.to_set());
    } else {
        let prev = tasks.drop_last();
        assert(actions_only(prev)) by {
            assert forall|i: int| 0 <= i < prev.len() implies #[trigger] prev[i] is Action by {
                assert(prev[i] == tasks[i]);
            }
        }
        lemma_actions_only(prev);
        let st = compile_tasks(prev);
        let a = tasks.last()->Action_0;
        assert(tasks.last() is Action);
        let pnames = prev.map_values(|t: TaskView| target_of(t));
        assert(names =~= pnames.push(a.runs_on));
        let q = compile_tasks(tasks).queues;
        assert(q == add_action(st.queues, a));
        if has_queue(st.queues, a.runs_on) {
            let j = choose|j: int| 0 <= j < st.queues.len() && #[trigger] st.queues[j].0 == a.runs_on;
            assert(q == st.queues.update(j, (st.queues[j].0, st.queues[j].1.push(TaskView::Action(a)))));
            assert(queue_names(q) =~= queue_names(st.queues));
            assert(queue_names(st.queues)[j] == a.runs_on);
            assert(pnames.to_set().contains(a.runs_on));
            pnames.lemma_push_to_set_commute(a.runs_on);
            assert(names.to_set() =~= pnames.to_set().insert(a.runs_on));
            assert(q.len() == st.queues.len());
            assert forall|i: int| 0 <= i < q.len() implies (#[trigger] q[i]).1 == tasks.filter(
                for_worker(q[i].0),
            ) by {
                assert(tasks.drop_last() == prev);
                if i == j {
                } else {
                    assert(q[i] == st.queues[i]);
                    assert(st.queues[i].0 != a.runs_on);
                }
            }
            assert(distinct_names(q)) by {
                assert forall|x: int, y: int|
                    0 <= x < q.len() && 0 <= y < q.len() && x != y implies #[trigger] q[x].0
                    != #[trigger] q[y].0 by {
                    assert(st.queues[x].0 != st.queues[y].0);
                }
            }
        } else {
            assert(q == st.queues.push((a.runs_on, seq![TaskView::Action(a)])));
            assert(queue_names(q) =~= queue_names(st.queues).push(a.runs_on));
            pnames.lemma_push_to_set_commute(a.runs_on);
            assert(names.to_set() =~= pnames.to_set().insert(a.runs_on));
            queue_names(st.queues).lemma_push_to_set_commute(a.runs_on);
            assert(queue_names(q).to_set() =~= queue_names(st.queues).to_set().insert(a.runs_on));
            assert forall|i: int| 0 <= i < q.len() implies (#[trigger] q[i]).1 == tasks.filter(
                for_worker(q[i].0),
            ) by {
                assert(tasks.drop_last() == prev);
                if i == st.queues.len() {
                    let f = prev.filter(for_worker(a.runs_on));
                    if f.len() > 0 {
                        assert(f.contains(f[0]));
                        prev.lemma_filter_contains_rev(for_worker(a.runs_on), f[0]);
                        prev.lemma_filter_pred(for_worker(a.runs_on), 0);
                    }
                    if f.len() > 0 {
                        let w = f[0];
                        assert(prev.contains(w));
                        let k = choose|k: int| 0 <= k < prev.len() && prev[k] == w;
                        assert(targets(w, a.runs_on));
                        assert(pnames[k] == a.runs_on);
                        assert(pnames.to_set().contains(a.runs_on));
                        assert(queue_names(st.queues).to_set().contains(a.runs_on));
                        let m = choose|m: int| 0 <= m < queue_names(st.queues).len() && queue_names(st.queues)[m] == a.runs_on;
                        assert(st.queues[m].0 == a.runs_on);
                    }
                    assert(f =~= Seq::<TaskView>::empty());
                    assert(seq![TaskView::Action(a)] =~= f.push(TaskView::Action(a)));
                } else {
                    assert(q[i] == st.queues[i]);
                    assert(st.queues[i].0 != a.runs_on) by {
                        if st.queues[i].0 == a.runs_on {
                            assert(has_queue(st.queues, a.runs_on));
                        }
                    }
                }
            }
            assert(distinct_names(q)) by {
                assert forall|x: int, y: int|
                    0 <= x < q.len() && 0 <= y < q.len() && x != y implies #[trigger] q[x].0
                    != #[trigger] q[y].0 by {
                    if x < st.queues.len() && y < st.queues.len() {
                        assert(st.queues[x].0 != st.queues[y].0);
                    } else if x < st.queues.len() {
                        assert(q[x] == st.queues[x]);
                        if q[x].0 == q[y].0 {
                            assert(has_queue(st.queues, a.runs_on));
                        }
                    } else {
                        assert(q[y] == st.queues[y]);
                        if q[x].0 == q[y].0 {
                            assert(has_queue(st.queues, a.runs_on));
                        }
                    }
                }
            }
        }
    }
}

/// For a specification made of actions alone, there is one queue per distinct
/// worker name, and each queue holds the actions bound to its worker in the
/// order in which they stand in the specification.
pub proof fn lemma_queues_follow_source_order(tasks: Seq<TaskView>)
    requires
        actions_only(tasks),
    ensures
        compile_tasks(tasks).queues.len() == tasks.map_values(|t: TaskView| target_of(t)).to_set().len(),
        forall|i: int|
            0 <= i < compile_tasks(tasks).queues.len() ==> (#[trigger] compile_tasks(
                tasks,
            ).queues[i]).1 == tasks.filter(for_worker(compile_tasks(tasks).queues[i].0)),
{
    lemma_actions_only(tasks);
    let q = compile_tasks(tasks).queues;
    assert(queue_names(q).no_duplicates()) by {
        assert forall|x: int, y: int|
            0 <= x < queue_names(q).len() && 0 <= y < queue_names(q).len() && x != y implies
            queue_names(q)[x] != queue_names(q)[y] by {
            assert(q[x].0 != q[y].0);
        }
    }
    queue_names(q).unique_seq_to_set();
}

/// A barrier that follows `k` actions, each bound to a different worker, gets
/// `k` participants, and each of the `k` queues ends with it.
pub proof fn lemma_barrier_after_distinct_actions(prefix: Seq<TaskView>, b: nat)
    requires
        actions_only(prefix),
        prefix.map_values(|t: TaskView| target_of(t)).no_duplicates(),
    ensures
        compile_tasks(prefix.push(TaskView::Barrier(b))).stages == seq![prefix.len()],
        compile_tasks(prefix.push(TaskView::Barrier(b))).queues.len() == prefix.len(),
        forall|i: int|
            0 <= i < prefix.len() ==> (#[trigger] compile_tasks(
                prefix.push(TaskView::Barrier(b)),
            ).queues[i]).1.last() == TaskView::Barrier(prefix.len()),
{
    lemma_actions_only(prefix);
    lemma_queues_follow_source_order(prefix);
    prefix.map_values(|t: TaskView| target_of(t)).unique_seq_to_set();
    let all = prefix.push(TaskView::Barrier(b));
    assert(all.drop_last() =~= prefix);
    let st = compile_tasks(prefix);
    assert(compile_tasks(all) == compile_step(st, TaskView::Barrier(b)));
    assert(compile_tasks(all).stages =~= seq![prefix.len()]);
    assert forall|i: int| 0 <= i < prefix.len() implies (#[trigger] compile_tasks(all).queues[i]).1.last()
        == TaskView::Barrier(prefix.len()) by {
        assert(compile_tasks(all).queues[i] == (st.queues[i].0, st.queues[i].1.push(TaskView::Barrier(st.pending))));
    }
}

/// Compiling the same specification twice, with the same environment, gives
/// the same job.
pub proof fn lemma_compilation_is_pure(
    text: Seq<char>,
    env: Seq<(Seq<char>, Seq<char>)>,
    first: Result<JobView, ParseError>,
    second: Result<JobView, ParseError>,
)
    requires
        first == job_of_text(text, env),
        second == job_of_text(text, env),
    ensures
        first == second,
{
}

} // verus!
