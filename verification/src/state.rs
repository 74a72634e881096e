//! The in-memory runtime state: the `Action` builder that produces
//! immutable `Task` values, the task queue, and the dispatch table that
//! routes a drained task to its handler.

use vstd::prelude::*;
use crate::RprError;

verus! {

/// The resolved command-line options the core consumes: it never parses
/// raw arguments itself.
#[derive(Debug)]
pub struct Inputs {
    /// The configuration file path, when one was given.
    pub config: Option<String>,
    /// Whether initialization of the configuration file was requested.
    pub init: bool,
    /// The number of verbosity flags given.
    pub verbosity: u64,
    /// Whether to run quietly, reporting errors only.
    pub quiet: bool,
}

/// The verbosity name selected by the resolved options: quiet overrides
/// everything to errors only; otherwise each verbosity flag raises the
/// level, from info through debug to trace.
pub open spec fn verbosity_spec(v: u64, quiet: bool) -> Seq<char> {
    if quiet {
        "error"@
    } else if v == 0 {
        "info"@
    } else if v == 1 {
        "debug"@
    } else {
        "trace"@
    }
}

/// Maps the resolved verbosity options to the name of the logging level.
pub fn verbosity_level(v: u64, quiet: bool) -> (r: &'static str)
    ensures
        r@ == verbosity_spec(v, quiet),
{
    if quiet {
        "error"
    } else if v == 0 {
        "info"
    } else if v == 1 {
        "debug"
    } else {
        "trace"
    }
}

/// An immutable, ready-to-execute unit of bootstrap work.
///
/// A `Task` is produced by [`Action::ready`] and owned by a [`State`]'s
/// queue until it is drained for execution.
#[derive(Debug)]
pub struct Task {
    /// A system-managed identifier.
    id: String,
    /// The priority; lower values are processed sooner, and
    /// an absent priority is processed last.
    priority: Option<i16>,
    /// The command that the task is going to trigger.
    cmd: String,
    /// Arguments to be provided to the command.
    args: Vec<String>,
}

/// The mathematical value of a [`Task`].
pub struct TaskView {
    /// The identifier.
    pub id: Seq<char>,
    /// The priority.
    pub priority: Option<i16>,
    /// The command name.
    pub cmd: Seq<char>,
    /// The arguments, in order.
    pub args: Seq<Seq<char>>,
}

impl View for Task {
    type V = TaskView;

    closed spec fn view(&self) -> TaskView {
        TaskView {
            id: self.id@,
            priority: self.priority,
            cmd: self.cmd@,
            args: self.args@.map_values(|a: String| a@),
        }
    }
}

impl Task {
    /// The task's command name.
    pub fn cmd(&self) -> (r: &String)
        ensures
            r@ == self@.cmd,
    {
        &self.cmd
    }

    /// The task's priority, if one is set.
    pub fn priority(&self) -> (r: Option<i16>)
        ensures
            r == self@.priority,
    {
        self.priority
    }

    /// The task's arguments.
    pub fn args(&self) -> (r: &Vec<String>)
        ensures
            r@.map_values(|a: String| a@) == self@.args,
    {
        &self.args
    }

    /// The task's system-managed identifier.
    pub fn id(&self) -> (r: &String)
        ensures
            r@ == self@.id,
    {
        &self.id
    }
}

/// A builder for [`Task`] values.
///
/// An `Action` is created with [`Action::new`], assembled through its
/// chaining setters, and frozen into an immutable [`Task`] with
/// [`Action::ready`].
pub struct Action {
    /// A system-managed identifier.
    id: String,
    /// The priority of this action.
    priority: Option<i16>,
    /// The command that the action is going to trigger.
    cmd: String,
    /// Arguments to be provided to the command.
    args: Vec<String>,
}

/// The mathematical value of an [`Action`]: the same fields as a task.
pub struct ActionView {
    /// The identifier.
    pub id: Seq<char>,
    /// The priority.
    pub priority: Option<i16>,
    /// The command name.
    pub cmd: Seq<char>,
    /// The arguments, in order.
    pub args: Seq<Seq<char>>,
}

impl View for Action {
    type V = ActionView;

    closed spec fn view(&self) -> ActionView {
        ActionView {
            id: self.id@,
            priority: self.priority,
            cmd: self.cmd@,
            args: self.args@.map_values(|a: String| a@),
        }
    }
}

/// The views of a sequence of strings with one more string appended are
/// the views of the sequence with the view of that string appended.
proof fn lemma_map_views_push(v: Seq<String>, a: String)
    ensures
        v.push(a).map_values(|x: String| x@) == v.map_values(|x: String| x@).push(a@),
{
    let l = v.push(a).map_values(|x: String| x@);
    let r = v.map_values(|x: String| x@).push(a@);
    assert forall|i: int| 0 <= i < l.len() implies l[i] == r[i] by {
        if i < v.len() {
            assert(v.push(a)[i] == v[i]);
        } else {
            assert(v.push(a)[i] == a);
        }
    }
    assert(l =~= r);
}

/// Relies on `std::time::SystemTime::now` and
/// `SystemTime::duration_since`: a process-local identifier token derived
/// from the clock, as nanoseconds since the Unix epoch. The contents
/// depend on the time of the call, so nothing is promised of the result.
/// No path panics: a clock before the epoch falls back to the epoch
/// through `unwrap_or_default`.
#[verifier::external_body]
fn fresh_token() -> (r: String) {
    let since_epoch = std::time::SystemTime::now().duration_since(
        std::time::UNIX_EPOCH,
    ).unwrap_or_default();
    format!("action-{}", since_epoch.as_nanos())
}

impl Action {
    /// Creates a new action for the given command name, with a fresh
    /// clock-derived identifier, no priority and no arguments.
    pub fn new(name: String) -> (r: Action)
        ensures
            r@.priority is None,
            r@.cmd == name@,
            r@.args == Seq::<Seq<char>>::empty(),
    {
        let r = Action { id: fresh_token(), priority: None, cmd: name, args: Vec::new() };
        proof {
            assert(r@.args =~= Seq::<Seq<char>>::empty());
        }
        r
    }

    /// Sets the action's priority. Lower priorities are processed sooner.
    /// Calling this twice overwrites the earlier value.
    pub fn priority(self, p: i16) -> (r: Action)
        ensures
            r@.id == self@.id,
            r@.priority == Some(p),
            r@.cmd == self@.cmd,
            r@.args == self@.args,
    {
        let Action { id, priority: _, cmd, args } = self;
        Action { id, priority: Some(p), cmd, args }
    }

    /// Appends a single argument to the action.
    pub fn with_arg(self, a: String) -> (r: Action)
        ensures
            r@.id == self@.id,
            r@.priority == self@.priority,
            r@.cmd == self@.cmd,
            r@.args == self@.args.push(a@),
    {
        let ghost pre = self@;
        let ghost av = a@;
        let mut s = self;
        s.args.push(a);
        proof {
            assert(s@.args =~= pre.args.push(av));
        }
        s
    }

    /// Appends a collection of arguments to the action, in order.
    pub fn with_args(self, args: Vec<String>) -> (r: Action)
        ensures
            r@.id == self@.id,
            r@.priority == self@.priority,
            r@.cmd == self@.cmd,
            r@.args == self@.args + args@.map_values(|a: String| a@),
    {
        let ghost pre = self@;
        let ghost argsv = args@.map_values(|a: String| a@);
        let mut s = self;
        let mut i: usize = 0;
        while i < args.len()
            invariant
                i <= args.len(),
                argsv == args@.map_values(|a: String| a@),
                s.id@ == pre.id,
                s.priority == pre.priority,
                s.cmd@ == pre.cmd,
                s@.args == pre.args + argsv.subrange(0, i as int),
            decreases args.len() - i,
        {
            let a = args[i].clone();
            let ghost before = s.args@;
            s.args.push(a);
            proof {
                lemma_map_views_push(before, args@[i as int]);
                assert(argsv[i as int] == args@[i as int]@);
                assert(s@.args == (pre.args + argsv.subrange(0, i as int)).push(argsv[i as int]));
                assert(s@.args =~= pre.args + argsv.subrange(0, i as int + 1)) by {
                    assert(argsv.subrange(0, i as int + 1) =~= argsv.subrange(0, i as int).push(
                        argsv[i as int],
                    ));
                }
            }
            i = i + 1;
        }
        proof {
            assert(argsv.subrange(0, argsv.len() as int) =~= argsv);
        }
        s
    }

    /// Freezes the action into an immutable [`Task`] carrying the same
    /// identifier, priority, command name and arguments.
    pub fn ready(self) -> (r: Task)
        ensures
            r@.id == self@.id,
            r@.priority == self@.priority,
            r@.cmd == self@.cmd,
            r@.args == self@.args,
    {
        let Action { id, priority, cmd, args } = self;
        Task { id, priority, cmd, args }
    }
}

/// The ordering key of a task: its priority, with an absent priority
/// ranked after every present one.
pub open spec fn prio_key(t: TaskView) -> int {
    match t.priority {
        Some(p) => p as int,
        None => 32768,
    }
}

/// The views of a sequence of tasks.
pub open spec fn task_views(s: Seq<Task>) -> Seq<TaskView> {
    s.map_values(|t: Task| t@)
}

/// The subsequence of tasks whose ordering key is `k`, in order.
pub open spec fn with_key(s: Seq<TaskView>, k: int) -> Seq<TaskView> {
    s.filter(|t: TaskView| prio_key(t) == k)
}

/// Whether the tasks are in ascending order of their ordering key.
pub open spec fn sorted_by_priority(s: Seq<TaskView>) -> bool {
    forall|i: int, j: int| 0 <= i < j < s.len() ==> prio_key(s[i]) <= prio_key(s[j])
}

/// The ordering key of a task, as the drain computes it.
fn key_of(t: &Task) -> (k: i32)
    ensures
        k as int == prio_key(t@),
{
    match t.priority {
        Some(p) => p as i32,
        None => 32768,
    }
}

/// A filter keeps nothing of a sequence none of whose elements satisfy
/// the predicate.
proof fn lemma_filter_none(s: Seq<TaskView>, pred: spec_fn(TaskView) -> bool)
    requires
        forall|j: int| 0 <= j < s.len() ==> !pred(#[trigger] s[j]),
    ensures
        s.filter(pred) == Seq::<TaskView>::empty(),
    decreases s.len(),
{
    reveal(Seq::filter);
    if s.len() > 0 {
        lemma_filter_none(s.drop_last(), pred);
    }
}

/// Filtering a one-element sequence keeps the element exactly when it
/// satisfies the predicate.
proof fn lemma_filter_singleton(t: TaskView, pred: spec_fn(TaskView) -> bool)
    ensures
        seq![t].filter(pred) == if pred(t) {
            seq![t]
        } else {
            Seq::<TaskView>::empty()
        },
{
    reveal_with_fuel(Seq::filter, 2);
    let s = seq![t];
    assert(s.drop_last() =~= Seq::<TaskView>::empty());
    assert(s.last() == t);
    if pred(t) {
        assert(Seq::<TaskView>::empty().push(t) =~= s);
    }
}

/// The views of a sequence of tasks with one inserted are the views with
/// that task's view inserted at the same position.
proof fn lemma_task_views_insert(s: Seq<Task>, p: int, t: Task)
    requires
        0 <= p <= s.len(),
    ensures
        task_views(s.insert(p, t)) == task_views(s).insert(p, t@),
{
    let l = task_views(s.insert(p, t));
    let r = task_views(s).insert(p, t@);
    s.insert_ensures(p, t);
    task_views(s).insert_ensures(p, t@);
    assert forall|j: int| 0 <= j < l.len() implies l[j] == r[j] by {
        if j < p {
            assert(s.insert(p, t)[j] == s[j]);
            assert(task_views(s).insert(p, t@)[j] == task_views(s)[j]);
        } else if j == p {
            assert(s.insert(p, t)[p] == t);
            assert(task_views(s).insert(p, t@)[p] == t@);
        } else {
            assert(s.insert(p, t)[(j - 1) + 1] == s[j - 1]);
            assert(task_views(s).insert(p, t@)[(j - 1) + 1] == task_views(s)[j - 1]);
        }
    }
    assert(l =~= r);
}

/// The in-memory runtime state of one process run: the moment it was
/// initialized, the resolved command-line inputs, and the queue of tasks
/// requiring actioning.
#[derive(Debug)]
pub struct State {
    /// The system time that the state was initialized, UTC, RFC 3339.
    pub process_start: String,
    /// All inputs that were passed at the time of initialization.
    pub inputs: Inputs,
    /// The queue of tasks requiring actioning.
    pub queue: Vec<Task>,
}

/// Relies on `chrono::DateTime::from_timestamp` and
/// `chrono::DateTime::to_rfc3339`, with the clock read through
/// `std::time::SystemTime::now` and `SystemTime::duration_since`: the
/// current UTC time rendered in RFC 3339 form. The result depends on the
/// clock, so nothing is promised of it. No path panics: a clock before
/// the epoch falls back to the epoch through `unwrap_or_default`,
/// `from_timestamp` returns `None` instead of failing when the reading
/// lies outside chrono's range, and `to_rfc3339` only writes into a
/// string.
#[verifier::external_body]
fn now_rfc3339() -> (r: String) {
    let since_epoch = std::time::SystemTime::now().duration_since(
        std::time::UNIX_EPOCH,
    ).unwrap_or_default();
    let secs = since_epoch.as_secs();
    match chrono::DateTime::from_timestamp(secs as i64, since_epoch.subsec_nanos()) {
        Some(t) => t.to_rfc3339(),
        None => String::new(),
    }
}

impl State {
    /// Initializes the state for one process run: captures the current
    /// UTC time, stores the resolved inputs, and stages the two built-in
    /// bootstrap tasks — `set_log_level` at priority 100 and
    /// `set_state_from_rpr_conf` at priority 200 — with no arguments.
    pub fn initialize(inputs: Inputs) -> (r: State)
        ensures
            r.inputs == inputs,
            r.queue@.len() == 2,
            r.queue@[0]@.cmd == "set_log_level"@,
            r.queue@[0]@.priority == Some(100i16),
            r.queue@[0]@.args == Seq::<Seq<char>>::empty(),
            r.queue@[1]@.cmd == "set_state_from_rpr_conf"@,
            r.queue@[1]@.priority == Some(200i16),
            r.queue@[1]@.args == Seq::<Seq<char>>::empty(),
    {
        let mut state = State { process_start: now_rfc3339(), inputs, queue: Vec::new() };
        let log_level = Action::new("set_log_level".to_owned()).priority(100).ready();
        state.queue_task(log_level);
        let rpr_conf = Action::new("set_state_from_rpr_conf".to_owned()).priority(200).ready();
        state.queue_task(rpr_conf);
        state
    }

    /// Appends a new task to the queue for processing; nothing else of
    /// the state changes, and the call never fails.
    pub fn queue_task(&mut self, task: Task) -> (r: &State)
        ensures
            final(self).queue@ == old(self).queue@.push(task),
            final(self).process_start == old(self).process_start,
            final(self).inputs == old(self).inputs,
    {
        self.queue.push(task);
        self
    }

    /// Empties the queue and returns its tasks in execution order:
    /// ascending priority, ties broken by insertion order, and tasks
    /// without a priority last, in insertion order among themselves.
    pub fn drain_ready(&mut self) -> (r: Vec<Task>)
        ensures
            final(self).queue@.len() == 0,
            final(self).process_start == old(self).process_start,
            final(self).inputs == old(self).inputs,
            r@.len() == old(self).queue@.len(),
            sorted_by_priority(task_views(r@)),
            forall|k: int| #[trigger]
                with_key(task_views(r@), k) == with_key(task_views(old(self).queue@), k),
    {
        let ghost orig = self.queue@;
        let mut out: Vec<Task> = Vec::new();
        let ghost mut i: int = 0;
        proof {
            assert(orig.subrange(0, orig.len() as int) =~= orig);
            assert(task_views(out@) =~= Seq::<TaskView>::empty());
            assert forall|k: int| #[trigger]
                with_key(task_views(out@), k) == with_key(
                    task_views(orig.subrange(0, 0)),
                    k,
                ) by {
                lemma_filter_none(task_views(out@), |t: TaskView| prio_key(t) == k);
                assert(task_views(orig.subrange(0, 0)) =~= Seq::<TaskView>::empty());
                lemma_filter_none(task_views(orig.subrange(0, 0)), |t: TaskView| prio_key(t) == k);
            }
        }
        while self.queue.len() > 0
            invariant
                0 <= i <= orig.len(),
                self.queue@ == orig.subrange(i, orig.len() as int),
                out@.len() == i,
                self.process_start == old(self).process_start,
                self.inputs == old(self).inputs,
                sorted_by_priority(task_views(out@)),
                forall|k: int| #[trigger]
                    with_key(task_views(out@), k) == with_key(
                        task_views(orig.subrange(0, i)),
                        k,
                    ),
            decreases self.queue@.len(),
        {
            let t = self.queue.remove(0);
            proof {
                assert(orig.subrange(i, orig.len() as int)[0] == orig[i]);
                assert(self.queue@ =~= orig.subrange(i + 1, orig.len() as int)) by {
                    assert(self.queue@ == orig.subrange(i, orig.len() as int).remove(0));
                }
            }
            let kt = key_of(&t);
            let mut p: usize = out.len();
            while p > 0 && key_of(&out[p - 1]) > kt
                invariant
                    p <= out.len(),
                    kt as int == prio_key(t@),
                    forall|j: int|
                        p <= j < out@.len() ==> prio_key(#[trigger] task_views(out@)[j]) > kt as int,
                decreases p,
            {
                proof {
                    assert(task_views(out@)[p - 1] == out@[p - 1]@);
                }
                p = p - 1;
            }
            proof {
                if p > 0 {
                    assert(task_views(out@)[p - 1] == out@[p - 1]@);
                }
            }
            let ghost pre_out = out@;
            let ghost ov = task_views(out@);
            let ghost tv = t@;
            let ghost kti = prio_key(tv);
            out.insert(p, t);
            proof {
                let prev = ov;
                let nv = task_views(out@);
                assert(out@ == pre_out.insert(p as int, t));
                lemma_task_views_insert(pre_out, p as int, t);
                assert(nv == prev.insert(p as int, tv));
                let pa = prev.subrange(0, p as int);
                let pc = prev.subrange(p as int, prev.len() as int);
                assert(nv =~= pa + seq![tv] + pc) by {
                    assert(prev.insert(p as int, tv) == prev.subrange(0, p as int).push(tv)
                        + prev.subrange(p as int, prev.len() as int));
                    assert(prev.subrange(0, p as int).push(tv) =~= pa + seq![tv]);
                }
                assert(prev =~= pa + pc);
                // sortedness
                prev.insert_ensures(p as int, tv);
                assert forall|a: int, b: int|
                    0 <= a < b < nv.len() implies prio_key(nv[a]) <= prio_key(nv[b]) by {
                    if p > 0 {
                        assert(prio_key(prev[p - 1]) <= kti);
                    }
                    assert forall|j: int| 0 <= j < p implies prio_key(prev[j]) <= kti by {
                        if j < p - 1 {
                            assert(prio_key(prev[j]) <= prio_key(prev[p - 1]));
                        }
                    }
                    if a < p && b < p {
                    } else if a < p && b == p {
                        assert(nv[a] == prev[a] && nv[b] == tv);
                    } else if a < p && b > p {
                        assert(nv[a] == prev[a] && nv[(b - 1) + 1] == prev[b - 1]);
                    } else if a == p && b > p {
                        assert(nv[a] == tv && nv[(b - 1) + 1] == prev[b - 1]);
                        assert(prio_key(prev[b - 1]) > kti);
                    } else {
                        assert(nv[(a - 1) + 1] == prev[a - 1] && nv[(b - 1) + 1] == prev[b - 1]);
                    }
                }
                // stable filter preservation
                let pre_seq = task_views(orig.subrange(0, i));
                let pre_seq2 = task_views(orig.subrange(0, i + 1));
                assert(pre_seq2 =~= pre_seq.push(tv)) by {
                    assert(orig.subrange(0, i + 1) =~= orig.subrange(0, i).push(orig[i]));
                    lemma_task_views_push_seq(orig.subrange(0, i), orig[i]);
                }
                assert forall|k: int| #[trigger]
                    with_key(nv, k) == with_key(pre_seq2, k) by {
                    let pred = |x: TaskView| prio_key(x) == k;
                    Seq::<TaskView>::filter_distributes_over_add(pa + seq![tv], pc, pred);
                    Seq::<TaskView>::filter_distributes_over_add(pa, seq![tv], pred);
                    Seq::<TaskView>::filter_distributes_over_add(pa, pc, pred);
                    Seq::<TaskView>::filter_distributes_over_add(pre_seq, seq![tv], pred);
                    assert(pre_seq.push(tv) =~= pre_seq + seq![tv]);
                    lemma_filter_singleton(tv, pred);
                    assert(with_key(prev, k) == with_key(pre_seq, k));
                    if k == kti {
                        lemma_filter_none(pc, pred);
                        assert(pa.filter(pred) + seq![tv].filter(pred) + pc.filter(pred) =~= (
                        pa + pc).filter(pred) + seq![tv]) by {
                            assert(pc.filter(pred) =~= Seq::<TaskView>::empty());
                            assert(pa.filter(pred) + seq![tv] + Seq::<TaskView>::empty() =~= pa
                                .filter(pred) + pc.filter(pred) + seq![tv]);
                        }
                        assert(with_key(nv, k) == with_key(pre_seq2, k));
                    } else {
                        assert(seq![tv].filter(pred) =~= Seq::<TaskView>::empty());
                        assert(pa.filter(pred) + Seq::<TaskView>::empty() + pc.filter(pred) =~= pa
                            .filter(pred) + pc.filter(pred));
                        assert(pre_seq.filter(pred) + Seq::<TaskView>::empty() =~= pre_seq.filter(
                            pred,
                        ));
                        assert(with_key(nv, k) == with_key(pre_seq2, k));
                    }
                }
                i = i + 1;
            }
        }
        proof {
            assert(orig.subrange(0, orig.len() as int) =~= orig);
        }
        out
    }
}

/// A command a task can trigger: the fixed table of handlers the
/// dispatcher knows.
#[derive(Debug, Clone, Copy, PartialEq, Eq, Structural)]
pub enum Command {
    /// Adjust the logging verbosity.
    SetLogLevel,
    /// Load the configuration file and merge it into the state.
    SetStateFromRprConf,
}

/// The terminal state of one dispatched task: dispatched to its handler,
/// or failed with the reason recorded.
#[derive(Debug, Clone, Copy, PartialEq, Eq, Structural)]
pub enum TaskOutcome {
    /// The command name matched a handler.
    Dispatched(Command),
    /// The task failed; the reason is recorded.
    Failed(RprError),
}

/// The handler a command name designates, if any.
pub open spec fn command_of(cmd: Seq<char>) -> Option<Command> {
    if cmd == "set_log_level"@ {
        Some(Command::SetLogLevel)
    } else if cmd == "set_state_from_rpr_conf"@ {
        Some(Command::SetStateFromRprConf)
    } else {
        None
    }
}

/// The outcome dispatching one task must record: its handler, or an
/// unknown-command failure.
pub open spec fn dispatch_spec(t: TaskView) -> TaskOutcome {
    match command_of(t.cmd) {
        Some(c) => TaskOutcome::Dispatched(c),
        None => TaskOutcome::Failed(RprError::UnknownCommand),
    }
}

/// Looks a command name up in the handler table.
pub fn lookup_command(cmd: &String) -> (r: Option<Command>)
    ensures
        r == command_of(cmd@),
{
    let a = "set_log_level".to_owned();
    if cmd.eq(&a) {
        Some(Command::SetLogLevel)
    } else {
        let b = "set_state_from_rpr_conf".to_owned();
        if cmd.eq(&b) {
            Some(Command::SetStateFromRprConf)
        } else {
            None
        }
    }
}

/// Resolves each task of a drained queue against the handler table, in
/// order. A task whose command name matches no handler is recorded as an
/// unknown-command failure, and every remaining task is still resolved:
/// one bad task never blocks the others.
pub fn dispatch_plan(tasks: &Vec<Task>) -> (r: Vec<TaskOutcome>)
    ensures
        r@.len() == tasks@.len(),
        forall|j: int| 0 <= j < tasks@.len() ==> r@[j] == dispatch_spec(#[trigger] tasks@[j]@),
{
    let mut r: Vec<TaskOutcome> = Vec::new();
    let mut i: usize = 0;
    while i < tasks.len()
        invariant
            i <= tasks.len(),
            r@.len() == i,
            forall|j: int| 0 <= j < i ==> r@[j] == dispatch_spec(#[trigger] tasks@[j]@),
        decreases tasks.len() - i,
    {
        let outcome = match lookup_command(tasks[i].cmd()) {
            Some(c) => TaskOutcome::Dispatched(c),
            None => TaskOutcome::Failed(RprError::UnknownCommand),
        };
        r.push(outcome);
        i = i + 1;
    }
    r
}

/// The views of a sequence of tasks with one pushed are the views with
/// that task's view pushed.
proof fn lemma_task_views_push_seq(s: Seq<Task>, t: Task)
    ensures
        task_views(s.push(t)) == task_views(s).push(t@),
{
    let l = task_views(s.push(t));
    let r = task_views(s).push(t@);
    assert forall|j: int| 0 <= j < l.len() implies l[j] == r[j] by {
        if j < s.len() {
            assert(s.push(t)[j] == s[j]);
        } else {
            assert(s.push(t)[j] == t);
        }
    }
    assert(l =~= r);
}

} // verus!
