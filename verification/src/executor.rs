//! The executor as a state machine: it hands out the levels of a task graph
//! one at a time, takes back what became of each task, and stops handing
//! out levels after the first level in which a task failed. Running the
//! tasks is the caller's part.

use vstd::prelude::*;
use vstd::string::StringExecFns;
use std::time::Duration;
use crate::cache::BuildCache;
use crate::dag::{level_texts, validation, Task, TaskAction, TaskGraph};
use crate::text::texts;
use crate::error::{ForgeError, ForgeResult};
use crate::level_order::is_level_order;

verus! {

/// What became of one task.
#[derive(Debug)]
pub struct TaskResult {
    pub name: String,
    /// Whether the task ended well.
    pub success: bool,
    /// How long it ran.
    pub duration: Duration,
    pub stdout: String,
    pub stderr: String,
    /// Whether the task was skipped because its result was known.
    pub cached: bool,
}

/// What became of a build.
#[derive(Debug)]
pub struct BuildResult {
    /// The results of the tasks that produced one, in the order reported.
    pub tasks: Vec<TaskResult>,
    pub total_duration: Duration,
    /// Whether every task that was started ended well.
    pub success: bool,
}

/// What the caller reports for one task of a level.
#[derive(Debug)]
pub enum TaskOutcome {
    /// The task ran to its end, well or not.
    Completed(TaskResult),
    /// The task could not be run.
    Failed(ForgeError),
    /// The unit that ran the task broke off; the text says how.
    Crashed(String),
}

/// Where a build stands.
#[derive(Debug, Clone, Copy, PartialEq, Eq)]
pub enum Phase {
    /// No level was handed out yet.
    Pending,
    /// The level of this index is the next to run, and earlier ones ran well.
    Running(usize),
    /// No level is left to run, or one failed; the flag is the result.
    Finished(bool),
}

/// What is to be done for a task.
#[derive(Debug, Clone, PartialEq, Eq)]
pub enum Step {
    /// Run this shell command in the project directory.
    RunCommand(String),
    /// Nothing to run: the task ends well at once, with no output.
    Nothing,
}

/// What the operating system reported for a command that was started.
#[derive(Debug, Clone)]
pub struct CommandOutput {
    /// Whether the exit status was zero.
    pub success: bool,
    pub stdout: String,
    pub stderr: String,
}

/// Why a command could not be started.
#[derive(Debug, Clone)]
pub struct SpawnFailure {
    /// Whether the program was not found.
    pub not_found: bool,
    /// The system's message.
    pub message: String,
}

/// An event of the progress stream.
#[derive(Debug, Clone)]
pub enum ForgeEvent {
    TaskStarted { name: String },
    TaskFinished { name: String, time_ms: u64, cached: bool, cache_source: Option<String> },
    LogMessage { level: String, text: String },
}

/// Whether the outcome is a task that ended well.
pub open spec fn went_well(o: TaskOutcome) -> bool {
    o matches TaskOutcome::Completed(r) && r.success
}

/// Whether all outcomes are tasks that ended well.
pub open spec fn all_well(outcomes: Seq<TaskOutcome>) -> bool {
    forall|i: int| 0 <= i < outcomes.len() ==> went_well(#[trigger] outcomes[i])
}

/// The results among the outcomes, in their order.
pub open spec fn results_of(outcomes: Seq<TaskOutcome>) -> Seq<TaskResult>
    decreases outcomes.len(),
{
    if outcomes.len() == 0 {
        Seq::empty()
    } else {
        let rest = results_of(outcomes.drop_last());
        match outcomes.last() {
            TaskOutcome::Completed(r) => rest.push(r),
            _ => rest,
        }
    }
}

/// The message of the error for a command that failed to start for another
/// reason than not being found.
pub open spec fn spawn_error_text(command: Seq<char>, message: Seq<char>) -> Seq<char> {
    "Error al ejecutar '"@ + command + "': "@ + message
}

/// What is to be done for `task`: a command is to be run; built-in and
/// composite tasks run nothing.
pub fn task_step(task: &Task) -> (step: Step)
    ensures
        match task.action {
            TaskAction::Command(c) => step matches Step::RunCommand(s) && s@ == c@,
            _ => step == Step::Nothing,
        },
{
    match &task.action {
        TaskAction::Command(c) => Step::RunCommand(c.clone()),
        TaskAction::Internal(_) => Step::Nothing,
        TaskAction::Composite => Step::Nothing,
    }
}

/// What a command that was started, or failed to start, means for its task:
/// its exit status and output, or the error to report.
pub fn command_outcome(command: &str, working_dir: &str, spawned: Result<CommandOutput, SpawnFailure>) -> (r:
    ForgeResult<(bool, String, String)>)
    ensures
        match spawned {
            Ok(out) => r matches Ok(t) && t.0 == out.success && t.1 == out.stdout && t.2 == out.stderr,
            Err(f) => if f.not_found {
                r matches Err(ForgeError::CommandNotFound { command: c }) && c@ == command@
            } else {
                r matches Err(ForgeError::IoError { path, message }) && path@ == working_dir@ && message@
                    == spawn_error_text(command@, f.message@)
            },
        },
{
    match spawned {
        Ok(out) => Ok((out.success, out.stdout, out.stderr)),
        Err(f) => {
            if f.not_found {
                Err(ForgeError::CommandNotFound { command: String::from_str(command) })
            } else {
                let mut message = String::from_str("Error al ejecutar '");
                message.append(command);
                message.append("': ");
                message.append(f.message.as_str());
                Err(ForgeError::IoError { path: String::from_str(working_dir), message })
            }
        },
    }
}

/// The result of a task from what running it gave.
pub fn task_result(task: &Task, ran: (bool, String, String), duration: Duration) -> (r: TaskResult)
    ensures
        r.name@ == task.name@,
        r.success == ran.0,
        r.stdout == ran.1,
        r.stderr == ran.2,
        r.duration == duration,
        !r.cached,
{
    TaskResult {
        name: task.name.clone(),
        success: ran.0,
        duration,
        stdout: ran.1,
        stderr: ran.2,
        cached: false,
    }
}

/// How many lines of a failed task's error output are shown.
pub const EXCERPT_LINES: usize = 20;

/// The lines of error output to show for a task: the first twenty of a
/// task that failed, none of a task that ended well.
pub open spec fn excerpt_of(result: TaskResult) -> Seq<Seq<char>> {
    if result.success {
        Seq::empty()
    } else {
        crate::text::lines_of(result.stderr@, EXCERPT_LINES as nat)
    }
}

/// The lines of error output to show for a task.
pub fn failure_excerpt(result: &TaskResult) -> (lines: Vec<String>)
    ensures
        texts(lines@) == excerpt_of(*result),
{
    if result.success {
        let lines: Vec<String> = Vec::new();
        lines
    } else {
        crate::text::first_lines(result.stderr.as_str(), EXCERPT_LINES)
    }
}

/// The event that tells that the task called `name` starts.
pub fn started_event(name: &str) -> (e: ForgeEvent)
    ensures
        e matches ForgeEvent::TaskStarted { name: n } && n@ == name@,
{
    ForgeEvent::TaskStarted { name: String::from_str(name) }
}

/// The event that tells how a task ended.
pub fn finished_event(result: &TaskResult, time_ms: u64) -> (e: ForgeEvent)
    ensures
        e matches ForgeEvent::TaskFinished { name, time_ms: t, cached, cache_source } && name@ == result.name@ && t
            == time_ms && cached == result.cached && cache_source is None,
{
    ForgeEvent::TaskFinished { name: result.name.clone(), time_ms, cached: result.cached, cache_source: None }
}

/// A build in progress.
#[derive(Debug)]
pub struct BuildRun {
    levels: Vec<Vec<String>>,
    started: usize,
    results: Vec<TaskResult>,
    success: bool,
}

impl BuildRun {
    #[verifier::type_invariant]
    spec fn within_levels(self) -> bool {
        self.started <= self.levels@.len()
    }

    /// The levels of the build, as task names.
    pub closed spec fn levels(self) -> Seq<Seq<Seq<char>>> {
        level_texts(self.levels@)
    }

    /// How many levels were handed out and reported.
    pub closed spec fn started(self) -> nat {
        self.started as nat
    }

    /// The results gathered so far.
    pub closed spec fn results(self) -> Seq<TaskResult> {
        self.results@
    }

    /// Whether every outcome so far was a task that ended well.
    pub closed spec fn success(self) -> bool {
        self.success
    }

    /// Whether a level is still to run: none failed and one is left.
    pub open spec fn is_running(self) -> bool {
        self.success() && self.started() < self.levels().len()
    }

    /// Where the build stands.
    pub fn phase(&self) -> (p: Phase)
        ensures
            self.started() <= self.levels().len(),
            p == if !self.is_running() {
                Phase::Finished(self.success())
            } else if self.started() == 0 {
                Phase::Pending
            } else {
                Phase::Running(self.started() as usize)
            },
    {
        proof {
            use_type_invariant(self);
        }
        if !self.success || self.started >= self.levels.len() {
            Phase::Finished(self.success)
        } else if self.started == 0 {
            Phase::Pending
        } else {
            Phase::Running(self.started)
        }
    }

    /// The tasks of the level to run next: all of them are to be started
    /// together. None when a task failed or no level is left.
    pub fn next_level(&self) -> (level: Option<&Vec<String>>)
        ensures
            self.is_running() <==> level is Some,
            level matches Some(names) ==> texts(names@) == self.levels()[self.started() as int],
    {
        if self.success && self.started < self.levels.len() {
            Some(&self.levels[self.started])
        } else {
            None
        }
    }

    /// Takes what became of the tasks of the level that was handed out: the
    /// results are kept in the order given, and the build goes on to the
    /// next level only if every task of this one ended well. A build that
    /// is finished takes nothing more.
    pub fn record_level(&mut self, outcomes: Vec<TaskOutcome>)
        ensures
            final(self).levels() == old(self).levels(),
            old(self).is_running() ==> {
                &&& final(self).started() == old(self).started() + 1
                &&& final(self).results() == old(self).results() + results_of(outcomes@)
                &&& final(self).success() == all_well(outcomes@)
            },
            !old(self).is_running() ==> {
                &&& final(self).started() == old(self).started()
                &&& final(self).results() == old(self).results()
                &&& final(self).success() == old(self).success()
            },
    {
        if !self.success || self.started >= self.levels.len() {
            return ;
        }
        let ghost all = outcomes@;
        let next = self.started + 1;
        let mut well = true;
        let mut gathered: Vec<TaskResult> = Vec::new();
        let mut outcomes = outcomes;
        let mut taken: Vec<TaskOutcome> = Vec::new();
        // the outcomes are taken from the end; `taken` holds them reversed
        while outcomes.len() > 0
            invariant
                outcomes@.len() + taken@.len() == all.len(),
                forall|i: int| 0 <= i < outcomes@.len() ==> outcomes@[i] == all[i],
                forall|i: int| 0 <= i < taken@.len() ==> taken@[i] == all[all.len() - 1 - i],
            decreases outcomes.len(),
        {
            let o = outcomes.pop();
            match o {
                Some(o) => {
                    taken.push(o);
                },
                None => {},
            }
        }
        let ghost n = all.len();
        while taken.len() > 0
            invariant
                taken@.len() <= n,
                n == all.len(),
                forall|i: int| 0 <= i < taken@.len() ==> taken@[i] == all[n - 1 - i],
                gathered@ == results_of(all.take(n - taken@.len())),
                well == all_well(all.take(n - taken@.len())),
            decreases taken.len(),
        {
            let ghost k = n - taken@.len();
            let o = taken.pop();
            proof {
                assert(all.take(k + 1).drop_last() =~= all.take(k));
            }
            match o {
                Some(TaskOutcome::Completed(result)) => {
                    if !result.success {
                        well = false;
                    }
                    gathered.push(result);
                },
                Some(_) => {
                    well = false;
                },
                None => {},
            }
        }
        proof {
            assert(all.take(n as int) =~= all);
        }
        let mut held: Vec<TaskResult> = Vec::new();
        std::mem::swap(&mut self.results, &mut held);
        held.append(&mut gathered);
        std::mem::swap(&mut self.results, &mut held);
        self.success = well;
        self.started = next;
    }

    /// Ends the build: the results gathered, the time it took, and whether
    /// every task that was started ended well.
    pub fn finish(self, total_duration: Duration) -> (r: BuildResult)
        ensures
            r.tasks@ == self.results(),
            r.success == self.success(),
            r.total_duration == total_duration,
    {
        BuildResult { tasks: self.results, total_duration, success: self.success }
    }
}

/// Runs the builds of one project.
#[derive(Debug)]
pub struct Executor {
    project_dir: String,
    cache: BuildCache,
    verbose: bool,
}

impl Executor {
    /// The project directory.
    pub closed spec fn dir(self) -> Seq<char> {
        self.project_dir@
    }

    /// The cache that the executor holds.
    pub closed spec fn held_cache(self) -> BuildCache {
        self.cache
    }

    /// Whether output is verbose.
    pub closed spec fn is_verbose(self) -> bool {
        self.verbose
    }

    /// An executor for the project in `project_dir` with its loaded cache.
    pub fn new(project_dir: &str, cache: BuildCache, verbose: bool) -> (e: Self)
        ensures
            e.dir() == project_dir@,
            e.held_cache() == cache,
            e.is_verbose() == verbose,
    {
        Executor { project_dir: String::from_str(project_dir), cache, verbose }
    }

    /// Starts a build of `graph`: validates it and lays out its levels.
    pub fn execute(&self, graph: &TaskGraph) -> (r: ForgeResult<BuildRun>)
        ensures
            match r {
                Ok(run) => {
                    &&& validation(graph@, Ok(()))
                    &&& is_level_order(graph@, run.levels())
                    &&& run.started() == 0
                    &&& run.results() == Seq::<TaskResult>::empty()
                    &&& run.success()
                },
                Err(e) => validation(graph@, Err(e)),
            },
    {
        match graph.parallel_levels() {
            Ok(levels) => Ok(BuildRun { levels, started: 0, results: Vec::new(), success: true }),
            Err(e) => Err(e),
        }
    }

    /// The project directory.
    pub fn project_dir(&self) -> (d: &String)
        ensures
            d@ == self.dir(),
    {
        &self.project_dir
    }

    /// Whether output is verbose.
    pub fn verbose(&self) -> (v: bool)
        ensures
            v == self.is_verbose(),
    {
        self.verbose
    }

    /// The cache, to read.
    pub fn cache(&self) -> (c: &BuildCache)
        ensures
            *c == self.held_cache(),
    {
        &self.cache
    }

    /// The cache, to update.
    pub fn cache_mut(&mut self) -> (c: &mut BuildCache)
        ensures
            *c == old(self).held_cache(),
            final(self).held_cache() == *final(c),
            final(self).dir() == old(self).dir(),
            final(self).is_verbose() == old(self).is_verbose(),
    {
        &mut self.cache
    }
}

} // verus!
