use forge::cache::BuildCache;
use forge::dag::{InternalTask, Task, TaskAction, TaskGraph};
use forge::error::ForgeError;
use forge::executor::{
    command_outcome, finished_event, started_event, task_result, task_step, CommandOutput, Executor, ForgeEvent,
    Phase, SpawnFailure, Step, TaskOutcome, TaskResult,
};
use std::time::Duration;

fn task(name: &str, deps: &[&str], action: TaskAction) -> Task {
    Task {
        name: name.to_string(),
        description: String::new(),
        depends_on: deps.iter().map(|s| s.to_string()).collect(),
        action,
    }
}

fn result(name: &str, success: bool) -> TaskResult {
    TaskResult {
        name: name.to_string(),
        success,
        duration: Duration::from_millis(5),
        stdout: String::new(),
        stderr: if success { String::new() } else { "boom".to_string() },
        cached: false,
    }
}

fn sample_graph() -> TaskGraph {
    let mut graph = TaskGraph::new();
    graph.add_task(task("clean", &[], TaskAction::Internal(InternalTask::Clean))).unwrap();
    graph.add_task(task("compile", &["clean"], TaskAction::Internal(InternalTask::Compile))).unwrap();
    graph.add_task(task("test", &["compile"], TaskAction::Command("run-tests".to_string()))).unwrap();
    graph.add_task(task("lint", &["compile"], TaskAction::Command("run-lint".to_string()))).unwrap();
    graph.add_task(task("package", &["test", "lint"], TaskAction::Composite)).unwrap();
    graph
}

#[test]
fn build_walks_the_levels_in_order() {
    let executor = Executor::new("/tmp/project", BuildCache::fresh(), false);
    let mut run = executor.execute(&sample_graph()).unwrap();
    assert_eq!(run.phase(), Phase::Pending);
    assert_eq!(run.next_level().unwrap(), &vec!["clean".to_string()]);
    run.record_level(vec![TaskOutcome::Completed(result("clean", true))]);
    assert_eq!(run.phase(), Phase::Running(1));
    assert_eq!(run.next_level().unwrap(), &vec!["compile".to_string()]);
    run.record_level(vec![TaskOutcome::Completed(result("compile", true))]);
    assert_eq!(run.phase(), Phase::Running(2));
    assert_eq!(run.next_level().unwrap(), &vec!["test".to_string(), "lint".to_string()]);
    run.record_level(vec![
        TaskOutcome::Completed(result("test", true)),
        TaskOutcome::Completed(result("lint", true)),
    ]);
    assert_eq!(run.next_level().unwrap(), &vec!["package".to_string()]);
    run.record_level(vec![TaskOutcome::Completed(result("package", true))]);
    assert_eq!(run.phase(), Phase::Finished(true));
    assert!(run.next_level().is_none());
    let build = run.finish(Duration::from_secs(1));
    assert!(build.success);
    assert_eq!(build.total_duration, Duration::from_secs(1));
    let names: Vec<&str> = build.tasks.iter().map(|t| t.name.as_str()).collect();
    assert_eq!(names, vec!["clean", "compile", "test", "lint", "package"]);
}

#[test]
fn failure_in_a_level_keeps_both_results_and_stops_the_build() {
    let executor = Executor::new("/tmp/project", BuildCache::fresh(), false);
    let mut run = executor.execute(&sample_graph()).unwrap();
    run.record_level(vec![TaskOutcome::Completed(result("clean", true))]);
    run.record_level(vec![TaskOutcome::Completed(result("compile", true))]);
    run.record_level(vec![
        TaskOutcome::Completed(result("test", false)),
        TaskOutcome::Completed(result("lint", true)),
    ]);
    assert_eq!(run.phase(), Phase::Finished(false));
    assert!(run.next_level().is_none());
    // a finished build takes nothing more
    run.record_level(vec![TaskOutcome::Completed(result("package", true))]);
    assert_eq!(run.phase(), Phase::Finished(false));
    let build = run.finish(Duration::from_millis(30));
    assert!(!build.success);
    let names: Vec<(&str, bool)> = build.tasks.iter().map(|t| (t.name.as_str(), t.success)).collect();
    assert_eq!(names, vec![("clean", true), ("compile", true), ("test", false), ("lint", true)]);
    assert_eq!(build.tasks[2].stderr, "boom");
}

#[test]
fn task_that_could_not_run_fails_the_build_without_a_result() {
    let executor = Executor::new("/tmp/project", BuildCache::fresh(), true);
    let mut run = executor.execute(&sample_graph()).unwrap();
    run.record_level(vec![TaskOutcome::Failed(ForgeError::CommandNotFound { command: "javac".to_string() })]);
    assert_eq!(run.phase(), Phase::Finished(false));
    let build = run.finish(Duration::from_millis(1));
    assert!(!build.success);
    assert!(build.tasks.is_empty());
}

#[test]
fn crashed_unit_fails_the_build() {
    let executor = Executor::new("/tmp/project", BuildCache::fresh(), true);
    let mut run = executor.execute(&sample_graph()).unwrap();
    run.record_level(vec![TaskOutcome::Crashed("task panicked".to_string())]);
    assert_eq!(run.phase(), Phase::Finished(false));
}

#[test]
fn cached_result_counts_by_its_success_flag() {
    let executor = Executor::new("/tmp/project", BuildCache::fresh(), true);
    let mut run = executor.execute(&sample_graph()).unwrap();
    let mut cached = result("clean", true);
    cached.cached = true;
    run.record_level(vec![TaskOutcome::Completed(cached)]);
    assert_eq!(run.phase(), Phase::Running(1));
}

#[test]
fn empty_graph_is_finished_at_once() {
    let executor = Executor::new("/tmp/project", BuildCache::fresh(), false);
    let run = executor.execute(&TaskGraph::new()).unwrap();
    assert_eq!(run.phase(), Phase::Finished(true));
    assert!(run.next_level().is_none());
    let build = run.finish(Duration::from_millis(0));
    assert!(build.success);
    assert!(build.tasks.is_empty());
}

#[test]
fn invalid_graph_never_starts() {
    let mut graph = TaskGraph::new();
    graph.add_task(task("a", &["b"], TaskAction::Composite)).unwrap();
    graph.add_task(task("b", &["a"], TaskAction::Composite)).unwrap();
    let executor = Executor::new("/tmp/project", BuildCache::fresh(), false);
    match executor.execute(&graph) {
        Err(ForgeError::CyclicDependency { cycle }) => assert_eq!(cycle, "a → b → a"),
        other => panic!("unexpected: {:?}", other.map(|_| ())),
    }
}

#[test]
fn executor_hands_out_its_parts() {
    let mut executor = Executor::new("/work/app", BuildCache::fresh(), true);
    assert_eq!(executor.project_dir(), "/work/app");
    assert!(executor.verbose());
    assert_eq!(executor.cache().version, 1);
    executor.cache_mut().version = 7;
    executor.cache_mut().last_build_timestamp = Some(9);
    assert_eq!(executor.cache().version, 7);
    assert_eq!(executor.cache().last_build_timestamp, Some(9));
    assert_eq!(executor.project_dir(), "/work/app");
}

#[test]
fn commands_are_run_and_other_tasks_are_not() {
    assert_eq!(
        task_step(&task("t", &[], TaskAction::Command("echo hi".to_string()))),
        Step::RunCommand("echo hi".to_string())
    );
    assert_eq!(task_step(&task("t", &[], TaskAction::Internal(InternalTask::Compile))), Step::Nothing);
    assert_eq!(task_step(&task("t", &[], TaskAction::Composite)), Step::Nothing);
}

#[test]
fn command_outcome_passes_output_on() {
    let out = CommandOutput { success: false, stdout: "out".to_string(), stderr: "err".to_string() };
    assert_eq!(
        command_outcome("make", "/p", Ok(out)).unwrap(),
        (false, "out".to_string(), "err".to_string())
    );
}

#[test]
fn command_outcome_tells_missing_program_from_other_failures() {
    let missing = SpawnFailure { not_found: true, message: "No such file".to_string() };
    assert_eq!(
        command_outcome("javac Main.java", "/p", Err(missing)),
        Err(ForgeError::CommandNotFound { command: "javac Main.java".to_string() })
    );
    let denied = SpawnFailure { not_found: false, message: "Permission denied".to_string() };
    assert_eq!(
        command_outcome("make", "/p", Err(denied)),
        Err(ForgeError::IoError {
            path: "/p".to_string(),
            message: "Error al ejecutar 'make': Permission denied".to_string()
        })
    );
}

#[test]
fn task_result_takes_what_running_gave() {
    let t = task("compile", &[], TaskAction::Command("javac".to_string()));
    let r = task_result(&t, (true, "ok".to_string(), "warn".to_string()), Duration::from_millis(12));
    assert_eq!(r.name, "compile");
    assert!(r.success);
    assert_eq!(r.stdout, "ok");
    assert_eq!(r.stderr, "warn");
    assert_eq!(r.duration, Duration::from_millis(12));
    assert!(!r.cached);
}

#[test]
fn events_carry_name_time_and_cached_flag() {
    match started_event("compile") {
        ForgeEvent::TaskStarted { name } => assert_eq!(name, "compile"),
        other => panic!("unexpected: {:?}", other),
    }
    let mut r = result("compile", true);
    r.cached = true;
    match finished_event(&r, 1234) {
        ForgeEvent::TaskFinished { name, time_ms, cached, cache_source } => {
            assert_eq!(name, "compile");
            assert_eq!(time_ms, 1234);
            assert!(cached);
            assert_eq!(cache_source, None);
        },
        other => panic!("unexpected: {:?}", other),
    }
}
