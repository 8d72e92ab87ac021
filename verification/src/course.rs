//! The course of one build as a state machine: the local cache is asked
//! first, then the distributed cache, and only then the project is built,
//! its hashes stored and the result pushed. The caller does each step and
//! reports how it ended.

use vstd::prelude::*;

verus! {

/// How a build ended.
#[derive(Debug, Clone, Copy, PartialEq, Eq, Structural)]
pub enum BuildOutcome {
    /// Nothing had changed; nothing was done.
    UpToDate,
    /// The output was fetched from the distributed cache.
    Restored,
    /// The project was built here.
    Built,
    /// A step failed.
    Failed,
}

/// What the caller is to do next.
#[derive(Debug, Clone, Copy, PartialEq, Eq, Structural)]
pub enum BuildStep {
    /// Ask the cache whether the sources changed.
    CheckChanges,
    /// Store the hashes of the sources as they are, and try to fetch the
    /// output for them from the distributed cache.
    TryRemote,
    /// Save the cache after the output was fetched.
    SaveRestored,
    /// Run the hooks that come before a build.
    PreBuildHooks,
    /// Resolve and fetch the dependencies.
    ResolveDependencies,
    /// Compile the project.
    Compile,
    /// Store the hashes of the sources and save the cache.
    StoreHashes,
    /// Push the output to the distributed cache.
    Upload,
    /// Run the hooks that come after a build, which then ends as given.
    PostBuildHooks(BuildOutcome),
    /// Nothing more.
    Done(BuildOutcome),
}

/// How the step that was asked for ended.
#[derive(Debug, Clone, Copy, PartialEq, Eq, Structural)]
pub enum StepReport {
    /// The sources changed, or did not.
    Changes(bool),
    /// The distributed cache had the output and it was restored, or not.
    Remote(bool),
    /// The step was done.
    Finished,
    /// The step failed.
    Broke,
}

/// What a build depends on besides its steps.
#[derive(Debug, Clone, Copy, PartialEq, Eq, Structural)]
pub struct BuildSettings {
    /// Whether a distributed cache is configured.
    pub has_remote: bool,
    /// Whether the project names dependencies.
    pub has_dependencies: bool,
}

/// The step that follows the hooks before a build.
pub open spec fn after_hooks(settings: BuildSettings) -> BuildStep {
    if settings.has_dependencies {
        BuildStep::ResolveDependencies
    } else {
        BuildStep::Compile
    }
}

/// The step that follows `step` when it ended as `report` says. A step that
/// broke, and a report that does not answer the step, end the build as
/// failed.
pub open spec fn following(settings: BuildSettings, step: BuildStep, report: StepReport) -> BuildStep {
    match (step, report) {
        (BuildStep::CheckChanges, StepReport::Changes(false)) => BuildStep::Done(BuildOutcome::UpToDate),
        (BuildStep::CheckChanges, StepReport::Changes(true)) => if settings.has_remote {
            BuildStep::TryRemote
        } else {
            BuildStep::PreBuildHooks
        },
        (BuildStep::TryRemote, StepReport::Remote(true)) => BuildStep::SaveRestored,
        (BuildStep::TryRemote, StepReport::Remote(false)) => BuildStep::PreBuildHooks,
        (BuildStep::SaveRestored, StepReport::Finished) => BuildStep::PostBuildHooks(BuildOutcome::Restored),
        (BuildStep::PreBuildHooks, StepReport::Finished) => after_hooks(settings),
        (BuildStep::ResolveDependencies, StepReport::Finished) => BuildStep::Compile,
        (BuildStep::Compile, StepReport::Finished) => BuildStep::StoreHashes,
        (BuildStep::StoreHashes, StepReport::Finished) => if settings.has_remote {
            BuildStep::Upload
        } else {
            BuildStep::PostBuildHooks(BuildOutcome::Built)
        },
        (BuildStep::Upload, StepReport::Finished) => BuildStep::PostBuildHooks(BuildOutcome::Built),
        (BuildStep::Upload, StepReport::Broke) => BuildStep::PostBuildHooks(BuildOutcome::Built),
        (BuildStep::PostBuildHooks(outcome), StepReport::Finished) => BuildStep::Done(outcome),
        (BuildStep::Done(outcome), _) => BuildStep::Done(outcome),
        _ => BuildStep::Done(BuildOutcome::Failed),
    }
}

/// The first step of every build.
pub fn first_step() -> (step: BuildStep)
    ensures
        step == BuildStep::CheckChanges,
{
    BuildStep::CheckChanges
}

/// The step to take after `step` ended as `report` says.
pub fn next_step(settings: BuildSettings, step: BuildStep, report: StepReport) -> (next: BuildStep)
    ensures
        next == following(settings, step, report),
{
    match step {
        BuildStep::CheckChanges => match report {
            StepReport::Changes(false) => BuildStep::Done(BuildOutcome::UpToDate),
            StepReport::Changes(true) => if settings.has_remote {
                BuildStep::TryRemote
            } else {
                BuildStep::PreBuildHooks
            },
            _ => BuildStep::Done(BuildOutcome::Failed),
        },
        BuildStep::TryRemote => match report {
            StepReport::Remote(true) => BuildStep::SaveRestored,
            StepReport::Remote(false) => BuildStep::PreBuildHooks,
            _ => BuildStep::Done(BuildOutcome::Failed),
        },
        BuildStep::SaveRestored => match report {
            StepReport::Finished => BuildStep::PostBuildHooks(BuildOutcome::Restored),
            _ => BuildStep::Done(BuildOutcome::Failed),
        },
        BuildStep::PreBuildHooks => match report {
            StepReport::Finished => if settings.has_dependencies {
                BuildStep::ResolveDependencies
            } else {
                BuildStep::Compile
            },
            _ => BuildStep::Done(BuildOutcome::Failed),
        },
        BuildStep::ResolveDependencies => match report {
            StepReport::Finished => BuildStep::Compile,
            _ => BuildStep::Done(BuildOutcome::Failed),
        },
        BuildStep::Compile => match report {
            StepReport::Finished => BuildStep::StoreHashes,
            _ => BuildStep::Done(BuildOutcome::Failed),
        },
        BuildStep::StoreHashes => match report {
            StepReport::Finished => if settings.has_remote {
                BuildStep::Upload
            } else {
                BuildStep::PostBuildHooks(BuildOutcome::Built)
            },
            _ => BuildStep::Done(BuildOutcome::Failed),
        },
        BuildStep::Upload => match report {
            StepReport::Finished => BuildStep::PostBuildHooks(BuildOutcome::Built),
            StepReport::Broke => BuildStep::PostBuildHooks(BuildOutcome::Built),
            _ => BuildStep::Done(BuildOutcome::Failed),
        },
        BuildStep::PostBuildHooks(outcome) => match report {
            StepReport::Finished => BuildStep::Done(outcome),
            _ => BuildStep::Done(BuildOutcome::Failed),
        },
        BuildStep::Done(outcome) => BuildStep::Done(outcome),
    }
}

/// How far a step is from the end of the build, at most.
pub open spec fn steps_left(step: BuildStep) -> nat {
    match step {
        BuildStep::CheckChanges => 9,
        BuildStep::TryRemote => 8,
        BuildStep::SaveRestored => 2,
        BuildStep::PreBuildHooks => 7,
        BuildStep::ResolveDependencies => 6,
        BuildStep::Compile => 5,
        BuildStep::StoreHashes => 4,
        BuildStep::Upload => 3,
        BuildStep::PostBuildHooks(_) => 1,
        BuildStep::Done(_) => 0,
    }
}

/// Every report brings a build that is not done nearer to its end.
pub proof fn lemma_build_ends(settings: BuildSettings, step: BuildStep, report: StepReport)
    requires
        !(step is Done),
    ensures
        steps_left(following(settings, step, report)) < steps_left(step),
{
}

/// The hashes are stored as the last good state only after the project was
/// compiled, and the project is compiled only when the local cache saw
/// changes and the distributed cache, if there is one, had nothing.
pub proof fn lemma_hashes_follow_compilation(settings: BuildSettings, step: BuildStep, report: StepReport)
    ensures
        following(settings, step, report) == BuildStep::StoreHashes ==> step == BuildStep::Compile && report
            == StepReport::Finished,
        following(settings, step, report) == BuildStep::Compile ==> report == StepReport::Finished && (step
            == BuildStep::PreBuildHooks || step == BuildStep::ResolveDependencies),
        following(settings, step, report) == BuildStep::PreBuildHooks ==> (step == BuildStep::CheckChanges && report
            == StepReport::Changes(true) && !settings.has_remote) || (step == BuildStep::TryRemote && report
            == StepReport::Remote(false)),
{
}

/// A failed push to the distributed cache does not fail the build.
pub proof fn lemma_push_failure_is_not_fatal(settings: BuildSettings, report: StepReport)
    requires
        report == StepReport::Finished || report == StepReport::Broke,
    ensures
        following(settings, BuildStep::Upload, report) == BuildStep::PostBuildHooks(BuildOutcome::Built),
{
}

} // verus!
