//! Opening a shell in a shadow's container.
use crate::config::Config;
use crate::devcontainer::{devcontainer_exec, devcontainer_up, running, starting};
use crate::path::FsPath;
use crate::step::{is_run, lemma_passes_into, Action, ActionView, Event};
use crate::text::shown;
use vstd::prelude::*;

verus! {

/// What is to be done next.
#[derive(Clone, Copy, Debug, PartialEq, Eq, Structural)]
pub enum Stage {
    /// Say that the container is started.
    Announcing,
    /// Start the container; where it runs already, that changes nothing.
    StartingContainer,
    /// Run the shell.
    RunningShell,
    /// Nothing.
    Finished(Outcome),
}

/// How the command ended.
#[derive(Clone, Copy, Debug, PartialEq, Eq, Structural)]
pub enum Outcome {
    /// The shell ended, whatever it reported.
    ShellDone,
    ContainerFailed,
    ContainerNotRun,
    ShellNotRun,
}

/// The stage after `stage`. An event that does not answer the stage leaves it as it is.
pub open spec fn after(stage: Stage, event: Event) -> Stage {
    match (stage, event) {
        (Stage::Announcing, Event::Done) => Stage::StartingContainer,
        (Stage::StartingContainer, Event::Done) => Stage::RunningShell,
        (Stage::StartingContainer, Event::No) => Stage::Finished(Outcome::ContainerFailed),
        (Stage::StartingContainer, Event::Failed) => Stage::Finished(Outcome::ContainerNotRun),
        (Stage::RunningShell, Event::Done | Event::No) => Stage::Finished(Outcome::ShellDone),
        (Stage::RunningShell, Event::Failed) => Stage::Finished(Outcome::ShellNotRun),
        _ => stage,
    }
}

/// Open a shell in an existing shadow's devcontainer: the stage that follows.
pub fn run(stage: Stage, event: Event) -> (res: Stage)
    ensures
        res == after(stage, event),
{
    match (stage, event) {
        (Stage::Announcing, Event::Done) => Stage::StartingContainer,
        (Stage::StartingContainer, Event::Done) => Stage::RunningShell,
        (Stage::StartingContainer, Event::No) => Stage::Finished(Outcome::ContainerFailed),
        (Stage::StartingContainer, Event::Failed) => Stage::Finished(Outcome::ContainerNotRun),
        (Stage::RunningShell, Event::Done | Event::No) => Stage::Finished(Outcome::ShellDone),
        (Stage::RunningShell, Event::Failed) => Stage::Finished(Outcome::ShellNotRun),
        _ => stage,
    }
}

/// What is to be done at `stage`.
pub open spec fn acts(stage: Stage, shadow: Seq<u8>, command: Seq<Seq<char>>) -> ActionView {
    match stage {
        Stage::Announcing => ActionView::Say("Starting devcontainer..."@),
        Stage::StartingContainer => ActionView::StartContainer(shadow, starting(shadow)),
        Stage::RunningShell => ActionView::Run(running(shadow, command)),
        Stage::Finished(_) => ActionView::Nothing,
    }
}

/// What is to be done at `stage`; what is run is the shell of the configuration.
pub fn action(stage: Stage, shadow: &FsPath, config: &Config) -> (res: Action)
    ensures
        res@ == acts(stage, shadow@, config.shell.command.deep_view()),
{
    match stage {
        Stage::Announcing => Action::Say("Starting devcontainer...".to_owned()),
        Stage::StartingContainer => Action::StartContainer(shadow.clone(), devcontainer_up(shadow)),
        Stage::RunningShell => Action::Run(devcontainer_exec(shadow, &config.shell.command)),
        Stage::Finished(_) => Action::Nothing,
    }
}

/// Whether the command ended without an error. What the shell reported is none.
pub fn succeeded(outcome: Outcome) -> (res: bool)
    ensures
        res == (outcome == Outcome::ShellDone),
{
    matches!(outcome, Outcome::ShellDone)
}

/// What is said of the outcome. Of a container that failed to start, nothing is said but what the
/// failure says.
pub open spec fn outcome_words(outcome: Outcome) -> Option<Seq<char>> {
    match outcome {
        Outcome::ShellDone | Outcome::ContainerFailed => None,
        Outcome::ContainerNotRun => Some("Failed to execute devcontainer up"@),
        Outcome::ShellNotRun => Some("Failed to execute devcontainer exec"@),
    }
}

/// What is said of the outcome.
pub fn outcome_message(outcome: Outcome) -> (res: Option<String>)
    ensures
        match res {
            Some(text) => outcome_words(outcome) == Some(text@),
            None => outcome_words(outcome) is None,
        },
{
    match outcome {
        Outcome::ShellDone | Outcome::ContainerFailed => None,
        Outcome::ContainerNotRun => Some("Failed to execute devcontainer up".to_owned()),
        Outcome::ShellNotRun => Some("Failed to execute devcontainer exec".to_owned()),
    }
}

/// A shell is opened only in a container that was started.
pub proof fn shell_runs_in_a_started_container(stages: Seq<Stage>, events: Seq<Event>, j: int)
    requires
        is_run(|s: Stage, e: Event| after(s, e), Stage::Announcing, stages, events),
        0 <= j < stages.len(),
        stages[j] == Stage::RunningShell,
    ensures
        exists|i: int|
            0 <= i < j && stages[i] == Stage::StartingContainer && #[trigger] events[i]
                == Event::Done,
{
    let i = lemma_passes_into(
        |s: Stage, e: Event| after(s, e),
        Stage::Announcing,
        stages,
        events,
        |s: Stage| s == Stage::RunningShell,
        j,
    );
    assert(stages[i] == Stage::StartingContainer && events[i] == Event::Done);
}

/// The container is started, then the shell is run in it, and the command ends well whatever the shell
/// reported. It ends otherwise only where the container or the shell could not be started.
pub proof fn shell_is_opened(stage: Stage, event: Event, shadow: Seq<u8>, command: Seq<Seq<char>>)
    ensures
        after(Stage::Announcing, Event::Done) == Stage::StartingContainer,
        after(Stage::StartingContainer, Event::Done) == Stage::RunningShell,
        after(Stage::RunningShell, Event::Done) == Stage::Finished(Outcome::ShellDone),
        after(Stage::RunningShell, Event::No) == Stage::Finished(Outcome::ShellDone),
        !(stage is Finished) && after(stage, event) == Stage::Finished(Outcome::ShellDone) ==> stage
            == Stage::RunningShell,
        !(stage is Finished) ==> (after(stage, event) == Stage::Finished(Outcome::ContainerFailed)
            <==> stage == Stage::StartingContainer && event == Event::No),
        !(stage is Finished) ==> (after(stage, event) == Stage::Finished(Outcome::ContainerNotRun)
            <==> stage == Stage::StartingContainer && event == Event::Failed),
        !(stage is Finished) ==> (after(stage, event) == Stage::Finished(Outcome::ShellNotRun)
            <==> stage == Stage::RunningShell && event == Event::Failed),
        after(stage, event) != stage <==> acts(stage, shadow, command).answered_by(event),
{
}

/// What is done at each stage, with the shadow for a workspace.
pub proof fn stages_do_what_they_say(shadow: Seq<u8>, command: Seq<Seq<char>>)
    ensures
        acts(Stage::Announcing, shadow, command) == ActionView::Say("Starting devcontainer..."@),
        acts(Stage::StartingContainer, shadow, command) == ActionView::StartContainer(
            shadow,
            ("devcontainer"@, seq!["up"@, "--workspace-folder"@, shown(shadow)]),
        ),
        acts(Stage::RunningShell, shadow, command) == ActionView::Run(
            (
                "devcontainer"@,
                seq!["exec"@, "--workspace-folder"@, shown(shadow), "--"@] + command,
            ),
        ),
        outcome_words(Outcome::ShellDone) is None,
        outcome_words(Outcome::ContainerFailed) is None,
        outcome_words(Outcome::ContainerNotRun) == Some("Failed to execute devcontainer up"@),
        outcome_words(Outcome::ShellNotRun) == Some("Failed to execute devcontainer exec"@),
{
}

/// Only a shell that ended well is a success.
pub proof fn ended_shell_succeeds(outcome: Outcome, success: bool)
    requires
        call_ensures(succeeded, (outcome,), success),
    ensures
        success <==> outcome == Outcome::ShellDone,
{
}

} // verus!
