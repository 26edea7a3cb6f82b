//! Throwing a shadow away.
use crate::path::FsPath;
use crate::removal::{
    file_query, files_in, not_owned_message, not_owned_words, not_removed_message,
    not_removed_words, prune, prunes, Job, JobView,
};
use crate::shadow::{
    measure_invocation, measuring, measuring_is_no_merge, merging, ChangeSummary,
};
use crate::step::{
    ends_at, is_run, lemma_ends_at, lemma_passes_into, Action, ActionView, Event,
};
use crate::text::{decimal, decimal_text, shown};
use vstd::prelude::*;

verus! {

/// What is to be done next.
#[derive(Clone, Copy, Debug, PartialEq, Eq, Structural)]
pub enum Stage {
    /// Ask whether the source is a directory.
    Checking,
    /// Compare the shadow with the source.
    Measuring,
    /// Count the files in the shadow, as there is no source to compare it with.
    Counting,
    /// Show these changes.
    Showing(ChangeSummary),
    /// Show this number of files.
    ShowingCount(usize),
    /// Ask whether to go on with these changes.
    Asking(ChangeSummary),
    /// Ask whether to go on without a source.
    AskingBlind,
    /// Stop and remove the container.
    Stopping,
    /// Remove the shadow and all in it.
    Removing,
    /// Remove this one of the directories between the shadow and its root, if it is empty.
    Pruning(usize),
    /// Nothing.
    Finished(Outcome),
}

/// How the command ended.
#[derive(Clone, Copy, Debug, PartialEq, Eq, Structural)]
pub enum Outcome {
    Rejected,
    Aborted,
    NotMeasured,
    NoAnswer,
    NotStopped,
    NotOwned,
    NotRemoved,
}

/// The stage after `stage`. An event that does not answer the stage leaves it as it is.
pub open spec fn after(job: JobView, stage: Stage, event: Event) -> Stage {
    match (stage, event) {
        (Stage::Checking, Event::Yes) => Stage::Measuring,
        (Stage::Checking, Event::No) => Stage::Counting,
        (Stage::Measuring, Event::Measured(summary)) => Stage::Showing(summary),
        (Stage::Measuring, Event::Failed) => Stage::Finished(Outcome::NotMeasured),
        (Stage::Counting, Event::Counted(files)) => Stage::ShowingCount(files),
        (Stage::Showing(summary), Event::Done) => if job.yes {
            Stage::Stopping
        } else {
            Stage::Asking(summary)
        },
        (Stage::ShowingCount(_), Event::Done) => if job.yes {
            Stage::Stopping
        } else {
            Stage::AskingBlind
        },
        (Stage::Asking(_) | Stage::AskingBlind, Event::Yes) => Stage::Stopping,
        (Stage::Asking(_) | Stage::AskingBlind, Event::No) => Stage::Finished(Outcome::Aborted),
        (Stage::Asking(_) | Stage::AskingBlind, Event::Failed) => Stage::Finished(
            Outcome::NoAnswer,
        ),
        (Stage::Stopping, Event::Done) => if job.owned {
            Stage::Removing
        } else {
            Stage::Finished(Outcome::NotOwned)
        },
        (Stage::Stopping, Event::Failed) => Stage::Finished(Outcome::NotStopped),
        (Stage::Removing, Event::Done) => if job.parents.len() > 0 {
            Stage::Pruning(0)
        } else {
            Stage::Finished(Outcome::Rejected)
        },
        (Stage::Removing, Event::Failed) => Stage::Finished(Outcome::NotRemoved),
        (Stage::Pruning(k), Event::Done) => if k + 1 < job.parents.len() {
            Stage::Pruning((k + 1) as usize)
        } else {
            Stage::Finished(Outcome::Rejected)
        },
        (Stage::Pruning(_), Event::Failed) => Stage::Finished(Outcome::Rejected),
        _ => stage,
    }
}

/// Discard a shadow without merging: the stage that follows.
pub fn run(job: &Job, stage: Stage, event: Event) -> (res: Stage)
    ensures
        res == after(job@, stage, event),
{
    assert(job@.parents.len() == job.parents@.len());
    match (stage, event) {
        (Stage::Checking, Event::Yes) => Stage::Measuring,
        (Stage::Checking, Event::No) => Stage::Counting,
        (Stage::Measuring, Event::Measured(summary)) => Stage::Showing(summary),
        (Stage::Measuring, Event::Failed) => Stage::Finished(Outcome::NotMeasured),
        (Stage::Counting, Event::Counted(files)) => Stage::ShowingCount(files),
        (Stage::Showing(summary), Event::Done) => if job.yes {
            Stage::Stopping
        } else {
            Stage::Asking(summary)
        },
        (Stage::ShowingCount(_), Event::Done) => if job.yes {
            Stage::Stopping
        } else {
            Stage::AskingBlind
        },
        (Stage::Asking(_) | Stage::AskingBlind, Event::Yes) => Stage::Stopping,
        (Stage::Asking(_) | Stage::AskingBlind, Event::No) => Stage::Finished(Outcome::Aborted),
        (Stage::Asking(_) | Stage::AskingBlind, Event::Failed) => Stage::Finished(
            Outcome::NoAnswer,
        ),
        (Stage::Stopping, Event::Done) => if job.owned {
            Stage::Removing
        } else {
            Stage::Finished(Outcome::NotOwned)
        },
        (Stage::Stopping, Event::Failed) => Stage::Finished(Outcome::NotStopped),
        (Stage::Removing, Event::Done) => if job.parents.len() > 0 {
            Stage::Pruning(0)
        } else {
            Stage::Finished(Outcome::Rejected)
        },
        (Stage::Removing, Event::Failed) => Stage::Finished(Outcome::NotRemoved),
        (Stage::Pruning(k), Event::Done) => if k < job.parents.len() && k + 1
            < job.parents.len() {
            Stage::Pruning(k + 1)
        } else {
            Stage::Finished(Outcome::Rejected)
        },
        (Stage::Pruning(_), Event::Failed) => Stage::Finished(Outcome::Rejected),
        _ => stage,
    }
}

/// What shows the changes.
pub open spec fn changes_words(summary: ChangeSummary) -> Seq<char> {
    "Changes that will be discarded: "@ + summary.words()
}

fn changes_line(summary: ChangeSummary) -> (res: String)
    ensures
        res@ == changes_words(summary),
{
    "Changes that will be discarded: ".to_owned().concat(summary.to_text().as_str())
}

/// What is asked before anything is removed.
pub open spec fn question_words(summary: ChangeSummary) -> Seq<char> {
    "Discard "@ + summary.words() + "? This cannot be undone. [y/N]: "@
}

fn question(summary: ChangeSummary) -> (res: String)
    ensures
        res@ == question_words(summary),
{
    let mut out = "Discard ".to_owned();
    out.append(summary.to_text().as_str());
    out.append("? This cannot be undone. [y/N]: ");
    out
}

/// What shows the number of files.
pub open spec fn count_words(source: Seq<u8>, files: usize) -> Seq<char> {
    "Source "@ + shown(source) + " no longer exists. Shadow contains ~"@ + decimal(files as nat)
        + " files."@
}

fn count_line(source: &FsPath, files: usize) -> (res: String)
    ensures
        res@ == count_words(source@, files),
{
    let mut out = "Source ".to_owned();
    out.append(source.display().as_str());
    out.append(" no longer exists. Shadow contains ~");
    out.append(decimal_text(files as u64).as_str());
    out.append(" files.");
    out
}

/// What is to be done at `stage`.
pub open spec fn acts(job: JobView, stage: Stage) -> ActionView {
    match stage {
        Stage::Checking => ActionView::IsDirectory(job.source),
        Stage::Measuring => ActionView::Measure(measuring(job.shadow, job.source)),
        Stage::Counting => ActionView::CountLines(files_in(job.shadow)),
        Stage::Showing(summary) => ActionView::Say(changes_words(summary)),
        Stage::ShowingCount(files) => ActionView::Say(count_words(job.source, files)),
        Stage::Asking(summary) => ActionView::Ask(question_words(summary)),
        Stage::AskingBlind => ActionView::Ask(
            "Discard this shadow? This cannot be undone. [y/N]: "@,
        ),
        Stage::Stopping => ActionView::StopContainer(job.shadow),
        Stage::Removing => ActionView::RemoveTree(job.shadow),
        Stage::Pruning(k) => prunes(job, k),
        Stage::Finished(_) => ActionView::Nothing,
    }
}

/// What is to be done at `stage`.
pub fn action(job: &Job, stage: Stage) -> (res: Action)
    ensures
        res@ == acts(job@, stage),
{
    match stage {
        Stage::Checking => Action::IsDirectory(job.source.clone()),
        Stage::Measuring => Action::Measure(measure_invocation(&job.shadow, &job.source)),
        Stage::Counting => Action::CountLines(file_query(&job.shadow)),
        Stage::Showing(summary) => Action::Say(changes_line(summary)),
        Stage::ShowingCount(files) => Action::Say(count_line(&job.source, files)),
        Stage::Asking(summary) => Action::Ask(question(summary)),
        Stage::AskingBlind => Action::Ask(
            "Discard this shadow? This cannot be undone. [y/N]: ".to_owned(),
        ),
        Stage::Stopping => Action::StopContainer(job.shadow.clone()),
        Stage::Removing => Action::RemoveTree(job.shadow.clone()),
        Stage::Pruning(k) => prune(job, k),
        Stage::Finished(_) => Action::Nothing,
    }
}

/// Whether the command ended without an error.
pub fn succeeded(outcome: Outcome) -> (res: bool)
    ensures
        res == (outcome == Outcome::Rejected || outcome == Outcome::Aborted),
{
    matches!(outcome, Outcome::Rejected | Outcome::Aborted)
}

/// What is said of the outcome. Of a comparison or a container that failed, nothing is said but
/// what the failure says.
pub open spec fn outcome_words(outcome: Outcome, shadow: Seq<u8>) -> Option<Seq<char>> {
    match outcome {
        Outcome::Rejected => Some("Rejected. Shadow removed."@),
        Outcome::Aborted => Some("Aborted."@),
        Outcome::NotMeasured | Outcome::NotStopped => None,
        Outcome::NoAnswer => Some("Failed to read from stdin"@),
        Outcome::NotOwned => Some(not_owned_words(shadow)),
        Outcome::NotRemoved => Some(not_removed_words(shadow)),
    }
}

/// What is said of the outcome.
pub fn outcome_message(outcome: Outcome, shadow: &FsPath) -> (res: Option<String>)
    ensures
        match res {
            Some(text) => outcome_words(outcome, shadow@) == Some(text@),
            None => outcome_words(outcome, shadow@) is None,
        },
{
    match outcome {
        Outcome::Rejected => Some("Rejected. Shadow removed.".to_owned()),
        Outcome::Aborted => Some("Aborted.".to_owned()),
        Outcome::NotMeasured | Outcome::NotStopped => None,
        Outcome::NoAnswer => Some("Failed to read from stdin".to_owned()),
        Outcome::NotOwned => Some(not_owned_message(shadow)),
        Outcome::NotRemoved => Some(not_removed_message(shadow)),
    }
}

/// Whether `stages` are what the command goes through, given these events.
pub open spec fn is_reject(job: JobView, stages: Seq<Stage>, events: Seq<Event>) -> bool {
    is_run(|s: Stage, e: Event| after(job, s, e), Stage::Checking, stages, events)
}

/// Whether the shadow is being removed, or that was tried.
pub open spec fn removes(stage: Stage) -> bool {
    ||| stage == Stage::Removing
    ||| stage is Pruning
    ||| stage == Stage::Finished(Outcome::Rejected)
    ||| stage == Stage::Finished(Outcome::NotRemoved)
}

/// Throwing a shadow away never writes to the source: all that it changes on disk is the shadow,
/// which is removed, and the directories above it. No program is run that could write to the source;
/// what the source is read with is no merge of anything.
pub proof fn reject_never_writes_to_source(
    job: JobView,
    stage: Stage,
    other_shadow: Seq<u8>,
    other_source: Seq<u8>,
)
    ensures
        acts(job, stage).writes() ==> removes(stage) && (acts(job, stage)
            == ActionView::RemoveTree(job.shadow) || acts(job, stage) is RemoveEmpty
            && job.parents.contains(acts(job, stage)->RemoveEmpty_0)),
        acts(job, stage) is Measure ==> acts(job, stage)->Measure_0 == measuring(
            job.shadow,
            job.source,
        ) && acts(job, stage)->Measure_0 != merging(other_shadow, other_source),
{
    measuring_is_no_merge(job.shadow, job.source, other_shadow, other_source);
}

/// The shadow is never removed before the count of the changes was shown, or that of the files where
/// the source is gone; nor without a confirmation, unless that is skipped; nor outside the known
/// shadow roots.
pub proof fn removed_only_after_showing(
    job: JobView,
    stages: Seq<Stage>,
    events: Seq<Event>,
    j: int,
)
    requires
        is_reject(job, stages, events),
        0 <= j < stages.len(),
        removes(stages[j]),
    ensures
        job.owned,
        exists|k: int|
            0 <= k < j && (stages[k] is Showing || stages[k] is ShowingCount) && #[trigger] events[k]
                == Event::Done,
        job.yes || exists|i: int|
            0 <= i < j && (stages[i] is Asking || stages[i] == Stage::AskingBlind)
                && #[trigger] events[i] == Event::Yes,
{
    let next = |s: Stage, e: Event| after(job, s, e);
    let confirmed = |s: Stage|
        removes(s) || s == Stage::Stopping || s == Stage::Finished(Outcome::NotStopped) || s
            == Stage::Finished(Outcome::NotOwned);
    let shown_to = |s: Stage|
        confirmed(s) || s is Asking || s == Stage::AskingBlind || s == Stage::Finished(
            Outcome::Aborted,
        ) || s == Stage::Finished(Outcome::NoAnswer);
    let r = lemma_passes_into(
        next,
        Stage::Checking,
        stages,
        events,
        |s: Stage| removes(s),
        j,
    );
    assert(stages[r] == Stage::Stopping);
    let c = lemma_passes_into(next, Stage::Checking, stages, events, confirmed, j);
    if !job.yes {
        assert((stages[c] is Asking || stages[c] == Stage::AskingBlind) && events[c] == Event::Yes);
    }
    let k = lemma_passes_into(next, Stage::Checking, stages, events, shown_to, j);
    assert((stages[k] is Showing || stages[k] is ShowingCount) && events[k] == Event::Done);
}

/// The count that is shown is the one that was taken.
pub proof fn shown_is_what_was_counted(
    job: JobView,
    stages: Seq<Stage>,
    events: Seq<Event>,
    j: int,
)
    requires
        is_reject(job, stages, events),
        0 <= j < stages.len(),
        stages[j] is Showing || stages[j] is ShowingCount,
    ensures
        stages[j] matches Stage::Showing(summary) ==> exists|i: int|
            0 <= i < j && stages[i] == Stage::Measuring && #[trigger] events[i] == Event::Measured(
                summary,
            ),
        stages[j] matches Stage::ShowingCount(files) ==> exists|i: int|
            0 <= i < j && stages[i] == Stage::Counting && #[trigger] events[i] == Event::Counted(
                files,
            ),
{
    let here = stages[j];
    let i = lemma_passes_into(
        |s: Stage, e: Event| after(job, s, e),
        Stage::Checking,
        stages,
        events,
        |s: Stage| s == here,
        j,
    );
    match here {
        Stage::Showing(summary) => {
            assert(stages[i] == Stage::Measuring && events[i] == Event::Measured(summary));
        },
        Stage::ShowingCount(files) => {
            assert(stages[i] == Stage::Counting && events[i] == Event::Counted(files));
        },
        _ => {},
    }
}

/// A bound on how many answers the command still takes.
pub open spec fn steps_left(job: JobView, stage: Stage) -> int {
    let n = job.parents.len() as int;
    match stage {
        Stage::Checking => n + 7,
        Stage::Measuring | Stage::Counting => n + 6,
        Stage::Showing(_) | Stage::ShowingCount(_) => n + 5,
        Stage::Asking(_) | Stage::AskingBlind => n + 4,
        Stage::Stopping => n + 3,
        Stage::Removing => n + 2,
        Stage::Pruning(k) => if k < n {
            n - k + 1
        } else {
            1
        },
        Stage::Finished(_) => 0,
    }
}

/// The command comes to an end: every answer brings it nearer, each stage but the last has one, and
/// the last stage is never left.
pub proof fn command_ends(job: JobView, stage: Stage)
    requires
        job.parents.len() <= usize::MAX,
    ensures
        steps_left(job, stage) >= 0,
        forall|event: Event| #[trigger]
            after(job, stage, event) != stage ==> steps_left(job, after(job, stage, event))
                < steps_left(job, stage),
        stage is Finished <==> (forall|event: Event| #[trigger] after(job, stage, event) == stage),
{
    let summary = ChangeSummary { modified: 0, added: 0, deleted: 0 };
    assert(after(job, Stage::Measuring, Event::Measured(summary)) != Stage::Measuring);
    assert(after(job, Stage::Counting, Event::Counted(0)) != Stage::Counting);
    assert(stage !is Finished && stage != Stage::Measuring && stage != Stage::Counting ==> after(
        job,
        stage,
        Event::Done,
    ) != stage || after(job, stage, Event::Yes) != stage);
}

// ---------------------------------------------------------------------------------------------
// What a run comes to
// ---------------------------------------------------------------------------------------------

/// The events of a pruning that finds every directory empty.
pub open spec fn all_done(n: nat) -> Seq<Event> {
    Seq::new(n, |i: int| Event::Done)
}

proof fn lemma_pruning(job: JobView, m: nat)
    requires
        job.parents.len() <= usize::MAX,
        m <= job.parents.len(),
    ensures
        ends_at(
            |s: Stage, e: Event| after(job, s, e),
            Stage::Removing,
            all_done(m + 1),
        ) == (if m < job.parents.len() {
            Stage::Pruning(m as usize)
        } else {
            Stage::Finished(Outcome::Rejected)
        }),
    decreases m,
{
    let next = |s: Stage, e: Event| after(job, s, e);
    reveal_with_fuel(ends_at, 2);
    assert(all_done(m + 1).drop_last() =~= all_done(m));
    assert(all_done(m + 1).last() == Event::Done);
    if m > 0 {
        lemma_pruning(job, (m - 1) as nat);
    } else {
        assert(all_done(0) =~= seq![]);
    }
}

/// What goes well leads on: from every stage, whatever was measured or counted, up to the removal. A
/// source that is gone is no reason to stop. The confirmation is asked for unless it is skipped, and a
/// yes is enough to go on.
pub proof fn good_answers_lead_on(job: JobView, summary: ChangeSummary, files: usize)
    ensures
        after(job, Stage::Checking, Event::Yes) == Stage::Measuring,
        after(job, Stage::Checking, Event::No) == Stage::Counting,
        after(job, Stage::Measuring, Event::Measured(summary)) == Stage::Showing(summary),
        after(job, Stage::Counting, Event::Counted(files)) == Stage::ShowingCount(files),
        job.yes ==> after(job, Stage::Showing(summary), Event::Done) == Stage::Stopping,
        job.yes ==> after(job, Stage::ShowingCount(files), Event::Done) == Stage::Stopping,
        !job.yes ==> after(job, Stage::Showing(summary), Event::Done) == Stage::Asking(summary),
        !job.yes ==> after(job, Stage::ShowingCount(files), Event::Done) == Stage::AskingBlind,
        after(job, Stage::Asking(summary), Event::Yes) == Stage::Stopping,
        after(job, Stage::AskingBlind, Event::Yes) == Stage::Stopping,
        job.owned ==> after(job, Stage::Stopping, Event::Done) == Stage::Removing,
{
}

/// How the command can end, and by what alone: each outcome has the answer that brings it about, and
/// the command ends in it by no other.
pub proof fn outcomes_have_their_causes(job: JobView, stage: Stage, event: Event)
    requires
        !(stage is Finished),
    ensures
        after(job, stage, event) == Stage::Finished(Outcome::NotMeasured) <==> stage
            == Stage::Measuring && event == Event::Failed,
        after(job, stage, event) == Stage::Finished(Outcome::Aborted) <==> (stage is Asking || stage
            == Stage::AskingBlind) && event == Event::No,
        after(job, stage, event) == Stage::Finished(Outcome::NoAnswer) <==> (stage is Asking
            || stage == Stage::AskingBlind) && event == Event::Failed,
        after(job, stage, event) == Stage::Finished(Outcome::NotStopped) <==> stage
            == Stage::Stopping && event == Event::Failed,
        after(job, stage, event) == Stage::Finished(Outcome::NotOwned) <==> stage == Stage::Stopping
            && event == Event::Done && !job.owned,
        after(job, stage, event) == Stage::Finished(Outcome::NotRemoved) <==> stage
            == Stage::Removing && event == Event::Failed,
        after(job, stage, event) == Stage::Finished(Outcome::Rejected) ==> stage == Stage::Removing
            || stage is Pruning,
{
}

/// The command goes on exactly by an answer to what it asked to be done.
pub proof fn only_answers_lead_on(job: JobView, stage: Stage, event: Event)
    requires
        stage matches Stage::Pruning(k) ==> k < job.parents.len(),
        job.parents.len() <= usize::MAX,
    ensures
        after(job, stage, event) != stage <==> acts(job, stage).answered_by(event),
{
}

/// A run in which the comparison succeeds, or the source is gone and the files are counted, the user
/// says yes or is not asked, and the container and the removal go well: it ends with the shadow
/// rejected, whatever was measured or counted.
pub proof fn confirmed_run_rejects(
    job: JobView,
    summary: ChangeSummary,
    files: usize,
    source_exists: bool,
)
    requires
        job.owned,
        job.parents.len() <= usize::MAX,
    ensures
        ({
            let next = |s: Stage, e: Event| after(job, s, e);
            let shown_to = if source_exists {
                seq![Event::Yes, Event::Measured(summary), Event::Done]
            } else {
                seq![Event::No, Event::Counted(files), Event::Done]
            };
            let confirmed = shown_to + (if job.yes {
                seq![]
            } else {
                seq![Event::Yes]
            });
            let stopped = confirmed + seq![Event::Done];
            &&& ends_at(next, Stage::Checking, confirmed) == Stage::Stopping
            &&& ends_at(next, Stage::Checking, stopped) == Stage::Removing
            &&& ends_at(next, Stage::Checking, stopped + all_done(job.parents.len() + 1))
                == Stage::Finished(Outcome::Rejected)
        }),
{
    let next = |s: Stage, e: Event| after(job, s, e);
    let first = if source_exists {
        Event::Yes
    } else {
        Event::No
    };
    let second = if source_exists {
        Event::Measured(summary)
    } else {
        Event::Counted(files)
    };
    let shown_to = seq![first, second, Event::Done];
    let answer = if job.yes {
        Seq::<Event>::empty()
    } else {
        seq![Event::Yes]
    };
    let confirmed = shown_to + answer;
    reveal_with_fuel(ends_at, 4);
    assert(shown_to.drop_last() =~= seq![first, second]);
    assert(shown_to.drop_last().drop_last() =~= seq![first]);
    assert(shown_to.drop_last().drop_last().drop_last() =~= seq![]);
    lemma_ends_at(next, Stage::Checking, shown_to, answer);
    if !job.yes {
        assert(answer.drop_last() =~= seq![]);
    }
    let stopped = confirmed + seq![Event::Done];
    assert(stopped.drop_last() =~= confirmed);
    lemma_ends_at(next, Stage::Checking, stopped, all_done(job.parents.len() + 1));
    lemma_pruning(job, job.parents.len());
}

/// What is done at each stage: the source is looked at, and compared with the shadow by a dry run, or
/// the shadow's files are counted; the shadow is stopped and removed, and then the directories above
/// it, one after the other.
pub proof fn stages_do_what_they_say(job: JobView, summary: ChangeSummary, files: usize, k: usize)
    ensures
        acts(job, Stage::Checking) == ActionView::IsDirectory(job.source),
        acts(job, Stage::Measuring) == ActionView::Measure(
            (
                "rsync"@,
                seq![
                    "-ain"@,
                    "--delete"@,
                    "--exclude="@ + ".cc-sandbox-meta.json"@,
                    shown(job.shadow) + "/"@,
                    shown(job.source) + "/"@,
                ],
            ),
        ),
        acts(job, Stage::Counting) == ActionView::CountLines(
            ("find"@, seq![shown(job.shadow), "-type"@, "f"@]),
        ),
        acts(job, Stage::Showing(summary)) == ActionView::Say(
            "Changes that will be discarded: "@ + decimal(summary.modified as nat)
                + " modified, "@ + decimal(summary.added as nat) + " added, "@ + decimal(
                summary.deleted as nat,
            ) + " deleted"@,
        ),
        acts(job, Stage::ShowingCount(files)) == ActionView::Say(
            "Source "@ + shown(job.source) + " no longer exists. Shadow contains ~"@ + decimal(
                files as nat,
            ) + " files."@,
        ),
        acts(job, Stage::Asking(summary)) == ActionView::Ask(
            "Discard "@ + decimal(summary.modified as nat) + " modified, "@ + decimal(
                summary.added as nat,
            ) + " added, "@ + decimal(summary.deleted as nat) + " deleted"@
                + "? This cannot be undone. [y/N]: "@,
        ),
        acts(job, Stage::AskingBlind) == ActionView::Ask(
            "Discard this shadow? This cannot be undone. [y/N]: "@,
        ),
        acts(job, Stage::Stopping) == ActionView::StopContainer(job.shadow),
        acts(job, Stage::Removing) == ActionView::RemoveTree(job.shadow),
        k < job.parents.len() ==> acts(job, Stage::Pruning(k)) == ActionView::RemoveEmpty(
            job.parents[k as int],
        ),
        k < job.parents.len() && k + 1 < job.parents.len() && k < usize::MAX ==> after(
            job,
            Stage::Pruning(k),
            Event::Done,
        ) == Stage::Pruning((k + 1) as usize),
        after(job, Stage::Pruning(k), Event::Failed) == Stage::Finished(Outcome::Rejected),
{
    assert(changes_words(summary) =~= "Changes that will be discarded: "@ + decimal(
        summary.modified as nat,
    ) + " modified, "@ + decimal(summary.added as nat) + " added, "@ + decimal(
        summary.deleted as nat,
    ) + " deleted"@);
    assert(question_words(summary) =~= "Discard "@ + decimal(summary.modified as nat)
        + " modified, "@ + decimal(summary.added as nat) + " added, "@ + decimal(
        summary.deleted as nat,
    ) + " deleted"@ + "? This cannot be undone. [y/N]: "@);
}

/// What is said at the end: of each failure the shadow that it is about, where anything can be said.
pub proof fn outcomes_are_told(shadow: Seq<u8>)
    ensures
        outcome_words(Outcome::Rejected, shadow) == Some("Rejected. Shadow removed."@),
        outcome_words(Outcome::Aborted, shadow) == Some("Aborted."@),
        outcome_words(Outcome::NoAnswer, shadow) == Some("Failed to read from stdin"@),
        outcome_words(Outcome::NotOwned, shadow) == Some(
            "BUG: shadow path "@ + shown(shadow)
                + " is not under any known shadow root. Refusing to rm -rf."@,
        ),
        outcome_words(Outcome::NotRemoved, shadow) == Some(
            "Failed to remove shadow directory "@ + shown(shadow),
        ),
        outcome_words(Outcome::NotMeasured, shadow) is None,
        outcome_words(Outcome::NotStopped, shadow) is None,
{
}

/// To have rejected, and to have been told no, is to have succeeded, and nothing else is.
pub proof fn rejected_or_told_no_succeeds(outcome: Outcome, success: bool)
    requires
        call_ensures(succeeded, (outcome,), success),
    ensures
        success <==> outcome == Outcome::Rejected || outcome == Outcome::Aborted,
{
}

} // verus!
