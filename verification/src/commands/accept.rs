//! Merging a shadow back into its source, and removing it.
use crate::path::FsPath;
use crate::removal::{
    not_owned_message, not_owned_words, not_removed_message, not_removed_words, prune, prunes, Job,
    JobView,
};
use crate::sequences::occurs;
use crate::shadow::{measure_invocation, measuring, merge_invocation, merging, ChangeSummary};
use crate::step::{
    ends_at, is_run, lemma_ends_at, lemma_passes_into, lemma_stays, Action, ActionView, Event,
};
use crate::text::{decimal, shown};
use vstd::prelude::*;

verus! {

/// What is to be done next.
#[derive(Clone, Copy, Debug, PartialEq, Eq, Structural)]
pub enum Stage {
    /// Ask whether the source is a directory.
    Checking,
    /// Compare the shadow with the source.
    Measuring,
    /// Show these changes.
    Showing(ChangeSummary),
    /// Ask whether to go on with these changes.
    Asking(ChangeSummary),
    /// Stop and remove the container.
    Stopping,
    /// Merge the shadow into the source.
    Merging,
    /// Remove the shadow and all in it.
    Removing,
    /// Remove this one of the directories between the shadow and its root, if it is empty.
    Pruning(usize),
    /// Nothing.
    Finished(Outcome),
}

/// How the command ended.
#[derive(Clone, Copy, Debug, PartialEq, Eq, Structural)]
pub enum Outcome {
    Accepted,
    Aborted,
    SourceGone,
    NotMeasured,
    NoAnswer,
    NotStopped,
    MergeFailed,
    MergeNotRun,
    NotOwned,
    NotRemoved,
}

/// The stage after `stage`. An event that does not answer the stage leaves it as it is.
pub open spec fn after(job: JobView, stage: Stage, event: Event) -> Stage {
    match (stage, event) {
        (Stage::Checking, Event::Yes) => Stage::Measuring,
        (Stage::Checking, Event::No) => Stage::Finished(Outcome::SourceGone),
        (Stage::Measuring, Event::Measured(summary)) => Stage::Showing(summary),
        (Stage::Measuring, Event::Failed) => Stage::Finished(Outcome::NotMeasured),
        (Stage::Showing(summary), Event::Done) => if job.yes {
            Stage::Stopping
        } else {
            Stage::Asking(summary)
        },
        (Stage::Asking(_), Event::Yes) => Stage::Stopping,
        (Stage::Asking(_), Event::No) => Stage::Finished(Outcome::Aborted),
        (Stage::Asking(_), Event::Failed) => Stage::Finished(Outcome::NoAnswer),
        (Stage::Stopping, Event::Done) => Stage::Merging,
        (Stage::Stopping, Event::Failed) => Stage::Finished(Outcome::NotStopped),
        (Stage::Merging, Event::Done) => if job.owned {
            Stage::Removing
        } else {
            Stage::Finished(Outcome::NotOwned)
        },
        (Stage::Merging, Event::No) => Stage::Finished(Outcome::MergeFailed),
        (Stage::Merging, Event::Failed) => Stage::Finished(Outcome::MergeNotRun),
        (Stage::Removing, Event::Done) => if job.parents.len() > 0 {
            Stage::Pruning(0)
        } else {
            Stage::Finished(Outcome::Accepted)
        },
        (Stage::Removing, Event::Failed) => Stage::Finished(Outcome::NotRemoved),
        (Stage::Pruning(k), Event::Done) => if k + 1 < job.parents.len() {
            Stage::Pruning((k + 1) as usize)
        } else {
            Stage::Finished(Outcome::Accepted)
        },
        (Stage::Pruning(_), Event::Failed) => Stage::Finished(Outcome::Accepted),
        _ => stage,
    }
}

/// Merge a shadow's changes back to its source and delete the shadow: the stage that follows.
pub fn run(job: &Job, stage: Stage, event: Event) -> (res: Stage)
    ensures
        res == after(job@, stage, event),
{
    assert(job@.parents.len() == job.parents@.len());
    match (stage, event) {
        (Stage::Checking, Event::Yes) => Stage::Measuring,
        (Stage::Checking, Event::No) => Stage::Finished(Outcome::SourceGone),
        (Stage::Measuring, Event::Measured(summary)) => Stage::Showing(summary),
        (Stage::Measuring, Event::Failed) => Stage::Finished(Outcome::NotMeasured),
        (Stage::Showing(summary), Event::Done) => if job.yes {
            Stage::Stopping
        } else {
            Stage::Asking(summary)
        },
        (Stage::Asking(_), Event::Yes) => Stage::Stopping,
        (Stage::Asking(_), Event::No) => Stage::Finished(Outcome::Aborted),
        (Stage::Asking(_), Event::Failed) => Stage::Finished(Outcome::NoAnswer),
        (Stage::Stopping, Event::Done) => Stage::Merging,
        (Stage::Stopping, Event::Failed) => Stage::Finished(Outcome::NotStopped),
        (Stage::Merging, Event::Done) => if job.owned {
            Stage::Removing
        } else {
            Stage::Finished(Outcome::NotOwned)
        },
        (Stage::Merging, Event::No) => Stage::Finished(Outcome::MergeFailed),
        (Stage::Merging, Event::Failed) => Stage::Finished(Outcome::MergeNotRun),
        (Stage::Removing, Event::Done) => if job.parents.len() > 0 {
            Stage::Pruning(0)
        } else {
            Stage::Finished(Outcome::Accepted)
        },
        (Stage::Removing, Event::Failed) => Stage::Finished(Outcome::NotRemoved),
        (Stage::Pruning(k), Event::Done) => if k < job.parents.len() && k + 1 < job.parents.len() {
            Stage::Pruning(k + 1)
        } else {
            Stage::Finished(Outcome::Accepted)
        },
        (Stage::Pruning(_), Event::Failed) => Stage::Finished(Outcome::Accepted),
        _ => stage,
    }
}

/// What shows the changes.
pub open spec fn changes_words(summary: ChangeSummary) -> Seq<char> {
    "Changes: "@ + summary.words()
}

fn changes_line(summary: ChangeSummary) -> (res: String)
    ensures
        res@ == changes_words(summary),
{
    "Changes: ".to_owned().concat(summary.to_text().as_str())
}

/// What is asked before anything is changed.
pub open spec fn question_words(summary: ChangeSummary, source: Seq<u8>) -> Seq<char> {
    "Accept "@ + summary.words() + " back to "@ + shown(source) + "? [y/N]: "@
}

fn question(summary: ChangeSummary, source: &FsPath) -> (res: String)
    ensures
        res@ == question_words(summary, source@),
{
    let mut out = "Accept ".to_owned();
    out.append(summary.to_text().as_str());
    out.append(" back to ");
    out.append(source.display().as_str());
    out.append("? [y/N]: ");
    out
}

/// What is to be done at `stage`.
pub open spec fn acts(job: JobView, stage: Stage) -> ActionView {
    match stage {
        Stage::Checking => ActionView::IsDirectory(job.source),
        Stage::Measuring => ActionView::Measure(measuring(job.shadow, job.source)),
        Stage::Showing(summary) => ActionView::Say(changes_words(summary)),
        Stage::Asking(summary) => ActionView::Ask(question_words(summary, job.source)),
        Stage::Stopping => ActionView::StopContainer(job.shadow),
        Stage::Merging => ActionView::Run(merging(job.shadow, job.source)),
        Stage::Removing => ActionView::RemoveTree(job.shadow),
        Stage::Pruning(k) => prunes(job, k),
        Stage::Finished(_) => ActionView::Nothing,
    }
}

/// What is to be done at `stage`.
pub fn action(job: &Job, stage: Stage) -> (res: Action)
    ensures
        res@ == acts(job@, stage),
{
    match stage {
        Stage::Checking => Action::IsDirectory(job.source.clone()),
        Stage::Measuring => Action::Measure(measure_invocation(&job.shadow, &job.source)),
        Stage::Showing(summary) => Action::Say(changes_line(summary)),
        Stage::Asking(summary) => Action::Ask(question(summary, &job.source)),
        Stage::Stopping => Action::StopContainer(job.shadow.clone()),
        Stage::Merging => Action::Run(merge_invocation(&job.shadow, &job.source)),
        Stage::Removing => Action::RemoveTree(job.shadow.clone()),
        Stage::Pruning(k) => prune(job, k),
        Stage::Finished(_) => Action::Nothing,
    }
}

/// Whether the command ended without an error.
pub open spec fn is_success(outcome: Outcome) -> bool {
    outcome == Outcome::Accepted || outcome == Outcome::Aborted
}

/// Whether the command ended without an error.
pub fn succeeded(outcome: Outcome) -> (res: bool)
    ensures
        res == is_success(outcome),
{
    matches!(outcome, Outcome::Accepted | Outcome::Aborted)
}

/// What is said of the outcome. Of a comparison or a container that failed, nothing is said but
/// what the failure says.
pub open spec fn outcome_words(outcome: Outcome, shadow: Seq<u8>, source: Seq<u8>) -> Option<
    Seq<char>,
> {
    match outcome {
        Outcome::Accepted => Some("Accepted. Shadow removed."@),
        Outcome::Aborted => Some("Aborted."@),
        Outcome::SourceGone => Some(
            "Source directory "@ + shown(source)
                + " no longer exists. It may have been moved or deleted.\nThe shadow is still at "@
                + shown(shadow) + " — you can inspect it manually with `cc-sandbox path`."@,
        ),
        Outcome::NotMeasured | Outcome::NotStopped => None,
        Outcome::NoAnswer => Some("Failed to read from stdin"@),
        Outcome::MergeFailed => Some(
            "rsync failed. The shadow is preserved at "@ + shown(shadow)
                + " — inspect and retry.\nThe source at "@ + shown(source)
                + " may be partially updated."@,
        ),
        Outcome::MergeNotRun => Some("Failed to execute rsync"@),
        Outcome::NotOwned => Some(not_owned_words(shadow)),
        Outcome::NotRemoved => Some(not_removed_words(shadow)),
    }
}

/// What is said of the outcome.
pub fn outcome_message(outcome: Outcome, shadow: &FsPath, source: &FsPath) -> (res: Option<String>)
    ensures
        match res {
            Some(text) => outcome_words(outcome, shadow@, source@) == Some(text@),
            None => outcome_words(outcome, shadow@, source@) is None,
        },
{
    match outcome {
        Outcome::Accepted => Some("Accepted. Shadow removed.".to_owned()),
        Outcome::Aborted => Some("Aborted.".to_owned()),
        Outcome::SourceGone => {
            let mut out = "Source directory ".to_owned();
            out.append(source.display().as_str());
            out.append(
                " no longer exists. It may have been moved or deleted.\nThe shadow is still at ",
            );
            out.append(shadow.display().as_str());
            out.append(" — you can inspect it manually with `cc-sandbox path`.");
            Some(out)
        },
        Outcome::NotMeasured | Outcome::NotStopped => None,
        Outcome::NoAnswer => Some("Failed to read from stdin".to_owned()),
        Outcome::MergeFailed => {
            let mut out = "rsync failed. The shadow is preserved at ".to_owned();
            out.append(shadow.display().as_str());
            out.append(" — inspect and retry.\nThe source at ");
            out.append(source.display().as_str());
            out.append(" may be partially updated.");
            Some(out)
        },
        Outcome::MergeNotRun => Some("Failed to execute rsync".to_owned()),
        Outcome::NotOwned => Some(not_owned_message(shadow)),
        Outcome::NotRemoved => Some(not_removed_message(shadow)),
    }
}

/// The question shows how many files of the source the merge would delete.
pub proof fn question_shows_deletions(summary: ChangeSummary, source: Seq<u8>)
    ensures
        occurs(
            decimal(summary.deleted as nat) + " deleted back to "@ + shown(source),
            question_words(summary, source),
        ),
{
    reveal_strlit(" deleted");
    reveal_strlit(" back to ");
    reveal_strlit(" deleted back to ");
    assert(" deleted"@ + " back to "@ =~= " deleted back to "@);
    let part = decimal(summary.deleted as nat) + " deleted back to "@ + shown(source);
    let whole = question_words(summary, source);
    let before = "Accept "@ + (decimal(summary.modified as nat) + " modified, "@ + decimal(
        summary.added as nat,
    ) + " added, "@);
    assert(whole =~= before + part + "? [y/N]: "@);
    let at = before.len() as int;
    assert(whole.subrange(at, at + part.len()) =~= part);
}

/// Whether `stages` are what the command goes through, given these events.
pub open spec fn is_accept(job: JobView, stages: Seq<Stage>, events: Seq<Event>) -> bool {
    is_run(|s: Stage, e: Event| after(job, s, e), Stage::Checking, stages, events)
}

/// Whether the shadow is being removed, or that was tried.
pub open spec fn removes(stage: Stage) -> bool {
    ||| stage == Stage::Removing
    ||| stage is Pruning
    ||| stage == Stage::Finished(Outcome::Accepted)
    ||| stage == Stage::Finished(Outcome::NotRemoved)
}

/// Whether the source is being merged into, or that was tried.
pub open spec fn merges(stage: Stage) -> bool {
    ||| stage == Stage::Merging
    ||| removes(stage)
    ||| stage == Stage::Finished(Outcome::MergeFailed)
    ||| stage == Stage::Finished(Outcome::MergeNotRun)
    ||| stage == Stage::Finished(Outcome::NotOwned)
}

/// What the command changes on disk: the source by a merge of the shadow, then the shadow, which is
/// removed, and the directories above it.
pub proof fn accept_writes(job: JobView, stage: Stage)
    ensures
        acts(job, stage).writes() ==> merges(stage),
        acts(job, stage) is Run ==> acts(job, stage) == ActionView::Run(
            merging(job.shadow, job.source),
        ),
        acts(job, stage) is RemoveTree ==> removes(stage) && acts(job, stage)
            == ActionView::RemoveTree(job.shadow),
        acts(job, stage) is RemoveEmpty ==> removes(stage) && job.parents.contains(
            acts(job, stage)->RemoveEmpty_0,
        ),
        !(acts(job, stage) is CreateDirectory) && !(acts(job, stage) is CreateDirectories),
{
}

/// The shadow is never removed before the merge succeeded, nor outside the known shadow roots.
pub proof fn removed_only_after_merge(
    job: JobView,
    stages: Seq<Stage>,
    events: Seq<Event>,
    j: int,
)
    requires
        is_accept(job, stages, events),
        0 <= j < stages.len(),
        removes(stages[j]),
    ensures
        job.owned,
        exists|i: int|
            0 <= i < j && stages[i] == Stage::Merging && #[trigger] events[i] == Event::Done,
{
    let i = lemma_passes_into(
        |s: Stage, e: Event| after(job, s, e),
        Stage::Checking,
        stages,
        events,
        |s: Stage| removes(s),
        j,
    );
    assert(stages[i] == Stage::Merging && events[i] == Event::Done);
}

/// Where the merge failed, or could not be run, the shadow is still there when the command ends.
pub proof fn failed_merge_keeps_shadow(
    job: JobView,
    stages: Seq<Stage>,
    events: Seq<Event>,
    i: int,
    j: int,
)
    requires
        is_accept(job, stages, events),
        0 <= i < events.len(),
        stages[i] == Stage::Merging,
        events[i] == Event::No || events[i] == Event::Failed,
        0 <= j < stages.len(),
    ensures
        !removes(stages[j]),
        i < j ==> stages[j] == Stage::Finished(
            if events[i] == Event::No {
                Outcome::MergeFailed
            } else {
                Outcome::MergeNotRun
            },
        ),
{
    let next = |s: Stage, e: Event| after(job, s, e);
    let end = after(job, stages[i], events[i]);
    assert(stages[i + 1] == next(stages[i], events[i]));
    if i < j {
        lemma_stays(next, Stage::Checking, stages, events, |s: Stage| s == end, i + 1, j);
    } else if removes(stages[j]) {
        lemma_stays(next, Stage::Checking, stages, events, |s: Stage| removes(s), j, i);
    }
}

/// The source is never written to, and the shadow never removed, before the count of the changes was
/// shown and, unless that is skipped, confirmed. What was shown is what was measured.
pub proof fn merged_only_after_showing(
    job: JobView,
    stages: Seq<Stage>,
    events: Seq<Event>,
    j: int,
)
    requires
        is_accept(job, stages, events),
        0 <= j < stages.len(),
        merges(stages[j]),
    ensures
        exists|i: int, k: int|
            0 <= i < k < j && stages[i] == Stage::Measuring && stages[k] is Showing
                && #[trigger] events[i] == Event::Measured(stages[k]->Showing_0)
                && #[trigger] events[k] == Event::Done,
        job.yes || exists|i: int|
            0 <= i < j && stages[i] is Asking && #[trigger] events[i] == Event::Yes,
{
    let next = |s: Stage, e: Event| after(job, s, e);
    let confirmed = |s: Stage|
        merges(s) || s == Stage::Stopping || s == Stage::Finished(Outcome::NotStopped);
    let shown_to = |s: Stage|
        confirmed(s) || s is Asking || s == Stage::Finished(Outcome::Aborted) || s
            == Stage::Finished(Outcome::NoAnswer);
    let c = lemma_passes_into(next, Stage::Checking, stages, events, confirmed, j);
    if !job.yes {
        assert(stages[c] is Asking && events[c] == Event::Yes);
    }
    let k = lemma_passes_into(next, Stage::Checking, stages, events, shown_to, j);
    assert(stages[k] is Showing && events[k] == Event::Done);
    let summary = stages[k]->Showing_0;
    let i = lemma_passes_into(
        next,
        Stage::Checking,
        stages,
        events,
        |s: Stage| s == Stage::Showing(summary),
        k,
    );
    assert(stages[i] == Stage::Measuring && events[i] == Event::Measured(summary));
}

/// A bound on how many answers the command still takes.
pub open spec fn steps_left(job: JobView, stage: Stage) -> int {
    let n = job.parents.len() as int;
    match stage {
        Stage::Checking => n + 8,
        Stage::Measuring => n + 7,
        Stage::Showing(_) => n + 6,
        Stage::Asking(_) => n + 5,
        Stage::Stopping => n + 4,
        Stage::Merging => n + 3,
        Stage::Removing => n + 2,
        Stage::Pruning(k) => if k < n {
            n - k + 1
        } else {
            1
        },
        Stage::Finished(_) => 0,
    }
}

/// The command comes to an end: every answer brings it nearer, each stage but the last has one, and
/// the last stage is never left.
pub proof fn command_ends(job: JobView, stage: Stage)
    requires
        job.parents.len() <= usize::MAX,
    ensures
        steps_left(job, stage) >= 0,
        forall|event: Event| #[trigger]
            after(job, stage, event) != stage ==> steps_left(job, after(job, stage, event))
                < steps_left(job, stage),
        stage is Finished <==> (forall|event: Event| #[trigger]
            after(job, stage, event) == stage),
{
    let summary = ChangeSummary { modified: 0, added: 0, deleted: 0 };
    assert(after(job, Stage::Measuring, Event::Measured(summary)) != Stage::Measuring);
    assert(stage !is Finished && stage !is Checking && stage !is Measuring ==> after(
        job,
        stage,
        Event::Done,
    ) != stage || after(job, stage, Event::Yes) != stage);
    assert(stage is Checking ==> after(job, stage, Event::Yes) != stage);
}

// ---------------------------------------------------------------------------------------------
// What a run comes to
// ---------------------------------------------------------------------------------------------

/// The events of a pruning that finds every directory empty.
pub open spec fn all_done(n: nat) -> Seq<Event> {
    Seq::new(n, |i: int| Event::Done)
}

proof fn lemma_pruning(job: JobView, m: nat)
    requires
        job.parents.len() <= usize::MAX,
        m <= job.parents.len(),
    ensures
        ends_at(
            |s: Stage, e: Event| after(job, s, e),
            Stage::Removing,
            all_done(m + 1),
        ) == (if m < job.parents.len() {
            Stage::Pruning(m as usize)
        } else {
            Stage::Finished(Outcome::Accepted)
        }),
    decreases m,
{
    let next = |s: Stage, e: Event| after(job, s, e);
    reveal_with_fuel(ends_at, 2);
    assert(all_done(m + 1).drop_last() =~= all_done(m));
    assert(all_done(m + 1).last() == Event::Done);
    if m > 0 {
        lemma_pruning(job, (m - 1) as nat);
    } else {
        assert(all_done(0) =~= seq![]);
    }
}

/// What goes well leads on: from every stage, whatever was measured, up to the removal. The
/// confirmation is asked for unless it is skipped, and a yes is enough to go on.
pub proof fn good_answers_lead_on(job: JobView, summary: ChangeSummary)
    ensures
        after(job, Stage::Checking, Event::Yes) == Stage::Measuring,
        after(job, Stage::Measuring, Event::Measured(summary)) == Stage::Showing(summary),
        job.yes ==> after(job, Stage::Showing(summary), Event::Done) == Stage::Stopping,
        !job.yes ==> after(job, Stage::Showing(summary), Event::Done) == Stage::Asking(summary),
        after(job, Stage::Asking(summary), Event::Yes) == Stage::Stopping,
        after(job, Stage::Stopping, Event::Done) == Stage::Merging,
        job.owned ==> after(job, Stage::Merging, Event::Done) == Stage::Removing,
{
}

/// How the command can end, and by what alone: each outcome has the answer that brings it about, and
/// the command ends in it by no other.
pub proof fn outcomes_have_their_causes(job: JobView, stage: Stage, event: Event)
    requires
        !(stage is Finished),
    ensures
        after(job, stage, event) == Stage::Finished(Outcome::SourceGone) <==> stage
            == Stage::Checking && event == Event::No,
        after(job, stage, event) == Stage::Finished(Outcome::NotMeasured) <==> stage
            == Stage::Measuring && event == Event::Failed,
        after(job, stage, event) == Stage::Finished(Outcome::Aborted) <==> stage is Asking && event
            == Event::No,
        after(job, stage, event) == Stage::Finished(Outcome::NoAnswer) <==> stage is Asking && event
            == Event::Failed,
        after(job, stage, event) == Stage::Finished(Outcome::NotStopped) <==> stage
            == Stage::Stopping && event == Event::Failed,
        after(job, stage, event) == Stage::Finished(Outcome::MergeFailed) <==> stage
            == Stage::Merging && event == Event::No,
        after(job, stage, event) == Stage::Finished(Outcome::MergeNotRun) <==> stage
            == Stage::Merging && event == Event::Failed,
        after(job, stage, event) == Stage::Finished(Outcome::NotOwned) <==> stage == Stage::Merging
            && event == Event::Done && !job.owned,
        after(job, stage, event) == Stage::Finished(Outcome::NotRemoved) <==> stage
            == Stage::Removing && event == Event::Failed,
        after(job, stage, event) == Stage::Finished(Outcome::Accepted) ==> stage == Stage::Removing
            || stage is Pruning,
{
}

/// The command goes on exactly by an answer to what it asked to be done.
pub proof fn only_answers_lead_on(job: JobView, stage: Stage, event: Event)
    requires
        stage matches Stage::Pruning(k) ==> k < job.parents.len(),
        job.parents.len() <= usize::MAX,
    ensures
        after(job, stage, event) != stage <==> acts(job, stage).answered_by(event),
{
}

/// A run in which the source exists, the comparison succeeds, the user says yes or is not asked, and
/// the container, the merge and the removal go well: it merges, then removes, and ends with the shadow
/// accepted, whatever was measured.
pub proof fn confirmed_run_accepts(job: JobView, summary: ChangeSummary)
    requires
        job.owned,
        job.parents.len() <= usize::MAX,
    ensures
        ({
            let next = |s: Stage, e: Event| after(job, s, e);
            let confirmed = seq![Event::Yes, Event::Measured(summary), Event::Done] + (
            if job.yes {
                seq![]
            } else {
                seq![Event::Yes]
            });
            let stopped = confirmed + seq![Event::Done];
            let merged = stopped + seq![Event::Done];
            &&& ends_at(next, Stage::Checking, confirmed) == Stage::Stopping
            &&& ends_at(next, Stage::Checking, stopped) == Stage::Merging
            &&& ends_at(next, Stage::Checking, merged) == Stage::Removing
            &&& ends_at(next, Stage::Checking, merged + all_done(job.parents.len() + 1))
                == Stage::Finished(Outcome::Accepted)
        }),
{
    let next = |s: Stage, e: Event| after(job, s, e);
    let shown_to = seq![Event::Yes, Event::Measured(summary), Event::Done];
    let answer = if job.yes {
        Seq::<Event>::empty()
    } else {
        seq![Event::Yes]
    };
    let confirmed = shown_to + answer;
    reveal_with_fuel(ends_at, 4);
    assert(shown_to.drop_last() =~= seq![Event::Yes, Event::Measured(summary)]);
    assert(shown_to.drop_last().drop_last() =~= seq![Event::Yes]);
    assert(shown_to.drop_last().drop_last().drop_last() =~= seq![]);
    lemma_ends_at(next, Stage::Checking, shown_to, answer);
    if !job.yes {
        assert(answer.drop_last() =~= seq![]);
    }
    let stopped = confirmed + seq![Event::Done];
    let merged = stopped + seq![Event::Done];
    assert(stopped.drop_last() =~= confirmed);
    assert(merged.drop_last() =~= stopped);
    lemma_ends_at(next, Stage::Checking, merged, all_done(job.parents.len() + 1));
    lemma_pruning(job, job.parents.len());
}

/// What is done at each stage: the source is looked at, compared with the shadow by a dry run, merged
/// into by rsync with deletions and without the shadow's record; the shadow is stopped and removed, and
/// then the directories above it, one after the other.
pub proof fn stages_do_what_they_say(job: JobView, summary: ChangeSummary, k: usize)
    ensures
        acts(job, Stage::Checking) == ActionView::IsDirectory(job.source),
        acts(job, Stage::Measuring) == ActionView::Measure(
            (
                "rsync"@,
                seq![
                    "-ain"@,
                    "--delete"@,
                    "--exclude="@ + ".cc-sandbox-meta.json"@,
                    shown(job.shadow) + "/"@,
                    shown(job.source) + "/"@,
                ],
            ),
        ),
        acts(job, Stage::Showing(summary)) == ActionView::Say(
            "Changes: "@ + decimal(summary.modified as nat) + " modified, "@ + decimal(
                summary.added as nat,
            ) + " added, "@ + decimal(summary.deleted as nat) + " deleted"@,
        ),
        acts(job, Stage::Asking(summary)) == ActionView::Ask(
            "Accept "@ + decimal(summary.modified as nat) + " modified, "@ + decimal(
                summary.added as nat,
            ) + " added, "@ + decimal(summary.deleted as nat) + " deleted"@ + " back to "@ + shown(
                job.source,
            ) + "? [y/N]: "@,
        ),
        acts(job, Stage::Stopping) == ActionView::StopContainer(job.shadow),
        acts(job, Stage::Merging) == ActionView::Run(
            (
                "rsync"@,
                seq![
                    "-a"@,
                    "--delete"@,
                    "--exclude="@ + ".cc-sandbox-meta.json"@,
                    shown(job.shadow) + "/"@,
                    shown(job.source) + "/"@,
                ],
            ),
        ),
        acts(job, Stage::Removing) == ActionView::RemoveTree(job.shadow),
        k < job.parents.len() ==> acts(job, Stage::Pruning(k)) == ActionView::RemoveEmpty(
            job.parents[k as int],
        ),
        k < job.parents.len() && k + 1 < job.parents.len() && k < usize::MAX ==> after(
            job,
            Stage::Pruning(k),
            Event::Done,
        ) == Stage::Pruning((k + 1) as usize),
        after(job, Stage::Pruning(k), Event::Failed) == Stage::Finished(Outcome::Accepted),
{
    let changes = decimal(summary.modified as nat) + " modified, "@ + decimal(summary.added as nat)
        + " added, "@ + decimal(summary.deleted as nat) + " deleted"@;
    assert(changes_words(summary) =~= "Changes: "@ + decimal(summary.modified as nat)
        + " modified, "@ + decimal(summary.added as nat) + " added, "@ + decimal(
        summary.deleted as nat,
    ) + " deleted"@);
    assert(question_words(summary, job.source) =~= "Accept "@ + decimal(summary.modified as nat)
        + " modified, "@ + decimal(summary.added as nat) + " added, "@ + decimal(
        summary.deleted as nat,
    ) + " deleted"@ + " back to "@ + shown(job.source) + "? [y/N]: "@);
}

/// What is said at the end: of each failure the paths that it is about, where anything can be said, and
/// only an accepted or an aborted run is none.
pub proof fn outcomes_are_told(outcome: Outcome, shadow: Seq<u8>, source: Seq<u8>)
    ensures
        is_success(outcome) <==> outcome == Outcome::Accepted || outcome == Outcome::Aborted,
        outcome_words(Outcome::Accepted, shadow, source) == Some("Accepted. Shadow removed."@),
        outcome_words(Outcome::Aborted, shadow, source) == Some("Aborted."@),
        outcome_words(Outcome::SourceGone, shadow, source) == Some(
            "Source directory "@ + shown(source)
                + " no longer exists. It may have been moved or deleted.\nThe shadow is still at "@
                + shown(shadow) + " — you can inspect it manually with `cc-sandbox path`."@,
        ),
        outcome_words(Outcome::MergeFailed, shadow, source) == Some(
            "rsync failed. The shadow is preserved at "@ + shown(shadow)
                + " — inspect and retry.\nThe source at "@ + shown(source)
                + " may be partially updated."@,
        ),
        outcome_words(Outcome::MergeNotRun, shadow, source) == Some("Failed to execute rsync"@),
        outcome_words(Outcome::NoAnswer, shadow, source) == Some("Failed to read from stdin"@),
        outcome_words(Outcome::NotOwned, shadow, source) == Some(
            "BUG: shadow path "@ + shown(shadow)
                + " is not under any known shadow root. Refusing to rm -rf."@,
        ),
        outcome_words(Outcome::NotRemoved, shadow, source) == Some(
            "Failed to remove shadow directory "@ + shown(shadow),
        ),
        outcome_words(Outcome::NotMeasured, shadow, source) is None,
        outcome_words(Outcome::NotStopped, shadow, source) is None,
{
}

/// Asked whether to go on, a yes goes on and a no ends the command, whatever was measured; to have
/// accepted, and to have been told no, is to have succeeded, and nothing else is.
pub proof fn answer_decides(
    job: &Job,
    summary: ChangeSummary,
    agreed: Stage,
    refused: Stage,
    outcome: Outcome,
    success: bool,
)
    requires
        call_ensures(run, (job, Stage::Asking(summary), Event::Yes), agreed),
        call_ensures(run, (job, Stage::Asking(summary), Event::No), refused),
        call_ensures(succeeded, (outcome,), success),
    ensures
        agreed == Stage::Stopping,
        refused == Stage::Finished(Outcome::Aborted),
        success <==> outcome == Outcome::Accepted || outcome == Outcome::Aborted,
{
}

} // verus!
