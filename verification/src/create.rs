//! Making a shadow: a reflink copy of the source in a directory of its own.
use crate::path::{parent, parent_or_empty, FsPath};
use crate::step::{is_run, lemma_passes_into, Action, ActionView, Event};
use crate::text::shown;
use crate::tool::Invocation;
use vstd::prelude::*;

verus! {

/// What is to be done next.
#[derive(Clone, Copy, Debug, PartialEq, Eq, Structural)]
pub enum CreateStage {
    /// Ask whether the shadow's path exists.
    Probing,
    /// Create the directories above the shadow.
    CreatingParents,
    /// Create the shadow's directory, which must not exist.
    CreatingDirectory,
    /// Run the copy.
    Copying,
    /// Remove the shadow's directory and all in it, as far as that can be done, after a copy that
    /// reported failure, or that could not be run.
    CleaningUp { ran: bool },
    /// Nothing.
    Finished(CreateOutcome),
}

/// How making a shadow ended.
#[derive(Clone, Copy, Debug, PartialEq, Eq, Structural)]
pub enum CreateOutcome {
    Created,
    AlreadyExists,
    NoParents,
    NoDirectory,
    CopyFailed,
    CopyNotRun,
}

/// The stage after `stage`. An event that does not answer the stage leaves it as it is.
pub open spec fn after(has_parent: bool, stage: CreateStage, event: Event) -> CreateStage {
    match (stage, event) {
        (CreateStage::Probing, Event::Yes) => CreateStage::Finished(CreateOutcome::AlreadyExists),
        (CreateStage::Probing, Event::No) => if has_parent {
            CreateStage::CreatingParents
        } else {
            CreateStage::CreatingDirectory
        },
        (CreateStage::CreatingParents, Event::Done) => CreateStage::CreatingDirectory,
        (CreateStage::CreatingParents, Event::Failed) => CreateStage::Finished(
            CreateOutcome::NoParents,
        ),
        (CreateStage::CreatingDirectory, Event::Done) => CreateStage::Copying,
        (CreateStage::CreatingDirectory, Event::Failed) => CreateStage::Finished(
            CreateOutcome::NoDirectory,
        ),
        (CreateStage::Copying, Event::Done) => CreateStage::Finished(CreateOutcome::Created),
        (CreateStage::Copying, Event::No) => CreateStage::CleaningUp { ran: true },
        (CreateStage::Copying, Event::Failed) => CreateStage::CleaningUp { ran: false },
        (CreateStage::CleaningUp { ran }, Event::Done) => CreateStage::Finished(
            if ran {
                CreateOutcome::CopyFailed
            } else {
                CreateOutcome::CopyNotRun
            },
        ),
        _ => stage,
    }
}

/// Create a reflink shadow copy of a source: the stage that follows. On failure of the copy, the
/// partial shadow directory is cleaned up.
pub fn create_shadow(has_parent: bool, stage: CreateStage, event: Event) -> (res: CreateStage)
    ensures
        res == after(has_parent, stage, event),
{
    match (stage, event) {
        (CreateStage::Probing, Event::Yes) => CreateStage::Finished(CreateOutcome::AlreadyExists),
        (CreateStage::Probing, Event::No) => if has_parent {
            CreateStage::CreatingParents
        } else {
            CreateStage::CreatingDirectory
        },
        (CreateStage::CreatingParents, Event::Done) => CreateStage::CreatingDirectory,
        (CreateStage::CreatingParents, Event::Failed) => CreateStage::Finished(
            CreateOutcome::NoParents,
        ),
        (CreateStage::CreatingDirectory, Event::Done) => CreateStage::Copying,
        (CreateStage::CreatingDirectory, Event::Failed) => CreateStage::Finished(
            CreateOutcome::NoDirectory,
        ),
        (CreateStage::Copying, Event::Done) => CreateStage::Finished(CreateOutcome::Created),
        (CreateStage::Copying, Event::No) => CreateStage::CleaningUp { ran: true },
        (CreateStage::Copying, Event::Failed) => CreateStage::CleaningUp { ran: false },
        (CreateStage::CleaningUp { ran }, Event::Done) => CreateStage::Finished(
            if ran {
                CreateOutcome::CopyFailed
            } else {
                CreateOutcome::CopyNotRun
            },
        ),
        _ => stage,
    }
}

/// The copy of all that is in `source` into `shadow`, which shares the blocks or fails.
pub open spec fn copying(source: Seq<u8>, shadow: Seq<u8>) -> (Seq<char>, Seq<Seq<char>>) {
    ("cp"@, seq!["--reflink=always"@, "-a"@, shown(source) + "/."@, shown(shadow)])
}

/// The copy of all that is in `source` into `shadow`.
pub fn copy_invocation(source: &FsPath, shadow: &FsPath) -> (res: Invocation)
    ensures
        res@ == copying(source@, shadow@),
{
    Invocation::new("cp").arg("--reflink=always").arg("-a").arg(
        source.display().concat("/.").as_str(),
    ).arg(shadow.display().as_str())
}

/// What is to be done at `stage`.
pub open spec fn acts(stage: CreateStage, source: Seq<u8>, shadow: Seq<u8>) -> ActionView {
    match stage {
        CreateStage::Probing => ActionView::Exists(shadow),
        CreateStage::CreatingParents => ActionView::CreateDirectories(parent_or_empty(shadow)),
        CreateStage::CreatingDirectory => ActionView::CreateDirectory(shadow),
        CreateStage::Copying => ActionView::Run(copying(source, shadow)),
        CreateStage::CleaningUp { .. } => ActionView::Discard(shadow),
        CreateStage::Finished(_) => ActionView::Nothing,
    }
}

/// What is to be done at `stage`.
pub fn action(stage: CreateStage, source: &FsPath, shadow: &FsPath) -> (res: Action)
    ensures
        res@ == acts(stage, source@, shadow@),
{
    match stage {
        CreateStage::Probing => Action::Exists(shadow.clone()),
        CreateStage::CreatingParents => Action::CreateDirectories(shadow.parent_or_empty()),
        CreateStage::CreatingDirectory => Action::CreateDirectory(shadow.clone()),
        CreateStage::Copying => Action::Run(copy_invocation(source, shadow)),
        CreateStage::CleaningUp { .. } => Action::Discard(shadow.clone()),
        CreateStage::Finished(_) => Action::Nothing,
    }
}

/// What is said of the outcome, where it is a failure.
pub open spec fn outcome_words(
    outcome: CreateOutcome,
    source: Seq<u8>,
    shadow: Seq<u8>,
) -> Option<Seq<char>> {
    match outcome {
        CreateOutcome::Created => None,
        CreateOutcome::AlreadyExists => Some(
            "Shadow path already exists: "@ + shown(shadow)
                + ". Use a different --name or wait a minute for the timestamp to change."@,
        ),
        CreateOutcome::NoParents => Some(
            "Failed to create shadow parent directory "@ + shown(parent_or_empty(shadow)),
        ),
        CreateOutcome::NoDirectory => Some("Failed to create shadow directory "@ + shown(shadow)),
        CreateOutcome::CopyFailed => Some(
            "cp --reflink=always failed for "@ + shown(source)
                + ". The source directory appears to be on a filesystem that does not support reflink copies. Move the project to a Btrfs, XFS-with-reflink, or ZFS 2.2+ volume."@,
        ),
        CreateOutcome::CopyNotRun => Some("Failed to execute cp"@),
    }
}

/// What is said of the outcome, where it is a failure.
pub fn outcome_message(outcome: CreateOutcome, source: &FsPath, shadow: &FsPath) -> (res: Option<
    String,
>)
    ensures
        match res {
            Some(text) => outcome_words(outcome, source@, shadow@) == Some(text@),
            None => outcome_words(outcome, source@, shadow@) is None,
        },
{
    match outcome {
        CreateOutcome::Created => None,
        CreateOutcome::AlreadyExists => {
            let mut out = "Shadow path already exists: ".to_owned();
            out.append(shadow.display().as_str());
            out.append(". Use a different --name or wait a minute for the timestamp to change.");
            Some(out)
        },
        CreateOutcome::NoParents => Some(
            "Failed to create shadow parent directory ".to_owned().concat(
                shadow.parent_or_empty().display().as_str(),
            ),
        ),
        CreateOutcome::NoDirectory => Some(
            "Failed to create shadow directory ".to_owned().concat(shadow.display().as_str()),
        ),
        CreateOutcome::CopyFailed => {
            let mut out = "cp --reflink=always failed for ".to_owned();
            out.append(source.display().as_str());
            out.append(
                ". The source directory appears to be on a filesystem that does not support reflink copies. Move the project to a Btrfs, XFS-with-reflink, or ZFS 2.2+ volume.",
            );
            Some(out)
        },
        CreateOutcome::CopyNotRun => Some("Failed to execute cp".to_owned()),
    }
}

/// A copy never falls back to copying the blocks: its options ask for reflinks always, and not for
/// them where they can be had.
pub proof fn copy_always_reflinks(source: Seq<u8>, shadow: Seq<u8>)
    ensures
        copying(source, shadow).1.contains("--reflink=always"@),
        !(copying(source, shadow).1.take(2).contains("--reflink=auto"@)),
{
    let args = copying(source, shadow).1;
    assert(args[0] == "--reflink=always"@);
    reveal_strlit("--reflink=always");
    reveal_strlit("--reflink=auto");
    reveal_strlit("-a");
    assert forall|i: int| 0 <= i < 2 implies args.take(2)[i] != "--reflink=auto"@ by {
        assert(args.take(2)[i] == args[i]);
        assert(args[0].len() == 16 && args[1].len() == 2);
    }
}

/// A shadow is made only where nothing was before, and only by a copy that succeeded.
pub proof fn created_by_a_copy(
    has_parent: bool,
    stages: Seq<CreateStage>,
    events: Seq<Event>,
    j: int,
)
    requires
        is_run(
            |s: CreateStage, e: Event| after(has_parent, s, e),
            CreateStage::Probing,
            stages,
            events,
        ),
        0 <= j < stages.len(),
        stages[j] == CreateStage::Finished(CreateOutcome::Created),
    ensures
        exists|i: int|
            0 <= i < j && stages[i] == CreateStage::Probing && #[trigger] events[i] == Event::No,
        exists|i: int|
            0 <= i < j && stages[i] == CreateStage::Copying && #[trigger] events[i] == Event::Done,
{
    let next = |s: CreateStage, e: Event| after(has_parent, s, e);
    let i = lemma_passes_into(
        next,
        CreateStage::Probing,
        stages,
        events,
        |s: CreateStage| s == CreateStage::Finished(CreateOutcome::Created),
        j,
    );
    assert(stages[i] == CreateStage::Copying && events[i] == Event::Done);
    let k = lemma_passes_into(
        next,
        CreateStage::Probing,
        stages,
        events,
        |s: CreateStage|
            s != CreateStage::Probing && s != CreateStage::Finished(CreateOutcome::AlreadyExists),
        j,
    );
    assert(stages[k] == CreateStage::Probing && events[k] == Event::No);
}

/// What the clean-up removes is the directory that this run created: a path that existed before is
/// never removed.
pub proof fn only_own_directory_is_removed(
    has_parent: bool,
    stages: Seq<CreateStage>,
    events: Seq<Event>,
    j: int,
)
    requires
        is_run(
            |s: CreateStage, e: Event| after(has_parent, s, e),
            CreateStage::Probing,
            stages,
            events,
        ),
        0 <= j < stages.len(),
        stages[j] is CleaningUp,
    ensures
        exists|i: int|
            0 <= i < j && stages[i] == CreateStage::CreatingDirectory && #[trigger] events[i]
                == Event::Done,
{
    let next = |s: CreateStage, e: Event| after(has_parent, s, e);
    let i = lemma_passes_into(
        next,
        CreateStage::Probing,
        stages,
        events,
        |s: CreateStage|
            s == CreateStage::Copying || s is CleaningUp || s == CreateStage::Finished(
                CreateOutcome::Created,
            ) || s == CreateStage::Finished(CreateOutcome::CopyFailed) || s
                == CreateStage::Finished(CreateOutcome::CopyNotRun),
        j,
    );
    assert(stages[i] == CreateStage::CreatingDirectory && events[i] == Event::Done);
}

/// A copy that did not succeed is cleaned up before the run ends.
pub proof fn failed_copy_is_cleaned_up(
    has_parent: bool,
    stages: Seq<CreateStage>,
    events: Seq<Event>,
    j: int,
)
    requires
        is_run(
            |s: CreateStage, e: Event| after(has_parent, s, e),
            CreateStage::Probing,
            stages,
            events,
        ),
        0 <= j < stages.len(),
        stages[j] == CreateStage::Finished(CreateOutcome::CopyFailed) || stages[j]
            == CreateStage::Finished(CreateOutcome::CopyNotRun),
    ensures
        exists|i: int| 0 <= i < j && #[trigger] stages[i] is CleaningUp,
{
    let next = |s: CreateStage, e: Event| after(has_parent, s, e);
    let i = lemma_passes_into(
        next,
        CreateStage::Probing,
        stages,
        events,
        |s: CreateStage|
            s == CreateStage::Finished(CreateOutcome::CopyFailed) || s == CreateStage::Finished(
                CreateOutcome::CopyNotRun,
            ),
        j,
    );
    assert(stages[i] is CleaningUp);
}

/// What goes well leads on: a shadow is made where nothing is, in a directory that is created with
/// those above it, by a copy; and a copy that succeeds is all that it takes.
pub proof fn good_answers_lead_on(has_parent: bool)
    ensures
        has_parent ==> after(has_parent, CreateStage::Probing, Event::No)
            == CreateStage::CreatingParents,
        !has_parent ==> after(has_parent, CreateStage::Probing, Event::No)
            == CreateStage::CreatingDirectory,
        after(has_parent, CreateStage::CreatingParents, Event::Done)
            == CreateStage::CreatingDirectory,
        after(has_parent, CreateStage::CreatingDirectory, Event::Done) == CreateStage::Copying,
        after(has_parent, CreateStage::Copying, Event::Done) == CreateStage::Finished(
            CreateOutcome::Created,
        ),
        after(has_parent, CreateStage::Copying, Event::No) == (CreateStage::CleaningUp {
            ran: true,
        }),
        after(has_parent, CreateStage::Copying, Event::Failed) == (CreateStage::CleaningUp {
            ran: false,
        }),
{
}

/// How making a shadow can end, and by what alone.
pub proof fn outcomes_have_their_causes(has_parent: bool, stage: CreateStage, event: Event)
    requires
        !(stage is Finished),
    ensures
        after(has_parent, stage, event) == CreateStage::Finished(CreateOutcome::AlreadyExists)
            <==> stage == CreateStage::Probing && event == Event::Yes,
        after(has_parent, stage, event) == CreateStage::Finished(CreateOutcome::NoParents) <==> stage
            == CreateStage::CreatingParents && event == Event::Failed,
        after(has_parent, stage, event) == CreateStage::Finished(CreateOutcome::NoDirectory)
            <==> stage == CreateStage::CreatingDirectory && event == Event::Failed,
        after(has_parent, stage, event) == CreateStage::Finished(CreateOutcome::Created) <==> stage
            == CreateStage::Copying && event == Event::Done,
        after(has_parent, stage, event) == CreateStage::Finished(CreateOutcome::CopyFailed)
            <==> stage == (CreateStage::CleaningUp { ran: true }) && event == Event::Done,
        after(has_parent, stage, event) == CreateStage::Finished(CreateOutcome::CopyNotRun)
            <==> stage == (CreateStage::CleaningUp { ran: false }) && event == Event::Done,
{
}

/// It goes on exactly by an answer to what it asked to be done.
pub proof fn only_answers_lead_on(
    has_parent: bool,
    stage: CreateStage,
    event: Event,
    source: Seq<u8>,
    shadow: Seq<u8>,
)
    ensures
        after(has_parent, stage, event) != stage <==> acts(stage, source, shadow).answered_by(event),
{
}

/// What is done at each stage, and what is said where it fails.
pub proof fn stages_do_what_they_say(source: Seq<u8>, shadow: Seq<u8>, ran: bool)
    ensures
        acts(CreateStage::Probing, source, shadow) == ActionView::Exists(shadow),
        parent(shadow) matches Some(dir) ==> acts(CreateStage::CreatingParents, source, shadow)
            == ActionView::CreateDirectories(dir),
        acts(CreateStage::CreatingDirectory, source, shadow) == ActionView::CreateDirectory(shadow),
        acts(CreateStage::Copying, source, shadow) == ActionView::Run(
            (
                "cp"@,
                seq!["--reflink=always"@, "-a"@, shown(source) + "/."@, shown(shadow)],
            ),
        ),
        acts(CreateStage::CleaningUp { ran }, source, shadow) == ActionView::Discard(shadow),
        outcome_words(CreateOutcome::Created, source, shadow) is None,
        outcome_words(CreateOutcome::AlreadyExists, source, shadow) == Some(
            "Shadow path already exists: "@ + shown(shadow)
                + ". Use a different --name or wait a minute for the timestamp to change."@,
        ),
        parent(shadow) matches Some(dir) ==> outcome_words(
            CreateOutcome::NoParents,
            source,
            shadow,
        ) == Some("Failed to create shadow parent directory "@ + shown(dir)),
        outcome_words(CreateOutcome::NoDirectory, source, shadow) == Some(
            "Failed to create shadow directory "@ + shown(shadow),
        ),
        outcome_words(CreateOutcome::CopyFailed, source, shadow) == Some(
            "cp --reflink=always failed for "@ + shown(source)
                + ". The source directory appears to be on a filesystem that does not support reflink copies. Move the project to a Btrfs, XFS-with-reflink, or ZFS 2.2+ volume."@,
        ),
        outcome_words(CreateOutcome::CopyNotRun, source, shadow) == Some("Failed to execute cp"@),
{
}

} // verus!
