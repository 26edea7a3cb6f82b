//! Procedures that wait for the outside world between decisions.
//!
//! A stage of a procedure stands for an [`Action`] that is to be done next. The caller does it and
//! reports how it went as an [`Event`]; the procedure answers with the next stage.
use crate::path::FsPath;
use crate::shadow::{ChangeSummary, MetaView, ShadowMeta};
use crate::tool::Invocation;
use vstd::prelude::*;

verus! {

/// What the caller is asked to do.
#[derive(Debug)]
pub enum Action {
    /// Nothing: the procedure is over.
    Nothing,
    /// Find the path without links that this one leads to: `Done` or `Failed`.
    Resolve(FsPath),
    /// Find out whether there is a directory: `Yes` or `No`.
    IsDirectory(FsPath),
    /// Find out whether a directory has a devcontainer configuration: `Yes` or `No`.
    HasDevcontainer(FsPath),
    /// Find out whether there is anything: `Yes` or `No`.
    Exists(FsPath),
    /// Create a directory and those above it: `Done` or `Failed`.
    CreateDirectories(FsPath),
    /// Create a directory where there is nothing: `Done` or `Failed`.
    CreateDirectory(FsPath),
    /// Run a program: `Done`, `No` where it reported failure, `Failed` where it could not be run.
    Run(Invocation),
    /// Start the container of this workspace with this program, out of sight: `Done`, `No` where it
    /// reported failure, `Failed` where it could not be run.
    StartContainer(FsPath, Invocation),
    /// Run a program and find out whether it reports success and prints anything but white space:
    /// `Yes` or `No`.
    Prints(Invocation),
    /// Run a program and count the changes that it prints: `Measured` or `Failed`.
    Measure(Invocation),
    /// Run a program and count the lines that it prints: `Counted`.
    CountLines(Invocation),
    /// Say something: `Done`.
    Say(String),
    /// Ask a question: `Yes`, `No`, or `Failed` where there is no answer.
    Ask(String),
    /// Ask for a path, and hand over what was typed; or `Failed` where there is no answer.
    AskPath(String),
    /// Stop and remove the container of this workspace: `Done` or `Failed`.
    StopContainer(FsPath),
    /// Load the configuration, or create it where there is none: `Done` or `Failed`.
    LoadConfig,
    /// Read the configuration from a file: `Done`, `No` where it is none, `Failed` where the file
    /// cannot be read.
    ReadConfig(FsPath),
    /// Find the shadow root for this source, asking for it and saving it where it is not known:
    /// `Done` or `Failed`.
    FindRoot(FsPath),
    /// Find the place of the shadow of this source: `Done`, or `Failed` where there is none.
    FindPlace(FsPath),
    /// Read the clock for what the shadow records of itself: `Done`, or `Failed` where it shows a
    /// time without a date.
    Stamp,
    /// Write what a shadow records of itself to a file: `Done` or `Failed`.
    Record(FsPath, ShadowMeta),
    /// Write the configuration to a file: `Done` or `Failed`.
    WriteConfig(FsPath),
    /// Give the first file the name of the second, in whose place it comes: `Done` or `Failed`.
    Rename(FsPath, FsPath),
    /// Remove a directory and all in it: `Done` or `Failed`.
    RemoveTree(FsPath),
    /// Remove a directory and all in it, as far as that can be done: `Done`.
    Discard(FsPath),
    /// Remove a directory if it is empty: `Done` or `Failed`.
    RemoveEmpty(FsPath),
}

/// The contents of an [`Action`].
pub enum ActionView {
    Nothing,
    Resolve(Seq<u8>),
    IsDirectory(Seq<u8>),
    HasDevcontainer(Seq<u8>),
    Exists(Seq<u8>),
    CreateDirectories(Seq<u8>),
    CreateDirectory(Seq<u8>),
    Run((Seq<char>, Seq<Seq<char>>)),
    StartContainer(Seq<u8>, (Seq<char>, Seq<Seq<char>>)),
    Prints((Seq<char>, Seq<Seq<char>>)),
    Measure((Seq<char>, Seq<Seq<char>>)),
    CountLines((Seq<char>, Seq<Seq<char>>)),
    Say(Seq<char>),
    Ask(Seq<char>),
    AskPath(Seq<char>),
    StopContainer(Seq<u8>),
    LoadConfig,
    ReadConfig(Seq<u8>),
    FindRoot(Seq<u8>),
    FindPlace(Seq<u8>),
    Stamp,
    Record(Seq<u8>, MetaView),
    WriteConfig(Seq<u8>),
    Rename(Seq<u8>, Seq<u8>),
    RemoveTree(Seq<u8>),
    Discard(Seq<u8>),
    RemoveEmpty(Seq<u8>),
}

impl View for Action {
    type V = ActionView;

    open spec fn view(&self) -> ActionView {
        match self {
            Action::Nothing => ActionView::Nothing,
            Action::Resolve(place) => ActionView::Resolve(place@),
            Action::IsDirectory(place) => ActionView::IsDirectory(place@),
            Action::HasDevcontainer(place) => ActionView::HasDevcontainer(place@),
            Action::Exists(place) => ActionView::Exists(place@),
            Action::CreateDirectories(place) => ActionView::CreateDirectories(place@),
            Action::CreateDirectory(place) => ActionView::CreateDirectory(place@),
            Action::Run(invocation) => ActionView::Run(invocation@),
            Action::StartContainer(place, invocation) => ActionView::StartContainer(
                place@,
                invocation@,
            ),
            Action::Prints(invocation) => ActionView::Prints(invocation@),
            Action::Measure(invocation) => ActionView::Measure(invocation@),
            Action::CountLines(invocation) => ActionView::CountLines(invocation@),
            Action::Say(text) => ActionView::Say(text@),
            Action::Ask(text) => ActionView::Ask(text@),
            Action::AskPath(text) => ActionView::AskPath(text@),
            Action::StopContainer(place) => ActionView::StopContainer(place@),
            Action::LoadConfig => ActionView::LoadConfig,
            Action::ReadConfig(place) => ActionView::ReadConfig(place@),
            Action::FindRoot(place) => ActionView::FindRoot(place@),
            Action::FindPlace(place) => ActionView::FindPlace(place@),
            Action::Stamp => ActionView::Stamp,
            Action::Record(place, meta) => ActionView::Record(place@, meta@),
            Action::WriteConfig(place) => ActionView::WriteConfig(place@),
            Action::Rename(from, to) => ActionView::Rename(from@, to@),
            Action::RemoveTree(place) => ActionView::RemoveTree(place@),
            Action::Discard(place) => ActionView::Discard(place@),
            Action::RemoveEmpty(place) => ActionView::RemoveEmpty(place@),
        }
    }
}

impl ActionView {
    /// Whether the action can change what is on disk.
    pub open spec fn writes(self) -> bool {
        ||| self is CreateDirectories
        ||| self is CreateDirectory
        ||| self is Run
        ||| self is StartContainer
        ||| self is LoadConfig
        ||| self is FindRoot
        ||| self is Discard
        ||| self is Record
        ||| self is WriteConfig
        ||| self is Rename
        ||| self is RemoveTree
        ||| self is RemoveEmpty
    }

    /// Whether an event tells how the action went.
    pub open spec fn answered_by(self, event: Event) -> bool {
        match self {
            ActionView::IsDirectory(_) | ActionView::HasDevcontainer(_) => event == Event::Yes
                || event == Event::No,
            ActionView::Exists(_) | ActionView::Prints(_) => event == Event::Yes || event
                == Event::No,
            ActionView::Ask(_) => event == Event::Yes || event == Event::No || event
                == Event::Failed,
            ActionView::Run(_) | ActionView::StartContainer(_, _) => event == Event::Done || event
                == Event::No || event == Event::Failed,
            ActionView::ReadConfig(_) => event == Event::Done || event == Event::No || event
                == Event::Failed,
            ActionView::Measure(_) => event is Measured || event == Event::Failed,
            ActionView::CountLines(_) => event is Counted,
            ActionView::Say(_) | ActionView::Discard(_) => event == Event::Done,
            ActionView::AskPath(_) => event == Event::Failed,
            ActionView::Nothing => false,
            _ => event == Event::Done || event == Event::Failed,
        }
    }

    /// Whether the action can ask the user something.
    pub open spec fn asks(self) -> bool {
        self is Ask || self is AskPath || self is FindRoot
    }

    /// Whether the action runs a program that can change something.
    pub open spec fn runs(self) -> bool {
        self is Run || self is StartContainer || self is StopContainer
    }
}

/// How what a stage asked for went.
#[derive(Clone, Copy, Debug, PartialEq, Eq, Structural)]
pub enum Event {
    /// The question was answered with yes.
    Yes,
    /// The question was answered with no, or the program that was run reported failure.
    No,
    /// It was done.
    Done,
    /// It could not be done.
    Failed,
    /// The changes were counted.
    Measured(ChangeSummary),
    /// The files were counted.
    Counted(usize),
}

/// Whether `stages` are what a procedure goes through from `first` on, given these events.
pub open spec fn is_run<S>(
    next: spec_fn(S, Event) -> S,
    first: S,
    stages: Seq<S>,
    events: Seq<Event>,
) -> bool {
    &&& stages.len() == events.len() + 1
    &&& stages[0] == first
    &&& forall|i: int|
        0 <= i < events.len() ==> #[trigger] stages[i + 1] == next(stages[i], events[i])
}

/// A run that gets to where `late` holds passes into it at some step.
pub proof fn lemma_passes_into<S>(
    next: spec_fn(S, Event) -> S,
    first: S,
    stages: Seq<S>,
    events: Seq<Event>,
    late: spec_fn(S) -> bool,
    j: int,
) -> (i: int)
    requires
        is_run(next, first, stages, events),
        !late(first),
        0 <= j < stages.len(),
        late(stages[j]),
    ensures
        0 <= i < j,
        !late(stages[i]),
        late(stages[i + 1]),
        stages[i + 1] == next(stages[i], events[i]),
    decreases j,
{
    if late(stages[j - 1]) {
        lemma_passes_into(next, first, stages, events, late, j - 1)
    } else {
        let i = j - 1;
        assert(stages[i + 1] == next(stages[i], events[i]));
        i
    }
}

/// Where `late` is never left, a run that is in it stays in it.
pub proof fn lemma_stays<S>(
    next: spec_fn(S, Event) -> S,
    first: S,
    stages: Seq<S>,
    events: Seq<Event>,
    late: spec_fn(S) -> bool,
    i: int,
    j: int,
)
    requires
        is_run(next, first, stages, events),
        forall|s: S, e: Event| late(s) ==> late(#[trigger] next(s, e)),
        0 <= i <= j < stages.len(),
        late(stages[i]),
    ensures
        late(stages[j]),
    decreases j,
{
    if i < j {
        lemma_stays(next, first, stages, events, late, i, j - 1);
        let k = j - 1;
        assert(stages[k + 1] == next(stages[k], events[k]));
    }
}

/// The stage that a procedure gets to from `first`, given these events.
pub open spec fn ends_at<S>(next: spec_fn(S, Event) -> S, first: S, events: Seq<Event>) -> S
    decreases events.len(),
{
    if events.len() == 0 {
        first
    } else {
        next(ends_at(next, first, events.drop_last()), events.last())
    }
}

/// Events in a row take a procedure on from where those before them took it.
pub proof fn lemma_ends_at<S>(
    next: spec_fn(S, Event) -> S,
    first: S,
    a: Seq<Event>,
    b: Seq<Event>,
)
    ensures
        ends_at(next, first, a + b) == ends_at(next, ends_at(next, first, a), b),
    decreases b.len(),
{
    if b.len() == 0 {
        assert(a + b =~= a);
    } else {
        lemma_ends_at(next, first, a, b.drop_last());
        assert((a + b).drop_last() =~= a + b.drop_last());
    }
}

} // verus!
