//! Making a shadow and letting an agent loose in it.
use crate::config::Config;
use crate::create::{self, CreateOutcome, CreateStage};
use crate::devcontainer::{devcontainer_exec, devcontainer_up, running, starting};
use crate::moment::{is_reading, Moment};
use crate::path::{joined, parent, parent_or_empty, FsPath};
use crate::shadow::{
    self, compute_shadow_path, meta_at, meta_path, meta_place, name_of, new_meta, record_of,
    recorded_at, shadow_path_for, MetaView, ShadowMeta, ShadowPathError,
};
use crate::step::{
    ends_at, is_run, lemma_ends_at, lemma_passes_into, lemma_stays, Action, ActionView, Event,
};
use crate::text::{shown, text_lossy, trim, trimmed};
use crate::tool::Invocation;
use vstd::prelude::*;
use vstd::utf8::encode_utf8;

verus! {

// ---------------------------------------------------------------------------------------------
// Whether the source can be shadowed
// ---------------------------------------------------------------------------------------------

/// What is to be found out next of the source.
#[derive(Clone, Copy, Debug, PartialEq, Eq, Structural)]
pub enum CheckStage {
    /// Whether it is a directory.
    Directory,
    /// Whether it has a devcontainer configuration.
    Devcontainer,
    /// Whether it has changes that are in no commit.
    Changes,
    /// Say that it has.
    Warning,
    /// Nothing.
    Finished(Verdict),
}

/// Whether the source can be shadowed.
#[derive(Clone, Copy, Debug, PartialEq, Eq, Structural)]
pub enum Verdict {
    Ready,
    NotADirectory,
    NoDevcontainer,
}

/// The stage after `stage`. An event that does not answer the stage leaves it as it is.
pub open spec fn after_check(stage: CheckStage, event: Event) -> CheckStage {
    match (stage, event) {
        (CheckStage::Directory, Event::Yes) => CheckStage::Devcontainer,
        (CheckStage::Directory, Event::No) => CheckStage::Finished(Verdict::NotADirectory),
        (CheckStage::Devcontainer, Event::Yes) => CheckStage::Changes,
        (CheckStage::Devcontainer, Event::No) => CheckStage::Finished(Verdict::NoDevcontainer),
        (CheckStage::Changes, Event::Yes) => CheckStage::Warning,
        (CheckStage::Changes, Event::No) => CheckStage::Finished(Verdict::Ready),
        (CheckStage::Warning, Event::Done) => CheckStage::Finished(Verdict::Ready),
        _ => stage,
    }
}

/// Check that the source is a directory with a devcontainer configuration, and warn on dirty git
/// state: the stage that follows.
pub fn check(stage: CheckStage, event: Event) -> (res: CheckStage)
    ensures
        res == after_check(stage, event),
{
    match (stage, event) {
        (CheckStage::Directory, Event::Yes) => CheckStage::Devcontainer,
        (CheckStage::Directory, Event::No) => CheckStage::Finished(Verdict::NotADirectory),
        (CheckStage::Devcontainer, Event::Yes) => CheckStage::Changes,
        (CheckStage::Devcontainer, Event::No) => CheckStage::Finished(Verdict::NoDevcontainer),
        (CheckStage::Changes, Event::Yes) => CheckStage::Warning,
        (CheckStage::Changes, Event::No) => CheckStage::Finished(Verdict::Ready),
        (CheckStage::Warning, Event::Done) => CheckStage::Finished(Verdict::Ready),
        _ => stage,
    }
}

/// Asking for the changes that are in no commit.
pub open spec fn git_status(source: Seq<u8>) -> (Seq<char>, Seq<Seq<char>>) {
    ("git"@, seq!["-C"@, shown(source), "status"@, "--porcelain"@])
}

fn git_status_query(source: &FsPath) -> (res: Invocation)
    ensures
        res@ == git_status(source@),
{
    Invocation::new("git").arg("-C").arg(source.display().as_str()).arg("status").arg(
        "--porcelain",
    )
}

/// What is said of a source with changes that are in no commit.
pub open spec fn warning_words(source: Seq<u8>) -> Seq<char> {
    "Warning: "@ + shown(source) + " has uncommitted changes. The shadow will include them."@
}

fn warning(source: &FsPath) -> (res: String)
    ensures
        res@ == warning_words(source@),
{
    let mut out = "Warning: ".to_owned();
    out.append(source.display().as_str());
    out.append(" has uncommitted changes. The shadow will include them.");
    out
}

/// Whether what git answered means that there are changes in no commit. Where it failed, the source
/// is in no repository, and there are none.
pub fn check_git_dirty(success: bool, stdout: &[u8]) -> (res: bool)
    ensures
        res == (success && trimmed(shown(stdout@)).len() > 0),
{
    success && !trim(text_lossy(stdout).as_str()).as_str().is_empty()
}

/// What is to be done at `stage`.
pub open spec fn check_acts(stage: CheckStage, source: Seq<u8>) -> ActionView {
    match stage {
        CheckStage::Directory => ActionView::IsDirectory(source),
        CheckStage::Devcontainer => ActionView::HasDevcontainer(source),
        CheckStage::Changes => ActionView::Prints(git_status(source)),
        CheckStage::Warning => ActionView::Say(warning_words(source)),
        CheckStage::Finished(_) => ActionView::Nothing,
    }
}

/// What is to be done at `stage`.
pub fn check_action(stage: CheckStage, source: &FsPath) -> (res: Action)
    ensures
        res@ == check_acts(stage, source@),
{
    match stage {
        CheckStage::Directory => Action::IsDirectory(source.clone()),
        CheckStage::Devcontainer => Action::HasDevcontainer(source.clone()),
        CheckStage::Changes => Action::Prints(git_status_query(source)),
        CheckStage::Warning => Action::Say(warning(source)),
        CheckStage::Finished(_) => Action::Nothing,
    }
}

/// What is said of a source that cannot be shadowed.
pub open spec fn verdict_words(verdict: Verdict, source: Seq<u8>) -> Option<Seq<char>> {
    match verdict {
        Verdict::Ready => None,
        Verdict::NotADirectory => Some(shown(source) + " is not a directory."@),
        Verdict::NoDevcontainer => Some(
            "No devcontainer configuration found in "@ + shown(source)
                + ".\ncc-sandbox requires a .devcontainer/devcontainer.json or .devcontainer.json.\nCreate one before using cc-sandbox, or use a different tool."@,
        ),
    }
}

/// What is said of a source that cannot be shadowed.
pub fn verdict_message(verdict: Verdict, source: &FsPath) -> (res: Option<String>)
    ensures
        match res {
            Some(text) => verdict_words(verdict, source@) == Some(text@),
            None => verdict_words(verdict, source@) is None,
        },
{
    match verdict {
        Verdict::Ready => None,
        Verdict::NotADirectory => Some(source.display().concat(" is not a directory.")),
        Verdict::NoDevcontainer => {
            let mut out = "No devcontainer configuration found in ".to_owned();
            out.append(source.display().as_str());
            out.append(
                ".\ncc-sandbox requires a .devcontainer/devcontainer.json or .devcontainer.json.\nCreate one before using cc-sandbox, or use a different tool.",
            );
            Some(out)
        },
    }
}

/// A source is found ready only where it is a directory and has a devcontainer configuration.
/// Uncommitted changes do not keep it from that.
pub proof fn ready_is_a_devcontainer_project(
    stages: Seq<CheckStage>,
    events: Seq<Event>,
    j: int,
)
    requires
        is_run(
            |s: CheckStage, e: Event| after_check(s, e),
            CheckStage::Directory,
            stages,
            events,
        ),
        0 <= j < stages.len(),
        stages[j] == CheckStage::Finished(Verdict::Ready),
    ensures
        exists|i: int|
            0 <= i < j && stages[i] == CheckStage::Directory && #[trigger] events[i] == Event::Yes,
        exists|i: int|
            0 <= i < j && stages[i] == CheckStage::Devcontainer && #[trigger] events[i]
                == Event::Yes,
{
    let next = |s: CheckStage, e: Event| after_check(s, e);
    let d = lemma_passes_into(
        next,
        CheckStage::Directory,
        stages,
        events,
        |s: CheckStage|
            s != CheckStage::Directory && s != CheckStage::Finished(Verdict::NotADirectory),
        j,
    );
    assert(stages[d] == CheckStage::Directory && events[d] == Event::Yes);
    let f = lemma_passes_into(
        next,
        CheckStage::Directory,
        stages,
        events,
        |s: CheckStage|
            s == CheckStage::Changes || s == CheckStage::Warning || s == CheckStage::Finished(
                Verdict::Ready,
            ),
        j,
    );
    assert(stages[f] == CheckStage::Devcontainer && events[f] == Event::Yes);
}

/// Checking a source changes nothing on disk.
pub proof fn check_writes_nothing(stage: CheckStage, source: Seq<u8>)
    ensures
        !check_acts(stage, source).writes(),
{
}

// ---------------------------------------------------------------------------------------------
// From the path to the agent
// ---------------------------------------------------------------------------------------------

/// What the command works on. What is not known yet is empty: the source until the path is resolved,
/// the shadow and the command until the shadow is placed, and what the shadow records until the clock
/// was read for it.
#[derive(Debug)]
pub struct Errand {
    path: FsPath,
    name: Option<String>,
    source: FsPath,
    shadow: FsPath,
    command: Vec<String>,
    meta: Option<ShadowMeta>,
}

/// The contents of an [`Errand`]: the path and the name that were given, the source, its shadow, the
/// command that runs the agent, and what the shadow records.
#[verifier::ext_equal]
pub struct ErrandView {
    pub path: Seq<u8>,
    pub name: Option<Seq<char>>,
    pub source: Seq<u8>,
    pub shadow: Seq<u8>,
    pub command: Seq<Seq<char>>,
    pub meta: Option<MetaView>,
}

impl View for Errand {
    type V = ErrandView;

    closed spec fn view(&self) -> ErrandView {
        ErrandView {
            path: self.path@,
            name: match self.name {
                Some(name) => Some(name@),
                None => None,
            },
            source: self.source@,
            shadow: self.shadow@,
            command: self.command.deep_view(),
            meta: record_of(self.meta),
        }
    }
}

/// The errand once its shadow is placed at `place`, to run the agent of the configuration.
pub open spec fn placed(errand: ErrandView, place: Seq<u8>, agent: Seq<Seq<char>>) -> ErrandView {
    ErrandView { shadow: place, command: agent, ..errand }
}

/// The errand after its shadow was to be placed: unchanged where there is no place.
pub open spec fn after_placing(
    errand: ErrandView,
    place: Result<Seq<u8>, ShadowPathError>,
    agent: Seq<Seq<char>>,
) -> ErrandView {
    match place {
        Ok(place) => placed(errand, place, agent),
        Err(_) => errand,
    }
}

fn copy_texts(texts: &Vec<String>) -> (res: Vec<String>)
    ensures
        res.deep_view() == texts.deep_view(),
{
    let ghost all = texts.deep_view();
    let mut out: Vec<String> = Vec::new();
    let mut i: usize = 0;
    assert(all.len() == texts@.len());
    assert(out.deep_view() =~= all.take(0));
    while i < texts.len()
        invariant
            all == texts.deep_view(),
            all.len() == texts@.len(),
            i <= texts@.len(),
            out.deep_view() == all.take(i as int),
        decreases texts@.len() - i,
    {
        let ghost before = out.deep_view();
        assert(all[i as int] == texts@[i as int]@);
        out.push(texts[i].as_str().to_owned());
        assert(out.deep_view() =~= before.push(all[i as int]));
        assert(out.deep_view() =~= all.take(i + 1));
        i = i + 1;
    }
    assert(all.take(i as int) =~= all);
    out
}

impl Errand {
    /// The errand to shadow what is at this path, under this name if one was given.
    pub fn new(path: FsPath, name: Option<String>) -> (res: Errand)
        ensures
            res@ == (ErrandView {
                path: path@,
                name: match name {
                    Some(name) => Some(name@),
                    None => None,
                },
                source: seq![],
                shadow: seq![],
                command: seq![],
                meta: None,
            }),
    {
        let res = Errand {
            path,
            name,
            source: FsPath { bytes: Vec::new() },
            shadow: FsPath { bytes: Vec::new() },
            command: Vec::new(),
            meta: None,
        };
        assert(res@.command =~= seq![]);
        assert(res@.source =~= seq![]);
        assert(res@.shadow =~= seq![]);
        res
    }

    fn name_text(&self) -> (res: Option<&str>)
        ensures
            name_of(res) == self@.name,
    {
        match &self.name {
            Some(name) => Some(name.as_str()),
            None => None,
        }
    }

    /// The path leads to this source.
    pub fn resolve(&mut self, source: FsPath)
        ensures
            final(self)@ == (ErrandView { source: source@, ..old(self)@ }),
    {
        self.source = source;
    }

    fn settle(&mut self, place: FsPath, config: &Config)
        ensures
            final(self)@ == placed(old(self)@, place@, config.agent.command.deep_view()),
    {
        self.shadow = place;
        self.command = copy_texts(&config.agent.command);
        assert(self@ =~= placed(old(self)@, place@, config.agent.command.deep_view()));
    }

    /// Place the shadow that is made at `now` under the shadow root, and take the command of the
    /// configuration's agent.
    pub fn place_at(
        &mut self,
        config: &Config,
        shadow_root: &FsPath,
        mount_point: &FsPath,
        now: Moment,
    ) -> (res: Result<(), ShadowPathError>)
        requires
            now.valid(),
        ensures
            ({
                let place = shadow::place_at(
                    shadow_root@,
                    mount_point@,
                    old(self)@.source,
                    old(self)@.name,
                    now,
                );
                &&& match res {
                    Ok(_) => place is Ok,
                    Err(e) => place == Err::<Seq<u8>, ShadowPathError>(e),
                }
                &&& final(self)@ == after_placing(
                    old(self)@,
                    place,
                    config.agent.command.deep_view(),
                )
            }),
    {
        match shadow_path_for(shadow_root, mount_point, &self.source, self.name_text(), now) {
            Ok(place) => {
                self.settle(place, config);
                Ok(())
            },
            Err(e) => Err(e),
        }
    }

    /// Place the shadow under the shadow root, and take the command of the configuration's agent.
    /// Without a name, the clock is read.
    pub fn place(&mut self, config: &Config, shadow_root: &FsPath, mount_point: &FsPath) -> (res:
        Result<(), ShadowPathError>)
        ensures
            old(self)@.name is None ==> exists|now: Moment| #[trigger]
                is_reading(now) && ({
                    let place = shadow::place_at(
                        shadow_root@,
                        mount_point@,
                        old(self)@.source,
                        None,
                        now,
                    );
                    &&& match res {
                        Ok(_) => place is Ok,
                        Err(e) => place == Err::<Seq<u8>, ShadowPathError>(e),
                    }
                    &&& final(self)@ == after_placing(
                        old(self)@,
                        place,
                        config.agent.command.deep_view(),
                    )
                }),
            exists|now: Moment| #[trigger]
                now.valid() && ({
                    let place = shadow::place_at(
                        shadow_root@,
                        mount_point@,
                        old(self)@.source,
                        old(self)@.name,
                        now,
                    );
                    &&& match res {
                        Ok(_) => place is Ok,
                        Err(e) => place == Err::<Seq<u8>, ShadowPathError>(e),
                    }
                    &&& final(self)@ == after_placing(
                        old(self)@,
                        place,
                        config.agent.command.deep_view(),
                    )
                }),
    {
        let found = compute_shadow_path(
            shadow_root,
            mount_point,
            &self.source,
            self.name_text(),
        );
        match found {
            Ok(place) => {
                self.settle(place, config);
                Ok(())
            },
            Err(e) => Err(e),
        }
    }

    /// Fix what the shadow records that was made at `created_at`; without a name, its suffix is the
    /// time `now`.
    pub fn stamp_at(&mut self, created_at: Moment, now: Moment) -> (res: Event)
        requires
            created_at.valid(),
            now.valid(),
        ensures
            final(self)@ == (ErrandView {
                meta: recorded_at(old(self)@.source, old(self)@.name, created_at, now),
                ..old(self)@
            }),
            res == (if final(self)@.meta is Some {
                Event::Done
            } else {
                Event::Failed
            }),
    {
        self.meta = meta_at(&self.source, self.name_text(), created_at, now);
        match self.meta {
            Some(_) => Event::Done,
            None => Event::Failed,
        }
    }

    /// Fix what the shadow records that is made now, by the clock.
    pub fn stamp(&mut self) -> (res: Event)
        ensures
            exists|created_at: Moment, now: Moment| #[trigger]
                is_reading(created_at) && #[trigger] is_reading(now) && final(self)@ == (
                ErrandView {
                    meta: recorded_at(old(self)@.source, old(self)@.name, created_at, now),
                    ..old(self)@
                }),
            exists|created_at: Moment, now: Moment| #[trigger]
                created_at.valid() && #[trigger] now.valid() && final(self)@ == (ErrandView {
                    meta: recorded_at(old(self)@.source, old(self)@.name, created_at, now),
                    ..old(self)@
                }),
            old(self)@.name is Some ==> final(self)@.meta is Some,
            res == (if final(self)@.meta is Some {
                Event::Done
            } else {
                Event::Failed
            }),
    {
        self.meta = new_meta(&self.source, self.name_text());
        match self.meta {
            Some(_) => Event::Done,
            None => Event::Failed,
        }
    }
}

/// What is to be done next.
#[derive(Clone, Copy, Debug, PartialEq, Eq, Structural)]
pub enum Stage {
    /// Resolve the path.
    Resolving,
    /// Find out whether the source can be shadowed.
    Checking(CheckStage),
    /// Load the configuration.
    LoadingConfig,
    /// Find the shadow root.
    FindingRoot,
    /// Find the place of the shadow.
    Placing,
    /// Say where the shadow is made.
    Announcing,
    /// Make the shadow.
    Creating(CreateStage),
    /// Read the clock for what the shadow records of itself.
    Stamping,
    /// Write what the shadow records of itself.
    Recording,
    /// Say that the container is started.
    AnnouncingContainer,
    /// Start the container.
    StartingContainer,
    /// Say that the agent is launched.
    AnnouncingAgent,
    /// Run the agent.
    RunningAgent,
    /// Nothing.
    Finished(Outcome),
}

/// How the command ended.
#[derive(Clone, Copy, Debug, PartialEq, Eq, Structural)]
pub enum Outcome {
    /// The agent ended, and reported success.
    AgentDone,
    /// The agent ended, and reported failure.
    AgentFailed,
    NotResolved,
    Refused(Verdict),
    NotLoaded,
    NoRoot,
    NoPlace,
    NotCreated(CreateOutcome),
    NotStamped,
    NotRecorded,
    ContainerFailed,
    ContainerNotRun,
    AgentNotRun,
}

/// The stage after `stage`; `has_parent` tells whether the shadow lies in a directory. An event that
/// does not answer the stage leaves it as it is.
pub open spec fn after(has_parent: bool, stage: Stage, event: Event) -> Stage {
    match (stage, event) {
        (Stage::Resolving, Event::Done) => Stage::Checking(CheckStage::Directory),
        (Stage::Resolving, Event::Failed) => Stage::Finished(Outcome::NotResolved),
        (Stage::Checking(inner), _) => match after_check(inner, event) {
            CheckStage::Finished(Verdict::Ready) => Stage::LoadingConfig,
            CheckStage::Finished(verdict) => Stage::Finished(Outcome::Refused(verdict)),
            next => Stage::Checking(next),
        },
        (Stage::LoadingConfig, Event::Done) => Stage::FindingRoot,
        (Stage::LoadingConfig, Event::Failed) => Stage::Finished(Outcome::NotLoaded),
        (Stage::FindingRoot, Event::Done) => Stage::Placing,
        (Stage::FindingRoot, Event::Failed) => Stage::Finished(Outcome::NoRoot),
        (Stage::Placing, Event::Done) => Stage::Announcing,
        (Stage::Placing, Event::Failed) => Stage::Finished(Outcome::NoPlace),
        (Stage::Announcing, Event::Done) => Stage::Creating(CreateStage::Probing),
        (Stage::Creating(inner), _) => match create::after(has_parent, inner, event) {
            CreateStage::Finished(CreateOutcome::Created) => Stage::Stamping,
            CreateStage::Finished(outcome) => Stage::Finished(Outcome::NotCreated(outcome)),
            next => Stage::Creating(next),
        },
        (Stage::Stamping, Event::Done) => Stage::Recording,
        (Stage::Stamping, Event::Failed) => Stage::Finished(Outcome::NotStamped),
        (Stage::Recording, Event::Done) => Stage::AnnouncingContainer,
        (Stage::Recording, Event::Failed) => Stage::Finished(Outcome::NotRecorded),
        (Stage::AnnouncingContainer, Event::Done) => Stage::StartingContainer,
        (Stage::StartingContainer, Event::Done) => Stage::AnnouncingAgent,
        (Stage::StartingContainer, Event::No) => Stage::Finished(Outcome::ContainerFailed),
        (Stage::StartingContainer, Event::Failed) => Stage::Finished(Outcome::ContainerNotRun),
        (Stage::AnnouncingAgent, Event::Done) => Stage::RunningAgent,
        (Stage::RunningAgent, Event::Done) => Stage::Finished(Outcome::AgentDone),
        (Stage::RunningAgent, Event::No) => Stage::Finished(Outcome::AgentFailed),
        (Stage::RunningAgent, Event::Failed) => Stage::Finished(Outcome::AgentNotRun),
        _ => stage,
    }
}

/// Create a shadow copy and launch an agent in its devcontainer: the stage that follows.
pub fn run(errand: &Errand, stage: Stage, event: Event) -> (res: Stage)
    ensures
        res == after(parent(errand@.shadow) is Some, stage, event),
{
    match (stage, event) {
        (Stage::Resolving, Event::Done) => Stage::Checking(CheckStage::Directory),
        (Stage::Resolving, Event::Failed) => Stage::Finished(Outcome::NotResolved),
        (Stage::Checking(inner), _) => match check(inner, event) {
            CheckStage::Finished(Verdict::Ready) => Stage::LoadingConfig,
            CheckStage::Finished(verdict) => Stage::Finished(Outcome::Refused(verdict)),
            next => Stage::Checking(next),
        },
        (Stage::LoadingConfig, Event::Done) => Stage::FindingRoot,
        (Stage::LoadingConfig, Event::Failed) => Stage::Finished(Outcome::NotLoaded),
        (Stage::FindingRoot, Event::Done) => Stage::Placing,
        (Stage::FindingRoot, Event::Failed) => Stage::Finished(Outcome::NoRoot),
        (Stage::Placing, Event::Done) => Stage::Announcing,
        (Stage::Placing, Event::Failed) => Stage::Finished(Outcome::NoPlace),
        (Stage::Announcing, Event::Done) => Stage::Creating(CreateStage::Probing),
        (Stage::Creating(inner), _) => {
            let has_parent = errand.shadow.parent().is_some();
            match create::create_shadow(has_parent, inner, event) {
                CreateStage::Finished(CreateOutcome::Created) => Stage::Stamping,
                CreateStage::Finished(outcome) => Stage::Finished(Outcome::NotCreated(outcome)),
                next => Stage::Creating(next),
            }
        },
        (Stage::Stamping, Event::Done) => Stage::Recording,
        (Stage::Stamping, Event::Failed) => Stage::Finished(Outcome::NotStamped),
        (Stage::Recording, Event::Done) => Stage::AnnouncingContainer,
        (Stage::Recording, Event::Failed) => Stage::Finished(Outcome::NotRecorded),
        (Stage::AnnouncingContainer, Event::Done) => Stage::StartingContainer,
        (Stage::StartingContainer, Event::Done) => Stage::AnnouncingAgent,
        (Stage::StartingContainer, Event::No) => Stage::Finished(Outcome::ContainerFailed),
        (Stage::StartingContainer, Event::Failed) => Stage::Finished(Outcome::ContainerNotRun),
        (Stage::AnnouncingAgent, Event::Done) => Stage::RunningAgent,
        (Stage::RunningAgent, Event::Done) => Stage::Finished(Outcome::AgentDone),
        (Stage::RunningAgent, Event::No) => Stage::Finished(Outcome::AgentFailed),
        (Stage::RunningAgent, Event::Failed) => Stage::Finished(Outcome::AgentNotRun),
        _ => stage,
    }
}

/// What is to be done at `stage`.
pub open spec fn acts(stage: Stage, errand: ErrandView) -> ActionView {
    match stage {
        Stage::Resolving => ActionView::Resolve(errand.path),
        Stage::Checking(inner) => check_acts(inner, errand.source),
        Stage::LoadingConfig => ActionView::LoadConfig,
        Stage::FindingRoot => ActionView::FindRoot(errand.source),
        Stage::Placing => ActionView::FindPlace(errand.source),
        Stage::Announcing => ActionView::Say("Creating shadow at "@ + shown(errand.shadow)),
        Stage::Creating(inner) => create::acts(inner, errand.source, errand.shadow),
        Stage::Stamping => ActionView::Stamp,
        Stage::Recording => match errand.meta {
            Some(meta) => ActionView::Record(meta_place(errand.shadow), meta),
            None => ActionView::Nothing,
        },
        Stage::AnnouncingContainer => ActionView::Say("Starting devcontainer..."@),
        Stage::StartingContainer => ActionView::StartContainer(
            errand.shadow,
            starting(errand.shadow),
        ),
        Stage::AnnouncingAgent => ActionView::Say("Launching agent..."@),
        Stage::RunningAgent => ActionView::Run(running(errand.shadow, errand.command)),
        Stage::Finished(_) => ActionView::Nothing,
    }
}

/// What is to be done at `stage`.
pub fn action(stage: Stage, errand: &Errand) -> (res: Action)
    ensures
        res@ == acts(stage, errand@),
{
    match stage {
        Stage::Resolving => Action::Resolve(errand.path.clone()),
        Stage::Checking(inner) => check_action(inner, &errand.source),
        Stage::LoadingConfig => Action::LoadConfig,
        Stage::FindingRoot => Action::FindRoot(errand.source.clone()),
        Stage::Placing => Action::FindPlace(errand.source.clone()),
        Stage::Announcing => Action::Say(
            "Creating shadow at ".to_owned().concat(errand.shadow.display().as_str()),
        ),
        Stage::Creating(inner) => create::action(inner, &errand.source, &errand.shadow),
        Stage::Stamping => Action::Stamp,
        Stage::Recording => match &errand.meta {
            Some(meta) => Action::Record(meta_path(&errand.shadow), meta.clone()),
            None => Action::Nothing,
        },
        Stage::AnnouncingContainer => Action::Say("Starting devcontainer...".to_owned()),
        Stage::StartingContainer => Action::StartContainer(
            errand.shadow.clone(),
            devcontainer_up(&errand.shadow),
        ),
        Stage::AnnouncingAgent => Action::Say("Launching agent...".to_owned()),
        Stage::RunningAgent => Action::Run(devcontainer_exec(&errand.shadow, &errand.command)),
        Stage::Finished(_) => Action::Nothing,
    }
}

/// Whether the command ended without an error. An agent that reports failure is none.
pub open spec fn is_success(outcome: Outcome) -> bool {
    outcome == Outcome::AgentDone || outcome == Outcome::AgentFailed
}

/// Whether the command ended without an error.
pub fn succeeded(outcome: Outcome) -> (res: bool)
    ensures
        res == is_success(outcome),
{
    matches!(outcome, Outcome::AgentDone | Outcome::AgentFailed)
}

/// What is said of the outcome, given how the agent ended. Of what went wrong outside, nothing is said
/// but what the failure says.
pub open spec fn outcome_words(
    outcome: Outcome,
    errand: ErrandView,
    status: Seq<char>,
) -> Option<Seq<char>> {
    match outcome {
        Outcome::AgentDone => None,
        Outcome::AgentFailed => Some(
            "Agent exited with status "@ + status + ". The shadow is still available at "@ + shown(
                errand.shadow,
            ),
        ),
        Outcome::NotResolved => Some("Failed to resolve path "@ + shown(errand.path)),
        Outcome::Refused(verdict) => verdict_words(verdict, errand.source),
        Outcome::NotLoaded | Outcome::NoRoot | Outcome::NoPlace => None,
        Outcome::NotCreated(inner) => create::outcome_words(inner, errand.source, errand.shadow),
        Outcome::NotStamped => Some("The clock shows a time without a date"@),
        Outcome::NotRecorded | Outcome::ContainerFailed => None,
        Outcome::ContainerNotRun => Some("Failed to execute devcontainer up"@),
        Outcome::AgentNotRun => Some("Failed to execute devcontainer exec"@),
    }
}

/// What is said of the outcome, given how the agent ended.
pub fn outcome_message(outcome: Outcome, errand: &Errand, status: &str) -> (res: Option<String>)
    ensures
        match res {
            Some(text) => outcome_words(outcome, errand@, status@) == Some(text@),
            None => outcome_words(outcome, errand@, status@) is None,
        },
{
    match outcome {
        Outcome::AgentDone => None,
        Outcome::AgentFailed => {
            let mut out = "Agent exited with status ".to_owned();
            out.append(status);
            out.append(". The shadow is still available at ");
            out.append(errand.shadow.display().as_str());
            Some(out)
        },
        Outcome::NotResolved => Some(
            "Failed to resolve path ".to_owned().concat(errand.path.display().as_str()),
        ),
        Outcome::Refused(verdict) => verdict_message(verdict, &errand.source),
        Outcome::NotLoaded | Outcome::NoRoot | Outcome::NoPlace => None,
        Outcome::NotCreated(inner) => create::outcome_message(
            inner,
            &errand.source,
            &errand.shadow,
        ),
        Outcome::NotStamped => Some("The clock shows a time without a date".to_owned()),
        Outcome::NotRecorded | Outcome::ContainerFailed => None,
        Outcome::ContainerNotRun => Some("Failed to execute devcontainer up".to_owned()),
        Outcome::AgentNotRun => Some("Failed to execute devcontainer exec".to_owned()),
    }
}

/// Whether `stages` are what the command goes through, given these events.
pub open spec fn is_start(has_parent: bool, stages: Seq<Stage>, events: Seq<Event>) -> bool {
    is_run(|s: Stage, e: Event| after(has_parent, s, e), Stage::Resolving, stages, events)
}

/// Whether the source has been found ready.
pub open spec fn is_past_check(stage: Stage) -> bool {
    match stage {
        Stage::Resolving | Stage::Checking(_) => false,
        Stage::Finished(Outcome::NotResolved) | Stage::Finished(Outcome::Refused(_)) => false,
        _ => true,
    }
}

/// Whether the shadow has been copied.
pub open spec fn has_shadow(stage: Stage) -> bool {
    match stage {
        Stage::Stamping | Stage::Recording => true,
        Stage::AnnouncingContainer | Stage::StartingContainer => true,
        Stage::AnnouncingAgent | Stage::RunningAgent => true,
        Stage::Finished(Outcome::AgentDone) | Stage::Finished(Outcome::AgentFailed) => true,
        Stage::Finished(Outcome::NotStamped) | Stage::Finished(Outcome::NotRecorded) => true,
        Stage::Finished(Outcome::ContainerFailed) => true,
        Stage::Finished(Outcome::ContainerNotRun) | Stage::Finished(Outcome::AgentNotRun) => true,
        _ => false,
    }
}

/// A check or a copy that is over is no stage of its own.
proof fn lemma_inner_is_not_over(
    has_parent: bool,
    stages: Seq<Stage>,
    events: Seq<Event>,
    j: int,
)
    requires
        is_start(has_parent, stages, events),
        0 <= j < stages.len(),
    ensures
        stages[j] matches Stage::Checking(inner) ==> !(inner is Finished),
        stages[j] matches Stage::Creating(inner) ==> !(inner is Finished),
{
    let over = |s: Stage|
        (s is Checking && s->Checking_0 is Finished) || (s is Creating
            && s->Creating_0 is Finished);
    if over(stages[j]) {
        lemma_passes_into(
            |s: Stage, e: Event| after(has_parent, s, e),
            Stage::Resolving,
            stages,
            events,
            over,
            j,
        );
    }
}

/// Nothing is done before the source is known to be a directory with a devcontainer configuration:
/// no configuration is loaded or created, nobody is asked, nothing is copied and no program is run
/// that could change anything, unless both were found.
pub proof fn nothing_is_done_before_the_check(
    has_parent: bool,
    stages: Seq<Stage>,
    events: Seq<Event>,
    j: int,
    errand: ErrandView,
)
    requires
        is_start(has_parent, stages, events),
        0 <= j < stages.len(),
        acts(stages[j], errand).writes() || acts(stages[j], errand).asks() || acts(
            stages[j],
            errand,
        ).runs(),
    ensures
        exists|i: int|
            0 <= i < j && stages[i] == Stage::Checking(CheckStage::Directory)
                && #[trigger] events[i] == Event::Yes,
        exists|i: int|
            0 <= i < j && stages[i] == Stage::Checking(CheckStage::Devcontainer)
                && #[trigger] events[i] == Event::Yes,
{
    let next = |s: Stage, e: Event| after(has_parent, s, e);
    let first = Stage::Resolving;
    let d = lemma_passes_into(
        next,
        first,
        stages,
        events,
        |s: Stage|
            is_past_check(s) || s is Checking && s != Stage::Checking(CheckStage::Directory)
                && s != Stage::Checking(CheckStage::Finished(Verdict::NotADirectory)),
        j,
    );
    lemma_inner_is_not_over(has_parent, stages, events, d);
    assert(stages[d] == Stage::Checking(CheckStage::Directory) && events[d] == Event::Yes);
    let f = lemma_passes_into(
        next,
        first,
        stages,
        events,
        |s: Stage|
            is_past_check(s) || s == Stage::Checking(CheckStage::Changes) || s == Stage::Checking(
                CheckStage::Warning,
            ),
        j,
    );
    lemma_inner_is_not_over(has_parent, stages, events, f);
    assert(stages[f] == Stage::Checking(CheckStage::Devcontainer) && events[f] == Event::Yes);
}

/// A source that is refused, or a path that leads nowhere, leaves all as it was: the command ends with
/// an error, and at no stage did it write, ask, or run a program that could change anything.
pub proof fn refused_source_leaves_all(
    has_parent: bool,
    stages: Seq<Stage>,
    events: Seq<Event>,
    i: int,
    j: int,
    errand: ErrandView,
)
    requires
        is_start(has_parent, stages, events),
        0 <= i < stages.len(),
        0 <= j < stages.len(),
        stages[i] == Stage::Finished(Outcome::NotResolved) || (stages[i] is Finished
            && stages[i]->Finished_0 is Refused),
    ensures
        !is_success(stages[i]->Finished_0),
        !acts(stages[j], errand).writes(),
        !acts(stages[j], errand).asks(),
        !acts(stages[j], errand).runs(),
{
    let next = |s: Stage, e: Event| after(has_parent, s, e);
    if is_past_check(stages[j]) {
        if j <= i {
            lemma_stays(
                next,
                Stage::Resolving,
                stages,
                events,
                |s: Stage| is_past_check(s),
                j,
                i,
            );
        } else {
            let end = stages[i];
            lemma_stays(next, Stage::Resolving, stages, events, |s: Stage| s == end, i, j);
        }
    }
}

/// The agent runs only where the source was found ready, the shadow was copied, its record written and
/// its container started, each with success; and what it is run against is the shadow.
pub proof fn agent_runs_in_a_shadow(
    has_parent: bool,
    stages: Seq<Stage>,
    events: Seq<Event>,
    j: int,
    errand: ErrandView,
)
    requires
        is_start(has_parent, stages, events),
        0 <= j < stages.len(),
        stages[j] == Stage::RunningAgent,
    ensures
        acts(stages[j], errand) == ActionView::Run(running(errand.shadow, errand.command)),
        exists|i: int|
            0 <= i < j && stages[i] == Stage::Checking(CheckStage::Devcontainer)
                && #[trigger] events[i] == Event::Yes,
        exists|i: int|
            0 <= i < j && stages[i] == Stage::Creating(CreateStage::Copying)
                && #[trigger] events[i] == Event::Done,
        exists|i: int|
            0 <= i < j && stages[i] == Stage::Recording && #[trigger] events[i] == Event::Done,
        exists|i: int|
            0 <= i < j && stages[i] == Stage::StartingContainer && #[trigger] events[i]
                == Event::Done,
{
    let next = |s: Stage, e: Event| after(has_parent, s, e);
    let first = Stage::Resolving;
    nothing_is_done_before_the_check(has_parent, stages, events, j, errand);
    let c = lemma_passes_into(next, first, stages, events, |s: Stage| has_shadow(s), j);
    lemma_inner_is_not_over(has_parent, stages, events, c);
    assert(stages[c] == Stage::Creating(CreateStage::Copying) && events[c] == Event::Done);
    let r = lemma_passes_into(
        next,
        first,
        stages,
        events,
        |s: Stage|
            has_shadow(s) && s != Stage::Stamping && s != Stage::Recording && s
                != Stage::Finished(Outcome::NotStamped) && s != Stage::Finished(
                Outcome::NotRecorded,
            ),
        j,
    );
    lemma_inner_is_not_over(has_parent, stages, events, r);
    assert(stages[r] == Stage::Recording && events[r] == Event::Done);
    let u = lemma_passes_into(
        next,
        first,
        stages,
        events,
        |s: Stage|
            s == Stage::AnnouncingAgent || s == Stage::RunningAgent || s == Stage::Finished(
                Outcome::AgentDone,
            ) || s == Stage::Finished(Outcome::AgentFailed) || s == Stage::Finished(
                Outcome::AgentNotRun,
            ),
        j,
    );
    assert(stages[u] == Stage::StartingContainer && events[u] == Event::Done);
}

/// What the command changes on disk: the configuration, the directories above the shadow, the shadow,
/// which is a copy of the source, and the shadow's record; and what the container and the agent do,
/// which are given the shadow. The source is not among it.
pub proof fn start_writes_to_shadow(stage: Stage, errand: ErrandView)
    ensures
        acts(stage, errand).writes() ==> {
            let done = acts(stage, errand);
            let shadow = errand.shadow;
            ||| done == ActionView::LoadConfig
            ||| done == ActionView::FindRoot(errand.source)
            ||| done == ActionView::CreateDirectories(parent_or_empty(shadow))
            ||| done == ActionView::CreateDirectory(shadow)
            ||| done == ActionView::Run(create::copying(errand.source, shadow))
            ||| done == ActionView::Discard(shadow)
            ||| errand.meta is Some && done == ActionView::Record(
                meta_place(shadow),
                errand.meta->0,
            )
            ||| done == ActionView::StartContainer(shadow, starting(shadow))
            ||| done == ActionView::Run(running(shadow, errand.command))
        },
{
}

/// What is run is the agent of the configuration, in the shadow that was placed; and what is recorded is
/// the source, and the name that was given.
pub proof fn errand_is_the_configured_one(
    errand: ErrandView,
    place: Seq<u8>,
    agent: Seq<Seq<char>>,
    created_at: Moment,
    now: Moment,
)
    ensures
        ({
            let ready = ErrandView {
                meta: recorded_at(errand.source, errand.name, created_at, now),
                ..placed(errand, place, agent)
            };
            &&& acts(Stage::Creating(CreateStage::Copying), ready) == ActionView::Run(
                create::copying(errand.source, place),
            )
            &&& acts(Stage::StartingContainer, ready) == ActionView::StartContainer(
                place,
                starting(place),
            )
            &&& acts(Stage::RunningAgent, ready) == ActionView::Run(running(place, agent))
            &&& errand.name matches Some(name) ==> acts(Stage::Recording, ready)
                == ActionView::Record(
                meta_place(place),
                MetaView { source: errand.source, created_at, name_suffix: name },
            )
        }),
{
}

// ---------------------------------------------------------------------------------------------
// What a run comes to
// ---------------------------------------------------------------------------------------------

/// A source is ready where it is a directory with a devcontainer configuration, with uncommitted
/// changes or without; it is refused for no other reason than that one of the two lacks.
pub proof fn check_ends_as_it_went(stage: CheckStage, event: Event, source: Seq<u8>)
    ensures
        after_check(CheckStage::Directory, Event::Yes) == CheckStage::Devcontainer,
        after_check(CheckStage::Devcontainer, Event::Yes) == CheckStage::Changes,
        after_check(CheckStage::Changes, Event::Yes) == CheckStage::Warning,
        after_check(CheckStage::Changes, Event::No) == CheckStage::Finished(Verdict::Ready),
        after_check(CheckStage::Warning, Event::Done) == CheckStage::Finished(Verdict::Ready),
        !(stage is Finished) ==> {
            &&& after_check(stage, event) == CheckStage::Finished(Verdict::NotADirectory) <==> stage
                == CheckStage::Directory && event == Event::No
            &&& after_check(stage, event) == CheckStage::Finished(Verdict::NoDevcontainer) <==> stage
                == CheckStage::Devcontainer && event == Event::No
            &&& after_check(stage, event) == CheckStage::Finished(Verdict::Ready) ==> stage
                == CheckStage::Changes || stage == CheckStage::Warning
        },
        after_check(stage, event) != stage <==> check_acts(stage, source).answered_by(event),
        check_acts(CheckStage::Directory, source) == ActionView::IsDirectory(source),
        check_acts(CheckStage::Devcontainer, source) == ActionView::HasDevcontainer(source),
        check_acts(CheckStage::Changes, source) == ActionView::Prints(
            ("git"@, seq!["-C"@, shown(source), "status"@, "--porcelain"@]),
        ),
        check_acts(CheckStage::Warning, source) == ActionView::Say(
            "Warning: "@ + shown(source)
                + " has uncommitted changes. The shadow will include them."@,
        ),
        verdict_words(Verdict::Ready, source) is None,
        verdict_words(Verdict::NotADirectory, source) == Some(
            shown(source) + " is not a directory."@,
        ),
        verdict_words(Verdict::NoDevcontainer, source) == Some(
            "No devcontainer configuration found in "@ + shown(source)
                + ".\ncc-sandbox requires a .devcontainer/devcontainer.json or .devcontainer.json.\nCreate one before using cc-sandbox, or use a different tool."@,
        ),
{
}

/// What goes well leads on, from the path to the agent; a check and a copy that are not over go on as
/// they do by themselves.
pub proof fn good_answers_lead_on(
    has_parent: bool,
    checking: CheckStage,
    creating: CreateStage,
    event: Event,
)
    ensures
        after(has_parent, Stage::Resolving, Event::Done) == Stage::Checking(CheckStage::Directory),
        !(after_check(checking, event) is Finished) ==> after(
            has_parent,
            Stage::Checking(checking),
            event,
        ) == Stage::Checking(after_check(checking, event)),
        after_check(checking, event) == CheckStage::Finished(Verdict::Ready) ==> after(
            has_parent,
            Stage::Checking(checking),
            event,
        ) == Stage::LoadingConfig,
        after(has_parent, Stage::LoadingConfig, Event::Done) == Stage::FindingRoot,
        after(has_parent, Stage::FindingRoot, Event::Done) == Stage::Placing,
        after(has_parent, Stage::Placing, Event::Done) == Stage::Announcing,
        after(has_parent, Stage::Announcing, Event::Done) == Stage::Creating(CreateStage::Probing),
        !(create::after(has_parent, creating, event) is Finished) ==> after(
            has_parent,
            Stage::Creating(creating),
            event,
        ) == Stage::Creating(create::after(has_parent, creating, event)),
        create::after(has_parent, creating, event) == CreateStage::Finished(CreateOutcome::Created)
            ==> after(has_parent, Stage::Creating(creating), event) == Stage::Stamping,
        after(has_parent, Stage::Stamping, Event::Done) == Stage::Recording,
        after(has_parent, Stage::Recording, Event::Done) == Stage::AnnouncingContainer,
        after(has_parent, Stage::AnnouncingContainer, Event::Done) == Stage::StartingContainer,
        after(has_parent, Stage::StartingContainer, Event::Done) == Stage::AnnouncingAgent,
        after(has_parent, Stage::AnnouncingAgent, Event::Done) == Stage::RunningAgent,
        after(has_parent, Stage::RunningAgent, Event::Done) == Stage::Finished(Outcome::AgentDone),
        after(has_parent, Stage::RunningAgent, Event::No) == Stage::Finished(Outcome::AgentFailed),
{
}

/// How the command can end, and by what alone: each outcome has the answer that brings it about, and
/// the command ends in it by no other.
pub proof fn outcomes_have_their_causes(
    has_parent: bool,
    stage: Stage,
    event: Event,
    verdict: Verdict,
    how: CreateOutcome,
)
    requires
        !(stage is Finished),
    ensures
        ({
            let end = after(has_parent, stage, event);
            &&& end == Stage::Finished(Outcome::NotResolved) <==> stage == Stage::Resolving && event
                == Event::Failed
            &&& end == Stage::Finished(Outcome::Refused(verdict)) <==> verdict != Verdict::Ready
                && stage is Checking && after_check(stage->Checking_0, event)
                == CheckStage::Finished(verdict)
            &&& end == Stage::Finished(Outcome::NotLoaded) <==> stage == Stage::LoadingConfig
                && event == Event::Failed
            &&& end == Stage::Finished(Outcome::NoRoot) <==> stage == Stage::FindingRoot && event
                == Event::Failed
            &&& end == Stage::Finished(Outcome::NoPlace) <==> stage == Stage::Placing && event
                == Event::Failed
            &&& end == Stage::Finished(Outcome::NotCreated(how)) <==> how != CreateOutcome::Created
                && stage is Creating && create::after(has_parent, stage->Creating_0, event)
                == CreateStage::Finished(how)
            &&& end == Stage::Finished(Outcome::NotStamped) <==> stage == Stage::Stamping && event
                == Event::Failed
            &&& end == Stage::Finished(Outcome::NotRecorded) <==> stage == Stage::Recording && event
                == Event::Failed
            &&& end == Stage::Finished(Outcome::ContainerFailed) <==> stage
                == Stage::StartingContainer && event == Event::No
            &&& end == Stage::Finished(Outcome::ContainerNotRun) <==> stage
                == Stage::StartingContainer && event == Event::Failed
            &&& end == Stage::Finished(Outcome::AgentDone) <==> stage == Stage::RunningAgent
                && event == Event::Done
            &&& end == Stage::Finished(Outcome::AgentFailed) <==> stage == Stage::RunningAgent
                && event == Event::No
            &&& end == Stage::Finished(Outcome::AgentNotRun) <==> stage == Stage::RunningAgent
                && event == Event::Failed
        }),
{
}

/// The command goes on exactly by an answer to what it asked to be done.
pub proof fn only_answers_lead_on(
    has_parent: bool,
    stage: Stage,
    event: Event,
    errand: ErrandView,
)
    requires
        stage matches Stage::Checking(inner) ==> !(inner is Finished),
        stage matches Stage::Creating(inner) ==> !(inner is Finished),
        errand.meta is Some,
    ensures
        after(has_parent, stage, event) != stage <==> acts(stage, errand).answered_by(event),
{
    match stage {
        Stage::Checking(inner) => {
            check_ends_as_it_went(inner, event, errand.source);
        },
        Stage::Creating(inner) => {
            create::only_answers_lead_on(has_parent, inner, event, errand.source, errand.shadow);
        },
        _ => {},
    }
}

/// A run in which all that is asked for can be done ends with the agent having run, with uncommitted
/// changes in the source or without.
pub proof fn ready_source_gets_its_agent(dirty: bool, agent_fails: bool)
    ensures
        ({
            let next = |s: Stage, e: Event| after(true, s, e);
            let done = Event::Done;
            let checked = seq![done, Event::Yes, Event::Yes] + (if dirty {
                seq![Event::Yes, done]
            } else {
                seq![Event::No]
            });
            let placed_at = checked + seq![done, done, done, done];
            let copied = placed_at + seq![Event::No, done, done, done];
            let started = copied + seq![done, done, done, done, done];
            let last = if agent_fails {
                Event::No
            } else {
                done
            };
            &&& ends_at(next, Stage::Resolving, checked) == Stage::LoadingConfig
            &&& ends_at(next, Stage::Resolving, placed_at) == Stage::Creating(CreateStage::Probing)
            &&& ends_at(next, Stage::Resolving, copied) == Stage::Stamping
            &&& ends_at(next, Stage::Resolving, started) == Stage::RunningAgent
            &&& ends_at(next, Stage::Resolving, started + seq![last]) == Stage::Finished(
                if agent_fails {
                    Outcome::AgentFailed
                } else {
                    Outcome::AgentDone
                },
            )
            &&& is_success(Outcome::AgentFailed) && is_success(Outcome::AgentDone)
        }),
{
    let next = |s: Stage, e: Event| after(true, s, e);
    let done = Event::Done;
    let first = seq![done, Event::Yes, Event::Yes];
    let changes = if dirty {
        seq![Event::Yes, done]
    } else {
        seq![Event::No]
    };
    let checked = first + changes;
    let placed_at = checked + seq![done, done, done, done];
    let copied = placed_at + seq![Event::No, done, done, done];
    let started = copied + seq![done, done, done, done, done];
    lemma_three(next, Stage::Resolving, done, Event::Yes, Event::Yes);
    lemma_ends_at(next, Stage::Resolving, first, changes);
    lemma_two(next, Stage::Checking(CheckStage::Changes), Event::Yes, done);
    lemma_one(next, Stage::Checking(CheckStage::Changes), Event::No);
    assert(ends_at(next, Stage::Resolving, checked) == Stage::LoadingConfig);
    lemma_four(next, Stage::LoadingConfig, done, done, done, done);
    lemma_ends_at(next, Stage::Resolving, checked, seq![done, done, done, done]);
    lemma_four(next, Stage::Creating(CreateStage::Probing), Event::No, done, done, done);
    lemma_ends_at(next, Stage::Resolving, placed_at, seq![Event::No, done, done, done]);
    let four = seq![done, done, done, done];
    lemma_four(next, Stage::Stamping, done, done, done, done);
    lemma_ends_at(next, Stage::Stamping, four, seq![done]);
    lemma_one(next, Stage::AnnouncingAgent, done);
    assert(four + seq![done] =~= seq![done, done, done, done, done]);
    lemma_ends_at(next, Stage::Resolving, copied, seq![done, done, done, done, done]);
    let last = if agent_fails {
        Event::No
    } else {
        done
    };
    lemma_one(next, Stage::RunningAgent, last);
    lemma_ends_at(next, Stage::Resolving, started, seq![last]);
}

proof fn lemma_one(next: spec_fn(Stage, Event) -> Stage, first: Stage, a: Event)
    ensures
        ends_at(next, first, seq![a]) == next(first, a),
{
    reveal_with_fuel(ends_at, 2);
    assert(seq![a].drop_last() =~= seq![]);
}

proof fn lemma_two(next: spec_fn(Stage, Event) -> Stage, first: Stage, a: Event, b: Event)
    ensures
        ends_at(next, first, seq![a, b]) == next(next(first, a), b),
{
    reveal_with_fuel(ends_at, 3);
    assert(seq![a, b].drop_last() =~= seq![a]);
    assert(seq![a].drop_last() =~= seq![]);
}

proof fn lemma_three(next: spec_fn(Stage, Event) -> Stage, first: Stage, a: Event, b: Event, c: Event)
    ensures
        ends_at(next, first, seq![a, b, c]) == next(next(next(first, a), b), c),
{
    reveal_with_fuel(ends_at, 4);
    assert(seq![a, b, c].drop_last() =~= seq![a, b]);
    assert(seq![a, b].drop_last() =~= seq![a]);
    assert(seq![a].drop_last() =~= seq![]);
}

proof fn lemma_four(
    next: spec_fn(Stage, Event) -> Stage,
    first: Stage,
    a: Event,
    b: Event,
    c: Event,
    d: Event,
)
    ensures
        ends_at(next, first, seq![a, b, c, d]) == next(next(next(next(first, a), b), c), d),
{
    lemma_three(next, first, a, b, c);
    assert(seq![a, b, c, d].drop_last() =~= seq![a, b, c]);
}

/// What is done at each stage.
pub proof fn stages_do_what_they_say(errand: ErrandView, meta: MetaView)
    ensures
        acts(Stage::Resolving, errand) == ActionView::Resolve(errand.path),
        acts(Stage::LoadingConfig, errand) == ActionView::LoadConfig,
        acts(Stage::FindingRoot, errand) == ActionView::FindRoot(errand.source),
        acts(Stage::Placing, errand) == ActionView::FindPlace(errand.source),
        acts(Stage::Announcing, errand) == ActionView::Say(
            "Creating shadow at "@ + shown(errand.shadow),
        ),
        acts(Stage::Stamping, errand) == ActionView::Stamp,
        acts(Stage::Recording, ErrandView { meta: Some(meta), ..errand }) == ActionView::Record(
            joined(errand.shadow, encode_utf8(".cc-sandbox-meta.json"@)),
            meta,
        ),
        acts(Stage::AnnouncingContainer, errand) == ActionView::Say("Starting devcontainer..."@),
        acts(Stage::StartingContainer, errand) == ActionView::StartContainer(
            errand.shadow,
            ("devcontainer"@, seq!["up"@, "--workspace-folder"@, shown(errand.shadow)]),
        ),
        acts(Stage::AnnouncingAgent, errand) == ActionView::Say("Launching agent..."@),
        acts(Stage::RunningAgent, errand) == ActionView::Run(
            (
                "devcontainer"@,
                seq!["exec"@, "--workspace-folder"@, shown(errand.shadow), "--"@] + errand.command,
            ),
        ),
{
}

/// What is said at the end, and which ends are no errors.
pub proof fn outcomes_are_told(
    outcome: Outcome,
    errand: ErrandView,
    status: Seq<char>,
    verdict: Verdict,
    how: CreateOutcome,
)
    ensures
        is_success(outcome) <==> outcome == Outcome::AgentDone || outcome == Outcome::AgentFailed,
        outcome_words(Outcome::AgentDone, errand, status) is None,
        outcome_words(Outcome::AgentFailed, errand, status) == Some(
            "Agent exited with status "@ + status + ". The shadow is still available at "@ + shown(
                errand.shadow,
            ),
        ),
        outcome_words(Outcome::NotResolved, errand, status) == Some(
            "Failed to resolve path "@ + shown(errand.path),
        ),
        outcome_words(Outcome::Refused(verdict), errand, status) == verdict_words(
            verdict,
            errand.source,
        ),
        outcome_words(Outcome::NotCreated(how), errand, status) == create::outcome_words(
            how,
            errand.source,
            errand.shadow,
        ),
        outcome_words(Outcome::NotStamped, errand, status) == Some(
            "The clock shows a time without a date"@,
        ),
        outcome_words(Outcome::ContainerNotRun, errand, status) == Some(
            "Failed to execute devcontainer up"@,
        ),
        outcome_words(Outcome::AgentNotRun, errand, status) == Some(
            "Failed to execute devcontainer exec"@,
        ),
        outcome_words(Outcome::NotLoaded, errand, status) is None,
        outcome_words(Outcome::NoRoot, errand, status) is None,
        outcome_words(Outcome::NoPlace, errand, status) is None,
        outcome_words(Outcome::NotRecorded, errand, status) is None,
        outcome_words(Outcome::ContainerFailed, errand, status) is None,
{
}

/// Placing an errand gives it the place and the agent's command, and nothing else; where there is no
/// place it stays as it was.
pub proof fn placing_sets_place_and_command(
    errand: ErrandView,
    place: Seq<u8>,
    error: ShadowPathError,
    agent: Seq<Seq<char>>,
)
    ensures
        ({
            let after_it = after_placing(errand, Ok::<Seq<u8>, ShadowPathError>(place), agent);
            &&& after_it.shadow == place
            &&& after_it.command == agent
            &&& after_it.path == errand.path
            &&& after_it.name == errand.name
            &&& after_it.source == errand.source
            &&& after_it.meta == errand.meta
        }),
        after_placing(errand, Err::<Seq<u8>, ShadowPathError>(error), agent) == errand,
{
}

/// A source has uncommitted changes where `git` ran well and printed more than blanks; an agent that
/// ran is a success, whether it ended well or not, and nothing else is.
pub proof fn printed_changes_are_changes(
    success: bool,
    stdout: &[u8],
    dirty: bool,
    outcome: Outcome,
    ended_well: bool,
)
    requires
        call_ensures(check_git_dirty, (success, stdout), dirty),
        call_ensures(succeeded, (outcome,), ended_well),
    ensures
        dirty <==> success && trimmed(shown(stdout@)).len() > 0,
        ended_well <==> outcome == Outcome::AgentDone || outcome == Outcome::AgentFailed,
{
}

} // verus!
