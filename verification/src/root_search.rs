//! Finding the shadow root of a filesystem, and asking for it where it is not known.
//!
//! A root that is known is used without a question. A root that is asked for is adopted, and the
//! configuration saved, only when the answer names one.
use crate::config::{Config, EntryView};
use crate::fs_lookup::{
    adopt_shadow_root, adopted, adopted_root_is_known, answered, device_warning, lookup, prompt_shadow_root,
    question_words, relative_root_message, relative_words, resolve_shadow_root,
    shadow_root_question, warning_words, RootLookup, RootLookupView,
};
use crate::path::{parent, FsPath};
use crate::step::{Action, ActionView, Event};
use crate::store::{self, SaveOutcome, SaveStage};
use vstd::prelude::*;

verus! {

/// What is to be done next.
#[derive(Clone, Copy, Debug, PartialEq, Eq, Structural)]
pub enum RootStage {
    /// Say that this device was mounted there before.
    Warning(u64),
    /// Ask where the shadows should live.
    Asking,
    /// Save the configuration with the root that was named.
    Saving(SaveStage),
    /// Nothing.
    Finished(RootOutcome),
}

/// How the search ended.
#[derive(Clone, Copy, Debug, PartialEq, Eq, Structural)]
pub enum RootOutcome {
    /// The root was known.
    Known,
    /// The root was asked for, adopted and saved.
    Adopted,
    /// The answer is no absolute path.
    Relative,
    NoAnswer,
    NotSaved(SaveOutcome),
}

/// A search for the shadow root of the filesystem with a mount point and a device.
#[derive(Debug)]
pub struct Search {
    config: Config,
    /// The file in which the configuration is kept.
    file: FsPath,
    mount: FsPath,
    device_id: u64,
    stage: RootStage,
    /// The root, once it is known; or what was typed that is none.
    root: FsPath,
}

/// The contents of a [`Search`].
#[verifier::ext_equal]
pub struct SearchView {
    pub entries: Seq<EntryView>,
    pub agent: Seq<Seq<char>>,
    pub shell: Seq<Seq<char>>,
    pub file: Seq<u8>,
    pub mount: Seq<u8>,
    pub device_id: u64,
    pub stage: RootStage,
    pub root: Seq<u8>,
}

impl View for Search {
    type V = SearchView;

    closed spec fn view(&self) -> SearchView {
        SearchView {
            entries: self.config.entries(),
            agent: self.config.agent.command.deep_view(),
            shell: self.config.shell.command.deep_view(),
            file: self.file@,
            mount: self.mount@,
            device_id: self.device_id,
            stage: self.stage,
            root: self.root@,
        }
    }
}

/// The search at its first stage.
pub open spec fn begun(
    entries: Seq<EntryView>,
    agent: Seq<Seq<char>>,
    shell: Seq<Seq<char>>,
    file: Seq<u8>,
    mount: Seq<u8>,
    device_id: u64,
) -> SearchView {
    let (stage, root) = match lookup(entries, mount, device_id) {
        RootLookupView::Known(root) => (RootStage::Finished(RootOutcome::Known), root),
        RootLookupView::DeviceChanged(was) => (RootStage::Warning(was), seq![]),
        RootLookupView::Unknown => (RootStage::Asking, seq![]),
    };
    SearchView { entries, agent, shell, file, mount, device_id, stage, root }
}

/// The stage after `stage`. An event that does not answer the stage leaves it as it is.
pub open spec fn after(stage: RootStage, event: Event) -> RootStage {
    match (stage, event) {
        (RootStage::Warning(_), Event::Done) => RootStage::Asking,
        (RootStage::Asking, Event::Failed) => RootStage::Finished(RootOutcome::NoAnswer),
        (RootStage::Saving(inner), _) => match store::after(inner, event) {
            SaveStage::Finished(SaveOutcome::Saved) => RootStage::Finished(RootOutcome::Adopted),
            SaveStage::Finished(outcome) => RootStage::Finished(RootOutcome::NotSaved(outcome)),
            next => RootStage::Saving(next),
        },
        _ => stage,
    }
}

/// The search after an event.
pub open spec fn told(search: SearchView, event: Event) -> SearchView {
    SearchView { stage: after(search.stage, event), ..search }
}

/// The search after an answer was typed: an answer that names a root makes it the root of the
/// filesystem, and any other leaves the configuration as it is. What is typed unasked is not heard.
pub open spec fn heard(search: SearchView, input: Seq<char>) -> SearchView {
    if search.stage != RootStage::Asking {
        search
    } else {
        match answered(search.mount, input) {
            Ok(root) => SearchView {
                entries: adopted(search.entries, search.mount, search.device_id, root),
                stage: RootStage::Saving(store::save_start(parent(search.file) is Some)),
                root,
                ..search
            },
            Err(given) => SearchView {
                stage: RootStage::Finished(RootOutcome::Relative),
                root: given,
                ..search
            },
        }
    }
}

/// What is to be done next in a search.
pub open spec fn acts(search: SearchView) -> ActionView {
    match search.stage {
        RootStage::Warning(was) => ActionView::Say(
            warning_words(search.mount, was, search.device_id),
        ),
        RootStage::Asking => ActionView::AskPath(question_words(search.mount)),
        RootStage::Saving(inner) => store::acts(inner, search.file),
        RootStage::Finished(_) => ActionView::Nothing,
    }
}

/// What is said of the outcome, where it is a failure.
pub open spec fn outcome_words(search: SearchView) -> Option<Seq<char>> {
    match search.stage {
        RootStage::Finished(RootOutcome::Relative) => Some(relative_words(search.root)),
        RootStage::Finished(RootOutcome::NoAnswer) => Some("Failed to read from stdin"@),
        RootStage::Finished(RootOutcome::NotSaved(outcome)) => store::outcome_words(
            outcome,
            search.file,
        ),
        _ => None,
    }
}

impl Search {
    /// Look up (or ask for) the shadow root of the filesystem with this mount point and device; the
    /// configuration is kept in `file`.
    pub fn begin(config: Config, file: &FsPath, mount: &FsPath, device_id: u64) -> (res: Search)
        ensures
            res@ == begun(
                config.entries(),
                config.agent.command.deep_view(),
                config.shell.command.deep_view(),
                file@,
                mount@,
                device_id,
            ),
    {
        let (stage, root) = match resolve_shadow_root(&config, mount, device_id) {
            RootLookup::Known(root) => (RootStage::Finished(RootOutcome::Known), root),
            RootLookup::DeviceChanged(was) => (RootStage::Warning(was), FsPath {
                bytes: Vec::new(),
            }),
            RootLookup::Unknown => (RootStage::Asking, FsPath { bytes: Vec::new() }),
        };
        let res = Search {
            config,
            file: file.clone(),
            mount: mount.clone(),
            device_id,
            stage,
            root,
        };
        assert(res@ =~= begun(
            config.entries(),
            config.agent.command.deep_view(),
            config.shell.command.deep_view(),
            file@,
            mount@,
            device_id,
        ));
        res
    }

    /// What is to be done next.
    pub fn action(&self) -> (res: Action)
        ensures
            res@ == acts(self@),
    {
        match self.stage {
            RootStage::Warning(was) => Action::Say(
                device_warning(&self.mount, was, self.device_id),
            ),
            RootStage::Asking => Action::AskPath(shadow_root_question(&self.mount)),
            RootStage::Saving(inner) => store::action(inner, &self.file),
            RootStage::Finished(_) => Action::Nothing,
        }
    }

    /// Go on from how that went.
    pub fn tell(&mut self, event: Event)
        ensures
            final(self)@ == told(old(self)@, event),
    {
        self.stage =
        match (self.stage, event) {
            (RootStage::Warning(_), Event::Done) => RootStage::Asking,
            (RootStage::Asking, Event::Failed) => RootStage::Finished(RootOutcome::NoAnswer),
            (RootStage::Saving(inner), _) => match store::save(inner, event) {
                SaveStage::Finished(SaveOutcome::Saved) => RootStage::Finished(
                    RootOutcome::Adopted,
                ),
                SaveStage::Finished(outcome) => RootStage::Finished(
                    RootOutcome::NotSaved(outcome),
                ),
                next => RootStage::Saving(next),
            },
            (stage, _) => stage,
        };
    }

    /// Go on from what was typed.
    pub fn hear(&mut self, input: &str)
        ensures
            final(self)@ == heard(old(self)@, input@),
    {
        if !matches!(self.stage, RootStage::Asking) {
            return ;
        }
        match prompt_shadow_root(&self.mount, input) {
            Ok(root) => {
                adopt_shadow_root(&mut self.config, &self.mount, self.device_id, &root);
                self.stage = RootStage::Saving(store::start_saving(&self.file));
                self.root = root;
            },
            Err(given) => {
                self.stage = RootStage::Finished(RootOutcome::Relative);
                self.root = given;
            },
        }
    }

    /// How the search ended, if it has.
    pub fn outcome(&self) -> (res: Option<RootOutcome>)
        ensures
            match res {
                Some(outcome) => self@.stage == RootStage::Finished(outcome),
                None => !(self@.stage is Finished),
            },
    {
        match self.stage {
            RootStage::Finished(outcome) => Some(outcome),
            _ => None,
        }
    }

    /// What is said of the outcome, where it is a failure.
    pub fn outcome_message(&self) -> (res: Option<String>)
        ensures
            match res {
                Some(text) => outcome_words(self@) == Some(text@),
                None => outcome_words(self@) is None,
            },
    {
        match self.stage {
            RootStage::Finished(RootOutcome::Relative) => Some(relative_root_message(&self.root)),
            RootStage::Finished(RootOutcome::NoAnswer) => Some(
                "Failed to read from stdin".to_owned(),
            ),
            RootStage::Finished(RootOutcome::NotSaved(outcome)) => store::outcome_message(
                outcome,
                &self.file,
            ),
            _ => None,
        }
    }

    /// The configuration, as it is to be written where that is what is to be done next.
    pub fn config(&self) -> (res: &Config)
        ensures
            res.entries() == self@.entries,
            res.agent.command.deep_view() == self@.agent,
            res.shell.command.deep_view() == self@.shell,
    {
        &self.config
    }

    /// The configuration, and the root that was found.
    pub fn finish(self) -> (res: (Config, FsPath))
        ensures
            res.0.entries() == self@.entries,
            res.0.agent.command.deep_view() == self@.agent,
            res.0.shell.command.deep_view() == self@.shell,
            res.1@ == self@.root,
    {
        (self.config, self.root)
    }
}

// ---------------------------------------------------------------------------------------------
// What a search does
// ---------------------------------------------------------------------------------------------

/// What a search goes on from.
pub enum Step {
    Told(Event),
    Heard(Seq<char>),
}

/// The search after a step.
pub open spec fn stepped(search: SearchView, step: Step) -> SearchView {
    match step {
        Step::Told(event) => told(search, event),
        Step::Heard(input) => heard(search, input),
    }
}

/// Whether `searches` are what a search goes through from `first` on, given these steps.
pub open spec fn is_search(first: SearchView, searches: Seq<SearchView>, steps: Seq<Step>) -> bool {
    &&& searches.len() == steps.len() + 1
    &&& searches[0] == first
    &&& forall|i: int|
        0 <= i < steps.len() ==> #[trigger] searches[i + 1] == stepped(searches[i], steps[i])
}

/// Whether step `i` is an answer to the question that names a root.
pub open spec fn names_root(searches: Seq<SearchView>, steps: Seq<Step>, i: int) -> bool {
    &&& searches[i].stage == RootStage::Asking
    &&& steps[i] is Heard
    &&& answered(searches[i].mount, steps[i]->Heard_0) is Ok
}

/// Whether the search has an answer that names a root.
pub open spec fn is_named(stage: RootStage) -> bool {
    ||| stage is Saving
    ||| stage == RootStage::Finished(RootOutcome::Adopted)
    ||| stage is Finished && stage->Finished_0 is NotSaved
}

/// A root that is known is used as it is: nothing is asked, nothing is written, and the configuration
/// stays as it was.
pub proof fn known_root_is_used(
    entries: Seq<EntryView>,
    agent: Seq<Seq<char>>,
    shell: Seq<Seq<char>>,
    file: Seq<u8>,
    mount: Seq<u8>,
    device_id: u64,
    step: Step,
)
    requires
        lookup(entries, mount, device_id) is Known,
    ensures
        ({
            let search = begun(entries, agent, shell, file, mount, device_id);
            &&& search.stage == RootStage::Finished(RootOutcome::Known)
            &&& search.root == lookup(entries, mount, device_id)->Known_0
            &&& acts(search) == ActionView::Nothing
            &&& search.entries == entries
            &&& stepped(search, step) == search
        }),
{
}

/// Nothing is written, and no entry of the configuration changed, before an answer that names a root.
pub proof fn nothing_changes_before_an_answer(
    entries: Seq<EntryView>,
    agent: Seq<Seq<char>>,
    shell: Seq<Seq<char>>,
    file: Seq<u8>,
    mount: Seq<u8>,
    device_id: u64,
    searches: Seq<SearchView>,
    steps: Seq<Step>,
    j: int,
)
    requires
        is_search(begun(entries, agent, shell, file, mount, device_id), searches, steps),
        0 <= j < searches.len(),
        acts(searches[j]).writes() || searches[j].entries != entries,
    ensures
        exists|i: int| 0 <= i < j && #[trigger] names_root(searches, steps, i),
{
    lemma_named(entries, agent, shell, file, mount, device_id, searches, steps, j);
}

proof fn lemma_named(
    entries: Seq<EntryView>,
    agent: Seq<Seq<char>>,
    shell: Seq<Seq<char>>,
    file: Seq<u8>,
    mount: Seq<u8>,
    device_id: u64,
    searches: Seq<SearchView>,
    steps: Seq<Step>,
    j: int,
)
    requires
        is_search(begun(entries, agent, shell, file, mount, device_id), searches, steps),
        0 <= j < searches.len(),
    ensures
        is_named(searches[j].stage) || searches[j].entries != entries ==> exists|i: int|
            0 <= i < j && #[trigger] names_root(searches, steps, i),
    decreases j,
{
    if j > 0 {
        let i = j - 1;
        lemma_named(entries, agent, shell, file, mount, device_id, searches, steps, i);
        assert(searches[i + 1] == stepped(searches[i], steps[i]));
        if is_named(searches[j].stage) || searches[j].entries != entries {
            if !(is_named(searches[i].stage) || searches[i].entries != entries) {
                assert(names_root(searches, steps, i));
            }
        }
    }
}

/// A root that was named is the root of the filesystem from then on, and is what is saved.
pub proof fn named_root_is_adopted(search: SearchView, input: Seq<char>)
    requires
        search.stage == RootStage::Asking,
        answered(search.mount, input) is Ok,
    ensures
        heard(search, input).root == answered(search.mount, input)->Ok_0,
        lookup(heard(search, input).entries, search.mount, search.device_id)
            == RootLookupView::Known(heard(search, input).root),
        is_named(heard(search, input).stage),
{
    adopted_root_is_known(
        search.entries,
        search.mount,
        search.device_id,
        answered(search.mount, input)->Ok_0,
    );
}

/// A search asks where nothing is known, says first where another device was mounted before, and ends
/// at once where the root is known.
pub proof fn search_begins_with_what_is_known(
    entries: Seq<EntryView>,
    agent: Seq<Seq<char>>,
    shell: Seq<Seq<char>>,
    file: Seq<u8>,
    mount: Seq<u8>,
    device_id: u64,
)
    ensures
        ({
            let search = begun(entries, agent, shell, file, mount, device_id);
            &&& search.stage == RootStage::Asking <==> lookup(entries, mount, device_id) is Unknown
            &&& lookup(entries, mount, device_id) matches RootLookupView::DeviceChanged(was)
                ==> search.stage == RootStage::Warning(was)
            &&& lookup(entries, mount, device_id) matches RootLookupView::Known(root)
                ==> search.stage == RootStage::Finished(RootOutcome::Known) && search.root == root
            &&& search.entries == entries && search.agent == agent && search.shell == shell
            &&& search.file == file && search.mount == mount && search.device_id == device_id
        }),
{
}

/// Each answer leads where it should: from the warning to the question, from the question to saving
/// what was named, from saving to the end; and each outcome has its one cause.
pub proof fn search_ends_as_it_went(search: SearchView, inner: SaveStage, event: Event, was: u64)
    requires
        !(inner is Finished),
    ensures
        after(RootStage::Warning(was), Event::Done) == RootStage::Asking,
        after(RootStage::Warning(was), event) != RootStage::Warning(was) ==> event == Event::Done,
        after(RootStage::Asking, Event::Failed) == RootStage::Finished(RootOutcome::NoAnswer),
        event != Event::Failed ==> after(RootStage::Asking, event) == RootStage::Asking,
        store::after(inner, event) == SaveStage::Finished(SaveOutcome::Saved) ==> after(
            RootStage::Saving(inner),
            event,
        ) == RootStage::Finished(RootOutcome::Adopted),
        store::after(inner, event) matches SaveStage::Finished(outcome) ==> (outcome
            != SaveOutcome::Saved ==> after(RootStage::Saving(inner), event) == RootStage::Finished(
            RootOutcome::NotSaved(outcome),
        )),
        !(store::after(inner, event) is Finished) ==> after(RootStage::Saving(inner), event)
            == RootStage::Saving(store::after(inner, event)),
        search.stage is Finished ==> told(search, event) == search,
        told(search, event).entries == search.entries,
        told(search, event).root == search.root,
        told(search, event).stage == after(search.stage, event),
        told(search, event).file == search.file,
        told(search, event).mount == search.mount,
        told(search, event).device_id == search.device_id,
        told(search, event).agent == search.agent,
        told(search, event).shell == search.shell,
{
}

/// What is typed is heard only when it was asked for: a root is adopted and saved, anything else ends
/// the search with the configuration as it was.
pub proof fn answer_is_adopted_or_refused(search: SearchView, input: Seq<char>)
    ensures
        search.stage != RootStage::Asking ==> heard(search, input) == search,
        search.stage == RootStage::Asking && answered(search.mount, input) is Err ==> {
            &&& heard(search, input).stage == RootStage::Finished(RootOutcome::Relative)
            &&& heard(search, input).root == answered(search.mount, input)->Err_0
            &&& heard(search, input).entries == search.entries
        },
        search.stage == RootStage::Asking && answered(search.mount, input) is Ok ==> {
            &&& heard(search, input).root == answered(search.mount, input)->Ok_0
            &&& heard(search, input).entries == adopted(
                search.entries,
                search.mount,
                search.device_id,
                answered(search.mount, input)->Ok_0,
            )
            &&& parent(search.file) is Some ==> heard(search, input).stage == RootStage::Saving(
                SaveStage::CreatingDirectory,
            )
            &&& parent(search.file) is None ==> heard(search, input).stage == RootStage::Saving(
                SaveStage::Writing,
            )
        },
        heard(search, input).file == search.file,
        heard(search, input).mount == search.mount,
        heard(search, input).device_id == search.device_id,
        heard(search, input).agent == search.agent,
        heard(search, input).shell == search.shell,
{
}

/// Each stage does what it is for, and each failure is told.
pub proof fn stages_do_what_they_say(search: SearchView, inner: SaveStage, outcome: SaveOutcome)
    ensures
        search.stage matches RootStage::Warning(was) ==> acts(search) == ActionView::Say(
            warning_words(search.mount, was, search.device_id),
        ),
        search.stage == RootStage::Asking ==> acts(search) == ActionView::AskPath(
            question_words(search.mount),
        ),
        search.stage == RootStage::Saving(inner) ==> acts(search) == store::acts(
            inner,
            search.file,
        ),
        search.stage is Finished ==> acts(search) == ActionView::Nothing,
        search.stage == RootStage::Finished(RootOutcome::Relative) ==> outcome_words(search) == Some(
            relative_words(search.root),
        ),
        search.stage == RootStage::Finished(RootOutcome::NoAnswer) ==> outcome_words(search) == Some(
            "Failed to read from stdin"@,
        ),
        search.stage == RootStage::Finished(RootOutcome::NotSaved(outcome)) ==> outcome_words(search)
            == store::outcome_words(outcome, search.file),
        search.stage == RootStage::Finished(RootOutcome::Known) || search.stage
            == RootStage::Finished(RootOutcome::Adopted) || !(search.stage is Finished)
            ==> outcome_words(search) is None,
{
}

} // verus!
