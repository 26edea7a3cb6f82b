//! Keeping the configuration on disk.
//!
//! The configuration is written to a file beside its own, which then takes its place: whoever reads
//! it finds the old one or the new one, and never a part of either.
use crate::config::{config_location, in_dir, temporary_name, temporary_path};
use crate::path::{parent, parent_or_empty, FsPath, SLASH};
use crate::step::{is_run, lemma_passes_into, Action, ActionView, Event};
use crate::text::{lemma_encoding_concat, lemma_encoding_len, shown};
use vstd::prelude::*;
use vstd::utf8::{encode_utf8, is_ascii_chars, is_ascii_chars_encode_utf8};

verus! {

// ---------------------------------------------------------------------------------------------
// Saving
// ---------------------------------------------------------------------------------------------

/// What is to be done next.
#[derive(Clone, Copy, Debug, PartialEq, Eq, Structural)]
pub enum SaveStage {
    /// Create the directory of the configuration.
    CreatingDirectory,
    /// Write the configuration beside its place.
    Writing,
    /// Put it in its place.
    Renaming,
    /// Nothing.
    Finished(SaveOutcome),
}

/// How saving ended.
#[derive(Clone, Copy, Debug, PartialEq, Eq, Structural)]
pub enum SaveOutcome {
    Saved,
    NoDirectory,
    NotWritten,
    NotRenamed,
}

/// The first stage; the root has no directory that could be created.
pub open spec fn save_start(has_parent: bool) -> SaveStage {
    if has_parent {
        SaveStage::CreatingDirectory
    } else {
        SaveStage::Writing
    }
}

/// The first stage.
pub fn start_saving(path: &FsPath) -> (res: SaveStage)
    ensures
        res == save_start(parent(path@) is Some),
{
    match path.parent() {
        Some(_) => SaveStage::CreatingDirectory,
        None => SaveStage::Writing,
    }
}

/// The stage after `stage`. An event that does not answer the stage leaves it as it is.
pub open spec fn after(stage: SaveStage, event: Event) -> SaveStage {
    match (stage, event) {
        (SaveStage::CreatingDirectory, Event::Done) => SaveStage::Writing,
        (SaveStage::CreatingDirectory, Event::Failed) => SaveStage::Finished(
            SaveOutcome::NoDirectory,
        ),
        (SaveStage::Writing, Event::Done) => SaveStage::Renaming,
        (SaveStage::Writing, Event::Failed) => SaveStage::Finished(SaveOutcome::NotWritten),
        (SaveStage::Renaming, Event::Done) => SaveStage::Finished(SaveOutcome::Saved),
        (SaveStage::Renaming, Event::Failed) => SaveStage::Finished(SaveOutcome::NotRenamed),
        _ => stage,
    }
}

/// Save the configuration atomically: the stage that follows.
pub fn save(stage: SaveStage, event: Event) -> (res: SaveStage)
    ensures
        res == after(stage, event),
{
    match (stage, event) {
        (SaveStage::CreatingDirectory, Event::Done) => SaveStage::Writing,
        (SaveStage::CreatingDirectory, Event::Failed) => SaveStage::Finished(
            SaveOutcome::NoDirectory,
        ),
        (SaveStage::Writing, Event::Done) => SaveStage::Renaming,
        (SaveStage::Writing, Event::Failed) => SaveStage::Finished(SaveOutcome::NotWritten),
        (SaveStage::Renaming, Event::Done) => SaveStage::Finished(SaveOutcome::Saved),
        (SaveStage::Renaming, Event::Failed) => SaveStage::Finished(SaveOutcome::NotRenamed),
        _ => stage,
    }
}

/// What is to be done at `stage`, for a configuration kept at `path`.
pub open spec fn acts(stage: SaveStage, path: Seq<u8>) -> ActionView {
    match stage {
        SaveStage::CreatingDirectory => ActionView::CreateDirectories(parent_or_empty(path)),
        SaveStage::Writing => ActionView::WriteConfig(temporary_name(path)),
        SaveStage::Renaming => ActionView::Rename(temporary_name(path), path),
        SaveStage::Finished(_) => ActionView::Nothing,
    }
}

/// What is to be done at `stage`, for a configuration kept at `path`.
pub fn action(stage: SaveStage, path: &FsPath) -> (res: Action)
    ensures
        res@ == acts(stage, path@),
{
    match stage {
        SaveStage::CreatingDirectory => Action::CreateDirectories(path.parent_or_empty()),
        SaveStage::Writing => Action::WriteConfig(temporary_path(path)),
        SaveStage::Renaming => Action::Rename(temporary_path(path), path.clone()),
        SaveStage::Finished(_) => Action::Nothing,
    }
}

/// What is said of the outcome, where it is a failure.
pub open spec fn outcome_words(outcome: SaveOutcome, path: Seq<u8>) -> Option<Seq<char>> {
    match outcome {
        SaveOutcome::Saved => None,
        SaveOutcome::NoDirectory => Some(
            "Failed to create config directory "@ + shown(parent_or_empty(path)),
        ),
        SaveOutcome::NotWritten => Some("Failed to write "@ + shown(temporary_name(path))),
        SaveOutcome::NotRenamed => Some(
            "Failed to rename "@ + shown(temporary_name(path)) + " to "@ + shown(path),
        ),
    }
}

/// What is said of the outcome, where it is a failure.
pub fn outcome_message(outcome: SaveOutcome, path: &FsPath) -> (res: Option<String>)
    ensures
        match res {
            Some(text) => outcome_words(outcome, path@) == Some(text@),
            None => outcome_words(outcome, path@) is None,
        },
{
    match outcome {
        SaveOutcome::Saved => None,
        SaveOutcome::NoDirectory => Some(
            "Failed to create config directory ".to_owned().concat(
                path.parent_or_empty().display().as_str(),
            ),
        ),
        SaveOutcome::NotWritten => Some(
            "Failed to write ".to_owned().concat(temporary_path(path).display().as_str()),
        ),
        SaveOutcome::NotRenamed => {
            let mut out = "Failed to rename ".to_owned();
            out.append(temporary_path(path).display().as_str());
            out.append(" to ");
            out.append(path.display().as_str());
            Some(out)
        },
    }
}

/// The configuration is never written in place: it is replaced by a file that was written whole, or
/// not at all.
pub proof fn replaced_only_when_written(
    has_parent: bool,
    stages: Seq<SaveStage>,
    events: Seq<Event>,
    j: int,
    path: Seq<u8>,
)
    requires
        is_run(|s: SaveStage, e: Event| after(s, e), save_start(has_parent), stages, events),
        0 <= j < stages.len(),
    ensures
        acts(stages[j], path) is WriteConfig ==> acts(stages[j], path)->WriteConfig_0 != path,
        acts(stages[j], path) is Rename ==> exists|i: int|
            0 <= i < j && stages[i] == SaveStage::Writing && #[trigger] events[i] == Event::Done,
{
    reveal_strlit(".tmp");
    assert(temporary_name(path).len() > path.len()) by {
        lemma_encoding_len(".tmp"@);
    }
    if stages[j] == SaveStage::Renaming {
        let i = lemma_passes_into(
            |s: SaveStage, e: Event| after(s, e),
            save_start(has_parent),
            stages,
            events,
            |s: SaveStage| s == SaveStage::Renaming,
            j,
        );
        assert(stages[i] == SaveStage::Writing && events[i] == Event::Done);
    }
}

proof fn lemma_fallback()
    ensures
        encode_utf8("/tmp/cc-sandbox/config.toml"@) == encode_utf8("/tmp/cc-sandbox"@) + seq![SLASH]
            + encode_utf8("config.toml"@),
        encode_utf8("/tmp/cc-sandbox"@).len() > 0,
        encode_utf8("/tmp/cc-sandbox"@).last() != SLASH,
{
    reveal_strlit("/tmp/cc-sandbox/config.toml");
    reveal_strlit("/tmp/cc-sandbox");
    reveal_strlit("config.toml");
    let dir = "/tmp/cc-sandbox"@;
    let file = "config.toml"@;
    assert(dir + seq!['/'] + file =~= "/tmp/cc-sandbox/config.toml"@);
    lemma_encoding_concat(dir + seq!['/'], file);
    lemma_encoding_concat(dir, seq!['/']);
    assert(is_ascii_chars(seq!['/']));
    is_ascii_chars_encode_utf8(seq!['/']);
    assert(seq!['/'][0] == '/');
    assert(encode_utf8(seq!['/']) =~= seq![SLASH]);
    assert(is_ascii_chars(dir));
    is_ascii_chars_encode_utf8(dir);
    assert(dir[14] == 'x');
}

/// The file that is written first lies in the same directory as the configuration, so that it can
/// take its place in one step.
pub proof fn temporary_file_lies_beside(xdg: Option<Seq<char>>, home: Option<Seq<char>>)
    ensures
        exists|dir: Seq<u8>|
            config_location(xdg, home) == #[trigger] in_dir(dir, "config.toml"@) && temporary_name(
                config_location(xdg, home),
            ) == in_dir(dir, "config.toml.tmp"@),
{
    reveal_strlit("config.toml");
    reveal_strlit(".tmp");
    reveal_strlit("config.toml.tmp");
    let path = config_location(xdg, home);
    let dir = match (xdg, home) {
        (Some(base), _) => in_dir(encode_utf8(base), "cc-sandbox"@),
        (None, Some(base)) => in_dir(in_dir(encode_utf8(base), ".config"@), "cc-sandbox"@),
        (None, None) => encode_utf8("/tmp/cc-sandbox"@),
    };
    lemma_encoding_concat("config.toml"@, ".tmp"@);
    assert("config.toml"@ + ".tmp"@ =~= "config.toml.tmp"@);
    assert(encode_utf8("config.toml"@)[0] != SLASH && encode_utf8("config.toml"@).len() > 0) by {
        assert(is_ascii_chars("config.toml"@));
        is_ascii_chars_encode_utf8("config.toml"@);
        assert("config.toml"@[0] == 'c');
    }
    if xdg is None && home is None {
        lemma_fallback();
    }
    assert(path == in_dir(dir, "config.toml"@));
    assert(temporary_name(path) =~= in_dir(dir, "config.toml.tmp"@));
}

// ---------------------------------------------------------------------------------------------
// Loading
// ---------------------------------------------------------------------------------------------

/// What is to be done next.
#[derive(Clone, Copy, Debug, PartialEq, Eq, Structural)]
pub enum LoadStage {
    /// Ask whether there is a configuration.
    Probing,
    /// Read it.
    Reading,
    /// Save the default, as there is none.
    Saving(SaveStage),
    /// Nothing.
    Finished(LoadOutcome),
}

/// How loading ended.
#[derive(Clone, Copy, Debug, PartialEq, Eq, Structural)]
pub enum LoadOutcome {
    /// The configuration was read.
    Read,
    /// There was none, and the default was saved.
    Created,
    NotReadable,
    NotParsed,
    NotCreated(SaveOutcome),
}

/// The stage after `stage`. An event that does not answer the stage leaves it as it is.
pub open spec fn after_load(has_parent: bool, stage: LoadStage, event: Event) -> LoadStage {
    match (stage, event) {
        (LoadStage::Probing, Event::Yes) => LoadStage::Reading,
        (LoadStage::Probing, Event::No) => LoadStage::Saving(save_start(has_parent)),
        (LoadStage::Reading, Event::Done) => LoadStage::Finished(LoadOutcome::Read),
        (LoadStage::Reading, Event::No) => LoadStage::Finished(LoadOutcome::NotParsed),
        (LoadStage::Reading, Event::Failed) => LoadStage::Finished(LoadOutcome::NotReadable),
        (LoadStage::Saving(inner), _) => match after(inner, event) {
            SaveStage::Finished(SaveOutcome::Saved) => LoadStage::Finished(LoadOutcome::Created),
            SaveStage::Finished(outcome) => LoadStage::Finished(LoadOutcome::NotCreated(outcome)),
            next => LoadStage::Saving(next),
        },
        _ => stage,
    }
}

/// Load the configuration, or create a default one where there is none: the stage that follows.
pub fn load_or_create(path: &FsPath, stage: LoadStage, event: Event) -> (res: LoadStage)
    ensures
        res == after_load(parent(path@) is Some, stage, event),
{
    match (stage, event) {
        (LoadStage::Probing, Event::Yes) => LoadStage::Reading,
        (LoadStage::Probing, Event::No) => LoadStage::Saving(start_saving(path)),
        (LoadStage::Reading, Event::Done) => LoadStage::Finished(LoadOutcome::Read),
        (LoadStage::Reading, Event::No) => LoadStage::Finished(LoadOutcome::NotParsed),
        (LoadStage::Reading, Event::Failed) => LoadStage::Finished(LoadOutcome::NotReadable),
        (LoadStage::Saving(inner), _) => match save(inner, event) {
            SaveStage::Finished(SaveOutcome::Saved) => LoadStage::Finished(LoadOutcome::Created),
            SaveStage::Finished(outcome) => LoadStage::Finished(LoadOutcome::NotCreated(outcome)),
            next => LoadStage::Saving(next),
        },
        _ => stage,
    }
}

/// What is to be done at `stage`, for a configuration kept at `path`.
pub open spec fn load_acts(stage: LoadStage, path: Seq<u8>) -> ActionView {
    match stage {
        LoadStage::Probing => ActionView::Exists(path),
        LoadStage::Reading => ActionView::ReadConfig(path),
        LoadStage::Saving(inner) => acts(inner, path),
        LoadStage::Finished(_) => ActionView::Nothing,
    }
}

/// What is to be done at `stage`, for a configuration kept at `path`.
pub fn load_action(stage: LoadStage, path: &FsPath) -> (res: Action)
    ensures
        res@ == load_acts(stage, path@),
{
    match stage {
        LoadStage::Probing => Action::Exists(path.clone()),
        LoadStage::Reading => Action::ReadConfig(path.clone()),
        LoadStage::Saving(inner) => action(inner, path),
        LoadStage::Finished(_) => Action::Nothing,
    }
}

/// What is said of the outcome, where it is a failure.
pub open spec fn load_words(outcome: LoadOutcome, path: Seq<u8>) -> Option<Seq<char>> {
    match outcome {
        LoadOutcome::Read | LoadOutcome::Created => None,
        LoadOutcome::NotReadable => Some("Failed to read "@ + shown(path)),
        LoadOutcome::NotParsed => Some("Failed to parse "@ + shown(path)),
        LoadOutcome::NotCreated(inner) => outcome_words(inner, path),
    }
}

/// What is said of the outcome, where it is a failure.
pub fn load_message(outcome: LoadOutcome, path: &FsPath) -> (res: Option<String>)
    ensures
        match res {
            Some(text) => load_words(outcome, path@) == Some(text@),
            None => load_words(outcome, path@) is None,
        },
{
    match outcome {
        LoadOutcome::Read | LoadOutcome::Created => None,
        LoadOutcome::NotReadable => Some(
            "Failed to read ".to_owned().concat(path.display().as_str()),
        ),
        LoadOutcome::NotParsed => Some(
            "Failed to parse ".to_owned().concat(path.display().as_str()),
        ),
        LoadOutcome::NotCreated(inner) => outcome_message(inner, path),
    }
}

/// A configuration that exists is left as it is, whether it can be read or not: nothing is written
/// unless there was none.
pub proof fn existing_configuration_is_left(
    has_parent: bool,
    stages: Seq<LoadStage>,
    events: Seq<Event>,
    j: int,
    path: Seq<u8>,
)
    requires
        is_run(
            |s: LoadStage, e: Event| after_load(has_parent, s, e),
            LoadStage::Probing,
            stages,
            events,
        ),
        0 <= j < stages.len(),
        load_acts(stages[j], path).writes(),
    ensures
        exists|i: int|
            0 <= i < j && stages[i] == LoadStage::Probing && #[trigger] events[i] == Event::No,
{
    let i = lemma_passes_into(
        |s: LoadStage, e: Event| after_load(has_parent, s, e),
        LoadStage::Probing,
        stages,
        events,
        |s: LoadStage| s is Saving,
        j,
    );
    assert(stages[i] == LoadStage::Probing && events[i] == Event::No);
}

// ---------------------------------------------------------------------------------------------
// What saving and loading come to
// ---------------------------------------------------------------------------------------------

/// Saving creates the directory, writes beside the file, and puts that in its place; each failure has
/// its outcome, and no other answer brings it about.
pub proof fn saving_ends_as_it_went(has_parent: bool, stage: SaveStage, event: Event, path: Seq<u8>)
    ensures
        has_parent ==> save_start(has_parent) == SaveStage::CreatingDirectory,
        !has_parent ==> save_start(has_parent) == SaveStage::Writing,
        after(SaveStage::CreatingDirectory, Event::Done) == SaveStage::Writing,
        after(SaveStage::Writing, Event::Done) == SaveStage::Renaming,
        after(SaveStage::Renaming, Event::Done) == SaveStage::Finished(SaveOutcome::Saved),
        !(stage is Finished) ==> {
            &&& after(stage, event) == SaveStage::Finished(SaveOutcome::Saved) <==> stage
                == SaveStage::Renaming && event == Event::Done
            &&& after(stage, event) == SaveStage::Finished(SaveOutcome::NoDirectory) <==> stage
                == SaveStage::CreatingDirectory && event == Event::Failed
            &&& after(stage, event) == SaveStage::Finished(SaveOutcome::NotWritten) <==> stage
                == SaveStage::Writing && event == Event::Failed
            &&& after(stage, event) == SaveStage::Finished(SaveOutcome::NotRenamed) <==> stage
                == SaveStage::Renaming && event == Event::Failed
        },
        after(stage, event) != stage <==> acts(stage, path).answered_by(event),
        parent(path) matches Some(dir) ==> acts(SaveStage::CreatingDirectory, path)
            == ActionView::CreateDirectories(dir),
        acts(SaveStage::Writing, path) == ActionView::WriteConfig(path + encode_utf8(".tmp"@)),
        acts(SaveStage::Renaming, path) == ActionView::Rename(path + encode_utf8(".tmp"@), path),
{
}

/// Loading reads a configuration that exists, and saves the default where there is none; each failure
/// has its outcome, and no other answer brings it about.
pub proof fn loading_ends_as_it_went(
    has_parent: bool,
    stage: LoadStage,
    inner: SaveStage,
    event: Event,
    path: Seq<u8>,
)
    requires
        !(inner is Finished),
    ensures
        after_load(has_parent, LoadStage::Probing, Event::Yes) == LoadStage::Reading,
        after_load(has_parent, LoadStage::Probing, Event::No) == LoadStage::Saving(
            save_start(has_parent),
        ),
        after_load(has_parent, LoadStage::Reading, Event::Done) == LoadStage::Finished(
            LoadOutcome::Read,
        ),
        !(after(inner, event) is Finished) ==> after_load(
            has_parent,
            LoadStage::Saving(inner),
            event,
        ) == LoadStage::Saving(after(inner, event)),
        after(inner, event) == SaveStage::Finished(SaveOutcome::Saved) ==> after_load(
            has_parent,
            LoadStage::Saving(inner),
            event,
        ) == LoadStage::Finished(LoadOutcome::Created),
        after(inner, event) matches SaveStage::Finished(outcome) ==> (outcome
            != SaveOutcome::Saved ==> after_load(has_parent, LoadStage::Saving(inner), event)
            == LoadStage::Finished(LoadOutcome::NotCreated(outcome))),
        !(stage is Finished) ==> {
            &&& after_load(has_parent, stage, event) == LoadStage::Finished(LoadOutcome::Read)
                <==> stage == LoadStage::Reading && event == Event::Done
            &&& after_load(has_parent, stage, event) == LoadStage::Finished(LoadOutcome::NotParsed)
                <==> stage == LoadStage::Reading && event == Event::No
            &&& after_load(has_parent, stage, event) == LoadStage::Finished(
                LoadOutcome::NotReadable,
            ) <==> stage == LoadStage::Reading && event == Event::Failed
        },
        load_acts(LoadStage::Probing, path) == ActionView::Exists(path),
        load_acts(LoadStage::Reading, path) == ActionView::ReadConfig(path),
        load_acts(LoadStage::Saving(inner), path) == acts(inner, path),
{
}

/// What is said where saving or loading fails: the file or the directory that it is about.
pub proof fn failures_are_told(path: Seq<u8>, outcome: SaveOutcome)
    ensures
        outcome_words(SaveOutcome::Saved, path) is None,
        parent(path) matches Some(dir) ==> outcome_words(SaveOutcome::NoDirectory, path) == Some(
            "Failed to create config directory "@ + shown(dir),
        ),
        outcome_words(SaveOutcome::NotWritten, path) == Some(
            "Failed to write "@ + shown(path + encode_utf8(".tmp"@)),
        ),
        outcome_words(SaveOutcome::NotRenamed, path) == Some(
            "Failed to rename "@ + shown(path + encode_utf8(".tmp"@)) + " to "@ + shown(path),
        ),
        load_words(LoadOutcome::Read, path) is None,
        load_words(LoadOutcome::Created, path) is None,
        load_words(LoadOutcome::NotReadable, path) == Some("Failed to read "@ + shown(path)),
        load_words(LoadOutcome::NotParsed, path) == Some("Failed to parse "@ + shown(path)),
        load_words(LoadOutcome::NotCreated(outcome), path) == outcome_words(outcome, path),
{
}

} // verus!
