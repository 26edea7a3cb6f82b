use cc_sandbox::config::{Config, FilesystemEntry};
use cc_sandbox::path::FsPath;
use cc_sandbox::root_search::{RootOutcome, Search};
use cc_sandbox::step::{Action, Event};
use cc_sandbox::store::SaveOutcome;

fn path(name: &str) -> FsPath {
    FsPath::from_text(name)
}

fn search(mount: &str, device_id: u64) -> Search {
    let mut config = Config::for_agent("agent");
    config.filesystem.push(FilesystemEntry {
        mount_point: path("/data"),
        device_id: 2049,
        shadow_root: path("/data/.cc-sandbox"),
    });
    Search::begin(config, &path("/x/config.toml"), &path(mount), device_id)
}

#[test]
fn a_known_root_is_used_without_a_question() {
    let mut known = search("/data", 2049);
    assert_eq!(known.outcome(), Some(RootOutcome::Known));
    assert!(matches!(known.action(), Action::Nothing));
    known.hear("/elsewhere");
    known.tell(Event::Done);
    assert_eq!(known.outcome_message(), None);
    let (config, root) = known.finish();
    assert_eq!(root.display(), "/data/.cc-sandbox");
    assert_eq!(config.filesystem.len(), 1);
}

#[test]
fn a_new_root_is_adopted_and_saved() {
    let mut new = search("/home", 7);
    match new.action() {
        Action::AskPath(text) => assert_eq!(
            text,
            "Source is on filesystem mounted at /home. Where should shadows live? \
             [/home/.cc-sandbox]: "
        ),
        other => panic!("{other:?}"),
    }
    assert_eq!(new.config().filesystem.len(), 1);
    new.hear("\n");
    assert!(matches!(new.action(), Action::CreateDirectories(dir) if dir.display() == "/x"));
    new.tell(Event::Done);
    assert!(matches!(new.action(), Action::WriteConfig(file) if file.display() == "/x/config.toml.tmp"));
    assert_eq!(new.config().filesystem.len(), 2);
    new.tell(Event::Done);
    assert!(matches!(new.action(), Action::Rename(_, _)));
    assert_eq!(new.outcome(), None);
    new.tell(Event::Done);
    assert_eq!(new.outcome(), Some(RootOutcome::Adopted));
    let (config, root) = new.finish();
    assert_eq!(root.display(), "/home/.cc-sandbox");
    assert_eq!(config.filesystem[1].mount_point.display(), "/home");
    assert_eq!(config.filesystem[1].device_id, 7);
    assert_eq!(config.filesystem[1].shadow_root.display(), "/home/.cc-sandbox");
    assert_eq!(config.agent.command[0], "agent");
}

#[test]
fn a_changed_device_is_warned_of_and_asked_for() {
    let mut changed = search("/data", 7);
    match changed.action() {
        Action::Say(text) => assert!(text.contains("(was 2049, now 7)")),
        other => panic!("{other:?}"),
    }
    // Nothing is heard before the question.
    changed.hear("/data/new");
    assert_eq!(changed.config().filesystem[0].device_id, 2049);
    changed.tell(Event::Done);
    changed.hear("/data/new\n");
    assert_eq!(changed.config().filesystem.len(), 1);
    assert_eq!(changed.config().filesystem[0].device_id, 7);
    assert_eq!(changed.config().filesystem[0].shadow_root.display(), "/data/new");
    changed.tell(Event::Done);
    changed.tell(Event::Failed);
    assert_eq!(
        changed.outcome(),
        Some(RootOutcome::NotSaved(SaveOutcome::NotWritten))
    );
    assert_eq!(
        changed.outcome_message().unwrap(),
        "Failed to write /x/config.toml.tmp"
    );
}

#[test]
fn an_answer_that_names_no_root_changes_nothing() {
    let mut relative = search("/home", 7);
    relative.hear("shadows\n");
    assert_eq!(relative.outcome(), Some(RootOutcome::Relative));
    assert_eq!(
        relative.outcome_message().unwrap(),
        "Shadow root must be an absolute path, got: shadows"
    );
    assert_eq!(relative.config().filesystem.len(), 1);
    let mut silent = search("/home", 7);
    silent.tell(Event::Failed);
    assert_eq!(silent.outcome(), Some(RootOutcome::NoAnswer));
    assert_eq!(silent.outcome_message().unwrap(), "Failed to read from stdin");
    assert_eq!(silent.config().filesystem.len(), 1);
}
