use cc_sandbox::cli::{Cli, Command};
use cc_sandbox::config::{
    config_path, devcontainer_files, has_devcontainer, meta_filename, temporary_path, Config,
    FilesystemEntry,
};
use cc_sandbox::path::FsPath;
use cc_sandbox::step::{Action, Event};
use cc_sandbox::store::{
    action, load_action, load_message, load_or_create, outcome_message, save, start_saving,
    LoadOutcome, LoadStage, SaveOutcome, SaveStage,
};
use cc_sandbox::tool::{check_external_tools, required_tool_names, which, Invocation};

fn path(name: &str) -> FsPath {
    FsPath::from_text(name)
}

#[test]
fn a_new_configuration_runs_the_agent_and_bash() {
    let config = Config::for_agent("agent");
    assert!(config.filesystem.is_empty());
    assert_eq!(
        config.agent.command,
        ["agent", "--dangerously-skip-permissions"]
    );
    assert_eq!(config.shell.command, ["bash"]);
    assert_eq!(meta_filename(), ".cc-sandbox-meta.json");
}

#[test]
fn an_entry_is_cloned_whole() {
    let entry = FilesystemEntry {
        mount_point: path("/data"),
        device_id: 2049,
        shadow_root: path("/data/.cc-sandbox"),
    };
    let copy = entry.clone();
    assert_eq!(copy.mount_point.display(), "/data");
    assert_eq!(copy.device_id, 2049);
    assert_eq!(copy.shadow_root.display(), "/data/.cc-sandbox");
}

#[test]
fn the_configuration_lives_in_the_config_directory() {
    let at = |xdg: Option<&str>, home: Option<&str>| config_path(xdg, home).display();
    assert_eq!(at(Some("/x"), Some("/home/u")), "/x/cc-sandbox/config.toml");
    assert_eq!(
        at(None, Some("/home/u")),
        "/home/u/.config/cc-sandbox/config.toml"
    );
    assert_eq!(at(None, None), "/tmp/cc-sandbox/config.toml");
    assert_eq!(at(Some(""), None), "cc-sandbox/config.toml");
    assert_eq!(
        temporary_path(&config_path(Some("/x"), None)).display(),
        "/x/cc-sandbox/config.toml.tmp"
    );
}

#[test]
fn either_file_makes_a_devcontainer_project() {
    let files: Vec<String> = devcontainer_files(&path("/p")).iter().map(|f| f.display()).collect();
    assert_eq!(
        files,
        ["/p/.devcontainer/devcontainer.json", "/p/.devcontainer.json"]
    );
    for file in &files {
        assert!(has_devcontainer(&path("/p"), &vec![path("/p/x"), path(file)]));
    }
    assert!(!has_devcontainer(&path("/p"), &vec![]));
    assert!(!has_devcontainer(&path("/p"), &vec![path("/p/.devcontainer")]));
    assert!(!has_devcontainer(&path("/q"), &vec![path(&files[0])]));
}

#[test]
fn the_configuration_is_replaced_only_when_written() {
    let place = path("/x/cc-sandbox/config.toml");
    let mut stage = start_saving(&place);
    assert!(matches!(action(stage, &place), Action::CreateDirectories(dir) if dir.display() == "/x/cc-sandbox"));
    stage = save(stage, Event::Done);
    assert!(matches!(action(stage, &place), Action::WriteConfig(file) if file.display() == "/x/cc-sandbox/config.toml.tmp"));
    stage = save(stage, Event::Done);
    match action(stage, &place) {
        Action::Rename(from, to) => {
            assert_eq!(from.display(), "/x/cc-sandbox/config.toml.tmp");
            assert_eq!(to.display(), "/x/cc-sandbox/config.toml");
        }
        other => panic!("{other:?}"),
    }
    stage = save(stage, Event::Done);
    assert_eq!(stage, SaveStage::Finished(SaveOutcome::Saved));
    assert!(matches!(action(stage, &place), Action::Nothing));
    assert_eq!(start_saving(&path("/")), SaveStage::Writing);
}

#[test]
fn a_failure_to_save_is_told() {
    let place = path("/x/config.toml");
    let said = |stage: SaveStage| match save(stage, Event::Failed) {
        SaveStage::Finished(outcome) => outcome_message(outcome, &place).unwrap(),
        other => panic!("{other:?}"),
    };
    assert_eq!(
        said(SaveStage::CreatingDirectory),
        "Failed to create config directory /x"
    );
    assert_eq!(said(SaveStage::Writing), "Failed to write /x/config.toml.tmp");
    assert_eq!(
        said(SaveStage::Renaming),
        "Failed to rename /x/config.toml.tmp to /x/config.toml"
    );
    assert_eq!(outcome_message(SaveOutcome::Saved, &place), None);
}

#[test]
fn a_configuration_that_exists_is_only_read() {
    let place = path("/x/config.toml");
    let next = |stage, event| load_or_create(&place, stage, event);
    assert!(matches!(load_action(LoadStage::Probing, &place), Action::Exists(_)));
    let reading = next(LoadStage::Probing, Event::Yes);
    assert_eq!(reading, LoadStage::Reading);
    assert!(matches!(load_action(reading, &place), Action::ReadConfig(file) if file.display() == "/x/config.toml"));
    assert_eq!(next(reading, Event::Done), LoadStage::Finished(LoadOutcome::Read));
    assert_eq!(next(reading, Event::No), LoadStage::Finished(LoadOutcome::NotParsed));
    assert_eq!(
        next(reading, Event::Failed),
        LoadStage::Finished(LoadOutcome::NotReadable)
    );
    let said = |outcome| load_message(outcome, &place);
    assert_eq!(said(LoadOutcome::NotParsed).unwrap(), "Failed to parse /x/config.toml");
    assert_eq!(said(LoadOutcome::NotReadable).unwrap(), "Failed to read /x/config.toml");
    assert_eq!(
        said(LoadOutcome::NotCreated(SaveOutcome::NoDirectory)).unwrap(),
        "Failed to create config directory /x"
    );
    assert_eq!(said(LoadOutcome::Read), None);
    assert_eq!(said(LoadOutcome::Created), None);
}

#[test]
fn a_configuration_that_is_missing_is_saved() {
    let place = path("/x/config.toml");
    let mut stage = LoadStage::Probing;
    for event in [Event::No, Event::Done, Event::Done, Event::Done] {
        stage = load_or_create(&place, stage, event);
    }
    assert_eq!(stage, LoadStage::Finished(LoadOutcome::Created));
    let failed = load_or_create(&place, LoadStage::Saving(SaveStage::Writing), Event::Failed);
    assert_eq!(
        failed,
        LoadStage::Finished(LoadOutcome::NotCreated(SaveOutcome::NotWritten))
    );
    assert!(matches!(
        load_action(LoadStage::Saving(SaveStage::Writing), &place),
        Action::WriteConfig(_)
    ));
}

#[test]
fn missing_tools_are_named() {
    assert_eq!(
        required_tool_names(),
        ["cp", "rsync", "docker", "devcontainer"]
    );
    assert_eq!(check_external_tools(&vec![true; 4]), Ok(()));
    assert_eq!(
        check_external_tools(&vec![true, false, true, false]),
        Err("Required tools not found on PATH: rsync, devcontainer.\n\
             cc-sandbox needs: cp (GNU coreutils), rsync, docker, and devcontainer.\n\
             Install devcontainer with: npm install -g @devcontainers/cli"
            .to_string())
    );
    assert!(check_external_tools(&vec![true, true, true]).is_err());
    let query = which("rsync");
    assert_eq!((query.program.as_str(), query.args), ("which", vec!["rsync".to_string()]));
}

#[test]
fn arguments_follow_one_another() {
    let more: Vec<String> = vec!["b".into(), "c d".into()];
    let run = Invocation::new("p").arg("a").args(&more).arg("");
    assert_eq!(run.program, "p");
    assert_eq!(run.args, ["a", "b", "c d", ""]);
}

#[test]
fn verbose_logging_is_asked_for() {
    let quiet = Cli {
        command: Command::List,
        verbose: false,
    };
    assert_eq!(quiet.log_level(), "warn");
    let loud = Cli {
        command: Command::Start {
            path: path("."),
            name: None,
        },
        verbose: true,
    };
    assert_eq!(loud.log_level(), "trace");
}
