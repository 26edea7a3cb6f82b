use cc_sandbox::commands::{accept, list, reject, shell, start};
use cc_sandbox::config::{Config, FilesystemEntry};
use cc_sandbox::create::{self, CreateOutcome, CreateStage};
use cc_sandbox::moment::{Moment, LATEST};
use cc_sandbox::path::FsPath;
use cc_sandbox::removal::{
    affirms, cleanup_empty_parents, confirmed, count_files, owning_root, plan, Job,
};
use cc_sandbox::shadow::{ChangeSummary, ShadowMeta, ShadowPathError};
use cc_sandbox::step::{Action, Event};
use cc_sandbox::tool::Invocation;
use cc_sandbox::walk::Found;

fn path(name: &str) -> FsPath {
    FsPath::from_text(name)
}

fn config() -> Config {
    let mut config = Config::for_agent("agent");
    for root in ["/a/s", "/data/.cc-sandbox", "/data/.cc-sandbox/a"] {
        config.filesystem.push(FilesystemEntry {
            mount_point: path("/"),
            device_id: 1,
            shadow_root: path(root),
        });
    }
    config
}

fn job(yes: bool) -> Job {
    plan(
        &config(),
        &path("/data/.cc-sandbox/a/b/p-x"),
        &path("/data/a/b/p"),
        yes,
    )
}

fn line(run: &Invocation) -> String {
    format!("{} {}", run.program, run.args.join(" "))
}

/// An action in one line.
fn told(action: &Action) -> String {
    match action {
        Action::Nothing => "nothing".to_string(),
        Action::Resolve(p) => format!("resolve {}", p.display()),
        Action::LoadConfig => "load config".to_string(),
        Action::ReadConfig(p) => format!("read config {}", p.display()),
        Action::FindRoot(p) => format!("find root {}", p.display()),
        Action::FindPlace(p) => format!("find place {}", p.display()),
        Action::Discard(p) => format!("discard {}", p.display()),
        Action::IsDirectory(p) => format!("is dir {}", p.display()),
        Action::HasDevcontainer(p) => format!("has devcontainer {}", p.display()),
        Action::Exists(p) => format!("exists {}", p.display()),
        Action::CreateDirectories(p) => format!("mkdir -p {}", p.display()),
        Action::CreateDirectory(p) => format!("mkdir {}", p.display()),
        Action::Run(i) => format!("run {}", line(i)),
        Action::StartContainer(p, i) => format!("start {} {}", p.display(), line(i)),
        Action::Prints(i) => format!("prints {}", line(i)),
        Action::Measure(i) => format!("measure {}", line(i)),
        Action::CountLines(i) => format!("count {}", line(i)),
        Action::Say(text) => format!("say {text}"),
        Action::Ask(text) => format!("ask {text}"),
        Action::StopContainer(p) => format!("stop {}", p.display()),
        Action::Stamp => "stamp".to_string(),
        Action::AskPath(text) => format!("ask path {text}"),
        Action::Record(p, meta) => format!(
            "record {} {} {}",
            p.display(),
            meta.source.display(),
            meta.name_suffix
        ),
        Action::WriteConfig(p) => format!("config {}", p.display()),
        Action::Rename(a, b) => format!("rename {} {}", a.display(), b.display()),
        Action::RemoveTree(p) => format!("rm -rf {}", p.display()),
        Action::RemoveEmpty(p) => format!("rmdir {}", p.display()),
    }
}

const SUMMARY: ChangeSummary = ChangeSummary {
    modified: 1,
    added: 2,
    deleted: 3,
};

fn accepting(job: &Job, events: &[Event]) -> (Vec<String>, accept::Stage) {
    let mut stage = accept::Stage::Checking;
    let mut said = Vec::new();
    for event in events {
        said.push(told(&accept::action(job, stage)));
        stage = accept::run(job, stage, *event);
    }
    (said, stage)
}

fn rejecting(job: &Job, events: &[Event]) -> (Vec<String>, reject::Stage) {
    let mut stage = reject::Stage::Checking;
    let mut said = Vec::new();
    for event in events {
        said.push(told(&reject::action(job, stage)));
        stage = reject::run(job, stage, *event);
    }
    (said, stage)
}

#[test]
fn a_plan_knows_the_root_and_what_lies_between() {
    let job = job(false);
    assert!(job.owned && !job.yes);
    let between: Vec<String> = job.parents.iter().map(|p| p.display()).collect();
    assert_eq!(between, ["/data/.cc-sandbox/a/b", "/data/.cc-sandbox/a"]);
    let stray = plan(&config(), &path("/tmp/p-x"), &path("/p"), true);
    assert!(!stray.owned && stray.parents.is_empty());
    assert_eq!(
        owning_root(&config(), &path("/data/.cc-sandbox/a/b")).unwrap().display(),
        "/data/.cc-sandbox"
    );
    assert!(owning_root(&config(), &path("/data/.cc-sandboxes")).is_none());
}

#[test]
fn the_root_and_what_is_above_is_never_pruned() {
    let between = |shadow: &str, root: &str| -> Vec<String> {
        cleanup_empty_parents(&path(shadow), &path(root))
            .iter()
            .map(|p| p.display())
            .collect()
    };
    assert_eq!(between("/r/a/b/c", "/r"), ["/r/a/b", "/r/a"]);
    assert!(between("/r/a", "/r").is_empty());
    assert!(between("/r", "/r").is_empty());
    assert!(between("/elsewhere/a/b", "/r").is_empty());
    assert_eq!(between("/r/a//b/./c", "/r/"), ["/r/a//b", "/r/a"]);
}

#[test]
fn an_answer_is_a_yes_in_any_case() {
    for yes in ["y\n", " Y ", "yes", "YES\n", "yEs"] {
        assert!(confirmed(yes), "{yes:?}");
    }
    for no in ["", "\n", "n", "no", "ye", "yes please", "y y", "ÿ"] {
        assert!(!confirmed(no), "{no:?}");
    }
    assert!(affirms("y") && affirms("yes") && !affirms("Y"));
}

#[test]
fn an_accepted_shadow_is_merged_and_removed() {
    let (said, stage) = accepting(
        &job(false),
        &[
            Event::Yes,
            Event::Measured(SUMMARY),
            Event::Done,
            Event::Yes,
            Event::Done,
            Event::Done,
            Event::Done,
            Event::Done,
            Event::Done,
        ],
    );
    let rsync = "--delete --exclude=.cc-sandbox-meta.json /data/.cc-sandbox/a/b/p-x/ /data/a/b/p/";
    assert_eq!(
        said,
        [
            "is dir /data/a/b/p".to_string(),
            format!("measure rsync -ain {rsync}"),
            "say Changes: 1 modified, 2 added, 3 deleted".to_string(),
            "ask Accept 1 modified, 2 added, 3 deleted back to /data/a/b/p? [y/N]: ".to_string(),
            "stop /data/.cc-sandbox/a/b/p-x".to_string(),
            format!("run rsync -a {rsync}"),
            "rm -rf /data/.cc-sandbox/a/b/p-x".to_string(),
            "rmdir /data/.cc-sandbox/a/b".to_string(),
            "rmdir /data/.cc-sandbox/a".to_string(),
        ]
    );
    assert_eq!(stage, accept::Stage::Finished(accept::Outcome::Accepted));
}

#[test]
fn a_directory_that_is_not_empty_ends_the_pruning() {
    let (said, stage) = accepting(
        &job(true),
        &[
            Event::Yes,
            Event::Measured(SUMMARY),
            Event::Done,
            Event::Done,
            Event::Done,
            Event::Done,
            Event::Failed,
        ],
    );
    assert_eq!(said.last().unwrap(), "rmdir /data/.cc-sandbox/a/b");
    assert_eq!(stage, accept::Stage::Finished(accept::Outcome::Accepted));
}

#[test]
fn a_failed_merge_keeps_the_shadow() {
    let start = [Event::Yes, Event::Measured(SUMMARY), Event::Done, Event::Done];
    for (event, outcome) in [
        (Event::No, accept::Outcome::MergeFailed),
        (Event::Failed, accept::Outcome::MergeNotRun),
    ] {
        let mut events = start.to_vec();
        events.push(event);
        events.push(Event::Done);
        let (said, stage) = accepting(&job(true), &events);
        assert_eq!(stage, accept::Stage::Finished(outcome));
        assert!(said.iter().all(|s| !s.starts_with("rm")));
    }
}

#[test]
fn a_refusal_changes_nothing() {
    let asked = [Event::Yes, Event::Measured(SUMMARY), Event::Done];
    for (event, outcome) in [
        (Event::No, accept::Outcome::Aborted),
        (Event::Failed, accept::Outcome::NoAnswer),
    ] {
        let mut events = asked.to_vec();
        events.push(event);
        let (said, stage) = accepting(&job(false), &events);
        assert_eq!(stage, accept::Stage::Finished(outcome));
        assert!(said.iter().all(|s| !s.starts_with("run") && !s.starts_with("rm")));
    }
}

#[test]
fn accepting_can_fail_at_every_step() {
    let end = |job: &Job, events: &[Event]| accepting(job, events).1;
    let finished = accept::Stage::Finished;
    assert_eq!(
        end(&job(true), &[Event::No]),
        finished(accept::Outcome::SourceGone)
    );
    assert_eq!(
        end(&job(true), &[Event::Yes, Event::Failed]),
        finished(accept::Outcome::NotMeasured)
    );
    let shown = [Event::Yes, Event::Measured(SUMMARY), Event::Done];
    let with = |more: &[Event]| -> Vec<Event> { shown.iter().chain(more).copied().collect() };
    assert_eq!(
        end(&job(true), &with(&[Event::Failed])),
        finished(accept::Outcome::NotStopped)
    );
    assert_eq!(
        end(&job(true), &with(&[Event::Done, Event::Done, Event::Failed])),
        finished(accept::Outcome::NotRemoved)
    );
    let stray = plan(&config(), &path("/tmp/p-x"), &path("/p"), true);
    assert_eq!(
        end(&stray, &with(&[Event::Done, Event::Done])),
        finished(accept::Outcome::NotOwned)
    );
}

#[test]
fn how_accepting_ended_is_told() {
    let said = |outcome| accept::outcome_message(outcome, &path("/s/p-x"), &path("/p"));
    assert_eq!(
        said(accept::Outcome::SourceGone).unwrap(),
        "Source directory /p no longer exists. It may have been moved or deleted.\n\
         The shadow is still at /s/p-x — you can inspect it manually with `cc-sandbox path`."
    );
    assert_eq!(
        said(accept::Outcome::MergeFailed).unwrap(),
        "rsync failed. The shadow is preserved at /s/p-x — inspect and retry.\n\
         The source at /p may be partially updated."
    );
    assert_eq!(
        said(accept::Outcome::NotOwned).unwrap(),
        "BUG: shadow path /s/p-x is not under any known shadow root. Refusing to rm -rf."
    );
    assert_eq!(
        said(accept::Outcome::NotRemoved).unwrap(),
        "Failed to remove shadow directory /s/p-x"
    );
    assert_eq!(said(accept::Outcome::MergeNotRun).unwrap(), "Failed to execute rsync");
    assert_eq!(said(accept::Outcome::NoAnswer).unwrap(), "Failed to read from stdin");
    assert_eq!(said(accept::Outcome::Aborted).unwrap(), "Aborted.");
    assert_eq!(said(accept::Outcome::Accepted).unwrap(), "Accepted. Shadow removed.");
    assert_eq!(said(accept::Outcome::NotMeasured), None);
    assert_eq!(said(accept::Outcome::NotStopped), None);
    assert!(accept::succeeded(accept::Outcome::Accepted));
    assert!(accept::succeeded(accept::Outcome::Aborted));
    assert!(!accept::succeeded(accept::Outcome::MergeFailed));
}

#[test]
fn a_rejected_shadow_is_removed_and_the_source_only_read() {
    let (said, stage) = rejecting(
        &job(false),
        &[
            Event::Yes,
            Event::Measured(SUMMARY),
            Event::Done,
            Event::Yes,
            Event::Done,
            Event::Done,
            Event::Done,
            Event::Failed,
        ],
    );
    assert_eq!(
        said,
        [
            "is dir /data/a/b/p",
            "measure rsync -ain --delete --exclude=.cc-sandbox-meta.json \
             /data/.cc-sandbox/a/b/p-x/ /data/a/b/p/",
            "say Changes that will be discarded: 1 modified, 2 added, 3 deleted",
            "ask Discard 1 modified, 2 added, 3 deleted? This cannot be undone. [y/N]: ",
            "stop /data/.cc-sandbox/a/b/p-x",
            "rm -rf /data/.cc-sandbox/a/b/p-x",
            "rmdir /data/.cc-sandbox/a/b",
            "rmdir /data/.cc-sandbox/a",
        ]
    );
    assert_eq!(stage, reject::Stage::Finished(reject::Outcome::Rejected));
}

#[test]
fn without_a_source_the_files_are_counted() {
    let (said, stage) = rejecting(
        &job(false),
        &[Event::No, Event::Counted(12), Event::Done, Event::No],
    );
    assert_eq!(
        said,
        [
            "is dir /data/a/b/p",
            "count find /data/.cc-sandbox/a/b/p-x -type f",
            "say Source /data/a/b/p no longer exists. Shadow contains ~12 files.",
            "ask Discard this shadow? This cannot be undone. [y/N]: ",
        ]
    );
    assert_eq!(stage, reject::Stage::Finished(reject::Outcome::Aborted));
    let (_, skipped) = rejecting(&job(true), &[Event::No, Event::Counted(0), Event::Done]);
    assert_eq!(skipped, reject::Stage::Stopping);
    assert_eq!(count_files(b"/s/a\n/s/b\n"), 2);
    assert_eq!(count_files(b""), 0);
}

#[test]
fn rejecting_can_fail_at_every_step() {
    let end = |job: &Job, events: &[Event]| rejecting(job, events).1;
    let finished = reject::Stage::Finished;
    assert_eq!(
        end(&job(true), &[Event::Yes, Event::Failed]),
        finished(reject::Outcome::NotMeasured)
    );
    let shown = [Event::Yes, Event::Measured(SUMMARY), Event::Done];
    let with = |more: &[Event]| -> Vec<Event> { shown.iter().chain(more).copied().collect() };
    assert_eq!(
        end(&job(false), &with(&[Event::Failed])),
        finished(reject::Outcome::NoAnswer)
    );
    assert_eq!(
        end(&job(true), &with(&[Event::Failed])),
        finished(reject::Outcome::NotStopped)
    );
    assert_eq!(
        end(&job(true), &with(&[Event::Done, Event::Failed])),
        finished(reject::Outcome::NotRemoved)
    );
    let stray = plan(&config(), &path("/tmp/p-x"), &path("/p"), true);
    assert_eq!(
        end(&stray, &with(&[Event::Done])),
        finished(reject::Outcome::NotOwned)
    );
    let said = |outcome| reject::outcome_message(outcome, &path("/s/p"));
    assert_eq!(said(reject::Outcome::Rejected).unwrap(), "Rejected. Shadow removed.");
    assert_eq!(said(reject::Outcome::Aborted).unwrap(), "Aborted.");
    assert_eq!(said(reject::Outcome::NoAnswer).unwrap(), "Failed to read from stdin");
    assert_eq!(
        said(reject::Outcome::NotOwned).unwrap(),
        "BUG: shadow path /s/p is not under any known shadow root. Refusing to rm -rf."
    );
    assert_eq!(
        said(reject::Outcome::NotRemoved).unwrap(),
        "Failed to remove shadow directory /s/p"
    );
    assert_eq!(said(reject::Outcome::NotMeasured), None);
    assert_eq!(said(reject::Outcome::NotStopped), None);
    assert!(reject::succeeded(reject::Outcome::Aborted));
    assert!(!reject::succeeded(reject::Outcome::NotOwned));
}

#[test]
fn an_event_that_is_no_answer_changes_nothing() {
    let stage = accept::Stage::Merging;
    assert_eq!(accept::run(&job(true), stage, Event::Counted(3)), stage);
    let done = reject::Stage::Finished(reject::Outcome::Rejected);
    assert_eq!(reject::run(&job(true), done, Event::Done), done);
}

const NOW: Moment = Moment {
    secs: 1776180622,
    nanos: 0,
    offset_secs: 0,
};

fn errand(name: Option<&str>) -> start::Errand {
    let mut known = config();
    known.agent.command = vec!["agent".into(), "-x".into()];
    let mut errand = start::Errand::new(path("p"), name.map(|n| n.to_string()));
    errand.resolve(path("/data/p"));
    assert_eq!(
        errand.place_at(&known, &path("/data/s"), &path("/data"), NOW),
        Ok(())
    );
    errand
}

fn starting(events: &[Event]) -> (Vec<String>, start::Stage) {
    let mut errand = errand(Some("x"));
    let mut stage = start::Stage::Resolving;
    let mut said = Vec::new();
    for event in events {
        let action = start::action(stage, &errand);
        said.push(told(&action));
        if let (Action::Stamp, Event::Done) = (&action, event) {
            assert_eq!(errand.stamp(), Event::Done);
        }
        stage = start::run(&errand, stage, *event);
    }
    (said, stage)
}

#[test]
fn an_errand_runs_the_configured_agent_where_it_was_placed() {
    let mut errand = errand(None);
    let run = start::action(start::Stage::RunningAgent, &errand);
    assert_eq!(
        told(&run),
        "run devcontainer exec --workspace-folder /data/s/p-2026-04-14T15:30:22+00:00 -- agent -x"
    );
    assert!(matches!(
        start::action(start::Stage::Recording, &errand),
        Action::Nothing
    ));
    let created = Moment {
        secs: 9,
        nanos: 8,
        offset_secs: 7,
    };
    assert_eq!(errand.stamp_at(created, NOW), Event::Done);
    match start::action(start::Stage::Recording, &errand) {
        Action::Record(_, meta) => {
            assert_eq!(meta.created_at, created);
            assert_eq!(meta.source.display(), "/data/p");
            assert_eq!(meta.name_suffix, "2026-04-14T15:30:22+00:00");
        }
        other => panic!("{other:?}"),
    }
    let never = Moment {
        secs: LATEST,
        nanos: 0,
        offset_secs: 3600,
    };
    assert_eq!(errand.stamp_at(created, never), Event::Failed);
    assert_eq!(
        errand.place_at(&config(), &path("/s"), &path("/home"), NOW),
        Err(ShadowPathError::NotUnderMount)
    );
    // What has no place leaves the errand as it was.
    assert_eq!(told(&run), told(&start::action(start::Stage::RunningAgent, &errand)));
    assert_eq!(
        errand.place_at(&config(), &path("/s"), &path("/data"), never),
        Err(ShadowPathError::NoDate)
    );
}

#[test]
fn an_errand_is_placed_by_the_clock() {
    let mut errand = start::Errand::new(path("p"), Some("auth".to_string()));
    errand.resolve(path("/data/p"));
    assert_eq!(errand.place(&config(), &path("/data/s"), &path("/data")), Ok(()));
    assert_eq!(errand.stamp(), Event::Done);
    assert_eq!(
        told(&start::action(start::Stage::Recording, &errand)),
        "record /data/s/p-auth/.cc-sandbox-meta.json /data/p auth"
    );
    let mut unnamed = start::Errand::new(path("p"), None);
    unnamed.resolve(path("/data"));
    assert_eq!(
        unnamed.place(&config(), &path("/data/s"), &path("/data")),
        Err(ShadowPathError::FilesystemRoot)
    );
}

/// The path is resolved, the source checked without a warning, and the shadow placed.
const PLACED: [Event; 7] = [
    Event::Done,
    Event::Yes,
    Event::Yes,
    Event::No,
    Event::Done,
    Event::Done,
    Event::Done,
];

fn placed_and(more: &[Event]) -> Vec<Event> {
    PLACED.iter().chain(more).copied().collect()
}

#[test]
fn an_agent_is_started_in_a_copy() {
    let (said, stage) = starting(&placed_and(&[
        Event::Done,
        Event::No,
        Event::Done,
        Event::Done,
        Event::Done,
        Event::Done,
        Event::Done,
        Event::Done,
        Event::Done,
        Event::Done,
        Event::No,
    ]));
    assert_eq!(
        said,
        [
            "resolve p",
            "is dir /data/p",
            "has devcontainer /data/p",
            "prints git -C /data/p status --porcelain",
            "load config",
            "find root /data/p",
            "find place /data/p",
            "say Creating shadow at /data/s/p-x",
            "exists /data/s/p-x",
            "mkdir -p /data/s",
            "mkdir /data/s/p-x",
            "run cp --reflink=always -a /data/p/. /data/s/p-x",
            "stamp",
            "record /data/s/p-x/.cc-sandbox-meta.json /data/p x",
            "say Starting devcontainer...",
            "start /data/s/p-x devcontainer up --workspace-folder /data/s/p-x",
            "say Launching agent...",
            "run devcontainer exec --workspace-folder /data/s/p-x -- agent -x",
        ]
    );
    assert_eq!(stage, start::Stage::Finished(start::Outcome::AgentFailed));
}

#[test]
fn starting_can_fail_at_every_step() {
    let end = |events: &[Event]| starting(events).1;
    let finished = start::Stage::Finished;
    assert_eq!(end(&[Event::Failed]), finished(start::Outcome::NotResolved));
    assert_eq!(
        end(&[Event::Done, Event::No]),
        finished(start::Outcome::Refused(start::Verdict::NotADirectory))
    );
    assert_eq!(
        end(&[Event::Done, Event::Yes, Event::No]),
        finished(start::Outcome::Refused(start::Verdict::NoDevcontainer))
    );
    for (done, outcome) in [
        (4, start::Outcome::NotLoaded),
        (5, start::Outcome::NoRoot),
        (6, start::Outcome::NoPlace),
    ] {
        let mut events = PLACED[..done].to_vec();
        events.push(Event::Failed);
        assert_eq!(end(&events), finished(outcome));
    }
    let created = [Event::Done, Event::No, Event::Done, Event::Done, Event::Done];
    let with = |more: &[Event]| -> Vec<Event> {
        let all: Vec<Event> = created.iter().chain(more).copied().collect();
        placed_and(&all)
    };
    assert_eq!(end(&with(&[Event::Failed])), finished(start::Outcome::NotStamped));
    assert_eq!(
        end(&with(&[Event::Done, Event::Failed])),
        finished(start::Outcome::NotRecorded)
    );
    assert_eq!(
        end(&with(&[Event::Done, Event::Done, Event::Done, Event::No])),
        finished(start::Outcome::ContainerFailed)
    );
    assert_eq!(
        end(&with(&[Event::Done, Event::Done, Event::Done, Event::Failed])),
        finished(start::Outcome::ContainerNotRun)
    );
    let with_agent = |last: Event| {
        let mut events = with(&[Event::Done; 5]);
        events.push(last);
        end(&events)
    };
    assert_eq!(with_agent(Event::Done), finished(start::Outcome::AgentDone));
    assert_eq!(with_agent(Event::Failed), finished(start::Outcome::AgentNotRun));
    assert_eq!(
        end(&placed_and(&[Event::Done, Event::Yes])),
        finished(start::Outcome::NotCreated(CreateOutcome::AlreadyExists))
    );
}

#[test]
fn a_refused_source_leaves_all_as_it_was() {
    for events in [
        vec![Event::Failed],
        vec![Event::Done, Event::No],
        vec![Event::Done, Event::Yes, Event::No],
    ] {
        let (mut said, stage) = starting(&events);
        said.push(told(&start::action(stage, &errand(Some("x")))));
        assert_eq!(said.pop().unwrap(), "nothing");
        assert!(said
            .iter()
            .all(|s| s.starts_with("resolve") || s.starts_with("is dir") || s.starts_with("has dev")));
        match stage {
            start::Stage::Finished(outcome) => assert!(!start::succeeded(outcome)),
            other => panic!("{other:?}"),
        }
    }
}

#[test]
fn how_starting_ended_is_told() {
    let said = |outcome| start::outcome_message(outcome, &errand(Some("x")), "exit status: 1");
    assert_eq!(
        said(start::Outcome::AgentFailed).unwrap(),
        "Agent exited with status exit status: 1. The shadow is still available at /data/s/p-x"
    );
    assert_eq!(said(start::Outcome::NotResolved).unwrap(), "Failed to resolve path p");
    assert_eq!(
        said(start::Outcome::Refused(start::Verdict::NotADirectory)).unwrap(),
        "/data/p is not a directory."
    );
    assert_eq!(
        said(start::Outcome::NotCreated(CreateOutcome::CopyNotRun)).unwrap(),
        "Failed to execute cp"
    );
    assert_eq!(
        said(start::Outcome::ContainerNotRun).unwrap(),
        "Failed to execute devcontainer up"
    );
    assert_eq!(
        said(start::Outcome::AgentNotRun).unwrap(),
        "Failed to execute devcontainer exec"
    );
    assert_eq!(
        said(start::Outcome::NotStamped).unwrap(),
        "The clock shows a time without a date"
    );
    for silent in [
        start::Outcome::AgentDone,
        start::Outcome::NotLoaded,
        start::Outcome::NoRoot,
        start::Outcome::NoPlace,
        start::Outcome::NotRecorded,
        start::Outcome::ContainerFailed,
    ] {
        assert_eq!(said(silent), None);
    }
    assert!(start::succeeded(start::Outcome::AgentDone));
    assert!(start::succeeded(start::Outcome::AgentFailed));
    assert!(!start::succeeded(start::Outcome::NotRecorded));
}

#[test]
fn a_failed_copy_is_cleaned_up() {
    for (event, outcome) in [
        (Event::No, CreateOutcome::CopyFailed),
        (Event::Failed, CreateOutcome::CopyNotRun),
    ] {
        let (said, stage) = starting(&placed_and(&[
            Event::Done,
            Event::No,
            Event::Done,
            Event::Done,
            event,
            Event::Done,
        ]));
        assert_eq!(said.last().unwrap(), "discard /data/s/p-x");
        assert_eq!(
            stage,
            start::Stage::Finished(start::Outcome::NotCreated(outcome))
        );
    }
}

#[test]
fn how_making_a_shadow_ended_is_told() {
    let mut stage = CreateStage::Probing;
    stage = create::create_shadow(false, stage, Event::No);
    assert_eq!(stage, CreateStage::CreatingDirectory);
    assert_eq!(
        create::create_shadow(false, stage, Event::Failed),
        CreateStage::Finished(CreateOutcome::NoDirectory)
    );
    assert_eq!(
        create::create_shadow(true, CreateStage::CreatingParents, Event::Failed),
        CreateStage::Finished(CreateOutcome::NoParents)
    );
    let said = |outcome| create::outcome_message(outcome, &path("/p"), &path("/s/p-x"));
    assert_eq!(said(CreateOutcome::Created), None);
    assert_eq!(
        said(CreateOutcome::AlreadyExists).unwrap(),
        "Shadow path already exists: /s/p-x. Use a different --name or wait a minute for the \
         timestamp to change."
    );
    assert_eq!(
        said(CreateOutcome::NoParents).unwrap(),
        "Failed to create shadow parent directory /s"
    );
    assert_eq!(
        said(CreateOutcome::NoDirectory).unwrap(),
        "Failed to create shadow directory /s/p-x"
    );
    assert_eq!(
        said(CreateOutcome::CopyFailed).unwrap(),
        "cp --reflink=always failed for /p. The source directory appears to be on a \
         filesystem that does not support reflink copies. Move the project to a Btrfs, \
         XFS-with-reflink, or ZFS 2.2+ volume."
    );
    assert_eq!(said(CreateOutcome::CopyNotRun).unwrap(), "Failed to execute cp");
}

#[test]
fn a_source_is_checked_before_anything_is_made() {
    let source = path("/data/p");
    let checked = |events: &[Event]| {
        let mut stage = start::CheckStage::Directory;
        let mut said = Vec::new();
        for event in events {
            said.push(told(&start::check_action(stage, &source)));
            stage = start::check(stage, *event);
        }
        (said, stage)
    };
    let (said, stage) = checked(&[Event::Yes, Event::Yes, Event::Yes, Event::Done]);
    assert_eq!(
        said,
        [
            "is dir /data/p",
            "has devcontainer /data/p",
            "prints git -C /data/p status --porcelain",
            "say Warning: /data/p has uncommitted changes. The shadow will include them.",
        ]
    );
    let finished = start::CheckStage::Finished;
    assert_eq!(stage, finished(start::Verdict::Ready));
    assert_eq!(
        checked(&[Event::Yes, Event::Yes, Event::No]).1,
        finished(start::Verdict::Ready)
    );
    assert_eq!(checked(&[Event::No]).1, finished(start::Verdict::NotADirectory));
    assert_eq!(
        checked(&[Event::Yes, Event::No]).1,
        finished(start::Verdict::NoDevcontainer)
    );
    assert_eq!(start::verdict_message(start::Verdict::Ready, &source), None);
    assert_eq!(
        start::verdict_message(start::Verdict::NotADirectory, &source).unwrap(),
        "/data/p is not a directory."
    );
    assert_eq!(
        start::verdict_message(start::Verdict::NoDevcontainer, &source).unwrap(),
        "No devcontainer configuration found in /data/p.\n\
         cc-sandbox requires a .devcontainer/devcontainer.json or .devcontainer.json.\n\
         Create one before using cc-sandbox, or use a different tool."
    );
    assert!(start::check_git_dirty(true, b" M file\n"));
    assert!(!start::check_git_dirty(true, b" \n"));
    assert!(!start::check_git_dirty(false, b" M file\n"));
}

#[test]
fn a_shell_is_opened_in_a_started_container() {
    let shadow = path("/s/p");
    let config = config();
    let mut stage = shell::Stage::Announcing;
    let mut said = Vec::new();
    for event in [Event::Done, Event::Done, Event::No] {
        said.push(told(&shell::action(stage, &shadow, &config)));
        stage = shell::run(stage, event);
    }
    assert_eq!(
        said,
        [
            "say Starting devcontainer...",
            "start /s/p devcontainer up --workspace-folder /s/p",
            "run devcontainer exec --workspace-folder /s/p -- bash",
        ]
    );
    assert_eq!(stage, shell::Stage::Finished(shell::Outcome::ShellDone));
    let up = shell::Stage::StartingContainer;
    assert_eq!(
        shell::run(up, Event::No),
        shell::Stage::Finished(shell::Outcome::ContainerFailed)
    );
    assert_eq!(
        shell::run(up, Event::Failed),
        shell::Stage::Finished(shell::Outcome::ContainerNotRun)
    );
    assert_eq!(
        shell::run(shell::Stage::RunningShell, Event::Failed),
        shell::Stage::Finished(shell::Outcome::ShellNotRun)
    );
    assert!(shell::succeeded(shell::Outcome::ShellDone));
    assert!(!shell::succeeded(shell::Outcome::ContainerFailed));
    assert_eq!(shell::outcome_message(shell::Outcome::ShellDone), None);
    assert_eq!(shell::outcome_message(shell::Outcome::ContainerFailed), None);
    assert_eq!(
        shell::outcome_message(shell::Outcome::ContainerNotRun).unwrap(),
        "Failed to execute devcontainer up"
    );
    assert_eq!(
        shell::outcome_message(shell::Outcome::ShellNotRun).unwrap(),
        "Failed to execute devcontainer exec"
    );
}

/// A shadow that was made so many seconds ago.
fn listed(place: &str, ago: i64, state: &[u8]) -> list::Listed {
    let shadow = Found {
        place: path(place),
        meta: ShadowMeta {
            source: path("/data/myproject"),
            created_at: Moment {
                secs: NOW.secs - ago,
                ..NOW
            },
            name_suffix: "x".to_string(),
        },
    };
    list::Listed::at(shadow, NOW, state)
}

#[test]
fn shadows_are_listed_in_columns() {
    let listings = vec![
        vec![],
        vec![
            listed("/data/.cc-sandbox/my-auth", 7300, b"running\n"),
            listed("/data/.cc-sandbox/x/p-1", 10 * 86400, b"\n"),
            listed("/elsewhere/é", 7 * 3600, b"exited\n"),
        ],
        vec![listed("/data/.cc-sandbox/a/q", 1, b"")],
    ];
    let rows = list::rows(&config(), &listings);
    let names: Vec<&str> = rows.iter().map(|r| r.name.as_str()).collect();
    assert_eq!(names, ["my-auth", "x/p-1", "/elsewhere/é", "q"]);
    assert!(path("/data/.cc-sandbox").join_name(&rows[1].name).same(&path("/data/.cc-sandbox/x/p-1")));
    assert_eq!(
        list::run(&config(), &listings).unwrap(),
        [
            "NAME          SOURCE              AGE CONTAINER",
            "my-auth       /data/myproject  2h ago running  ",
            "x/p-1         /data/myproject 10d ago gone     ",
            "/elsewhere/é  /data/myproject  7h ago stopped  ",
            "q             /data/myproject  1s ago gone     ",
        ]
    );
    assert!(list::run(&config(), &vec![vec![], vec![], vec![]]).is_none());
    assert!(list::run(&config(), &vec![]).is_none());
    assert_eq!(list::nothing_found(), "No shadows found.");
}

#[test]
fn a_shadow_is_listed_by_the_clock() {
    let made = chrono::Local::now().timestamp() - 7300;
    let shadow = Found {
        place: path("/a/s/p"),
        meta: ShadowMeta {
            source: path("/p"),
            created_at: Moment { secs: made, ..NOW },
            name_suffix: "x".to_string(),
        },
    };
    let listings = vec![vec![list::Listed::new(shadow, b"running\n")]];
    let rows = list::rows(&config(), &listings);
    assert_eq!(rows.len(), 1);
    assert_eq!(rows[0].name, "p");
    assert_eq!(rows[0].age, "2h ago");
    assert_eq!(rows[0].status, "running");
}

#[test]
fn columns_are_as_wide_as_their_titles_or_their_longest_bytes() {
    let rows = vec![list::Row {
        name: "ééééé".to_string(),
        source: "s".to_string(),
        age: "1s".to_string(),
        status: "gone".to_string(),
    }];
    assert_eq!(
        list::render(&rows).unwrap(),
        [
            "NAME       SOURCE AGE CONTAINER",
            "ééééé      s       1s gone     ",
        ]
    );
}
