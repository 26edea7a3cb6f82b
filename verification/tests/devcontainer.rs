use cc_sandbox::devcontainer::{
    container_id_query, container_removal, container_state_query, devcontainer_exec,
    devcontainer_up, find_container_id, get_container_status, removal_failed,
    stop_and_remove_container, up_failure, ContainerStatus,
};
use cc_sandbox::path::FsPath;
use cc_sandbox::tool::Invocation;

fn path(name: &str) -> FsPath {
    FsPath::from_text(name)
}

fn line(run: &Invocation) -> String {
    format!("{} {}", run.program, run.args.join("|"))
}

#[test]
fn the_container_is_run_on_the_workspace() {
    assert_eq!(
        line(&devcontainer_up(&path("/s/a b"))),
        "devcontainer up|--workspace-folder|/s/a b"
    );
    let command: Vec<String> = vec!["agent".into(), "-x".into()];
    assert_eq!(
        line(&devcontainer_exec(&path("/s/a"), &command)),
        "devcontainer exec|--workspace-folder|/s/a|--|agent|-x"
    );
}

#[test]
fn the_container_is_found_by_its_label() {
    assert_eq!(
        line(&container_id_query(&path("/s/a"))),
        "docker ps|-aq|--filter|label=devcontainer.local_folder=/s/a"
    );
    assert_eq!(
        line(&container_state_query(&path("/s/a"))),
        "docker ps|-a|--filter|label=devcontainer.local_folder=/s/a|--format|{{.State}}"
    );
    assert_eq!(find_container_id(b"4f5e\n"), Some("4f5e".to_string()));
    assert_eq!(find_container_id(b" \n"), None);
}

#[test]
fn a_container_is_removed_and_a_missing_one_tolerated() {
    assert_eq!(
        line(&stop_and_remove_container(b"4f5e\n").unwrap()),
        "docker rm|-f|4f5e"
    );
    assert!(stop_and_remove_container(b"\n").is_none());
    assert_eq!(line(&container_removal("x")), "docker rm|-f|x");
    assert!(!removal_failed(true, b"whatever"));
    assert!(!removal_failed(false, b"Error: No such container: 4f5e\n"));
    assert!(removal_failed(false, b"permission denied"));
}

#[test]
fn the_state_of_a_container_is_told() {
    assert_eq!(get_container_status(b"running\n"), ContainerStatus::Running);
    assert_eq!(get_container_status(b"exited\n"), ContainerStatus::Stopped);
    assert_eq!(
        get_container_status(b"running\nrunning\n"),
        ContainerStatus::Stopped
    );
    assert_eq!(get_container_status(b"\n"), ContainerStatus::Gone);
    assert_eq!(get_container_status(b""), ContainerStatus::Gone);
    assert_eq!(ContainerStatus::Running.to_text(), "running");
    assert_eq!(ContainerStatus::Stopped.to_text(), "stopped");
    assert_eq!(ContainerStatus::Gone.to_text(), "gone");
}

#[test]
fn a_container_that_does_not_start_is_told_with_its_output() {
    assert_eq!(
        up_failure(&path("/s/a"), b"out \xff", b"err"),
        "devcontainer up failed for /s/a.\nstdout: out \u{fffd}\nstderr: err"
    );
}
