//! Containers: the invocations of `devcontainer` and `docker`, and what their output says.
use crate::path::FsPath;
use crate::sequences::occurs;
use crate::text::{contains_text, same_text, shown, text_lossy, trim, trimmed};
use crate::tool::Invocation;
use vstd::prelude::*;

verus! {

/// What a workspace's container is doing.
#[derive(Clone, Copy, Debug, PartialEq, Eq, Structural)]
pub enum ContainerStatus {
    Running,
    Stopped,
    Gone,
}

impl ContainerStatus {
    /// The word for the status.
    pub open spec fn word(self) -> Seq<char> {
        match self {
            ContainerStatus::Running => "running"@,
            ContainerStatus::Stopped => "stopped"@,
            ContainerStatus::Gone => "gone"@,
        }
    }

    /// The word for the status.
    pub fn to_text(&self) -> (res: String)
        ensures
            res@ == self.word(),
    {
        match self {
            ContainerStatus::Running => "running".to_owned(),
            ContainerStatus::Stopped => "stopped".to_owned(),
            ContainerStatus::Gone => "gone".to_owned(),
        }
    }
}

/// Starting the container of a workspace.
pub open spec fn starting(workspace: Seq<u8>) -> (Seq<char>, Seq<Seq<char>>) {
    ("devcontainer"@, seq!["up"@, "--workspace-folder"@, shown(workspace)])
}

/// Starting the container of a workspace.
pub fn devcontainer_up(workspace: &FsPath) -> (res: Invocation)
    ensures
        res@ == starting(workspace@),
{
    Invocation::new("devcontainer").arg("up").arg("--workspace-folder").arg(
        workspace.display().as_str(),
    )
}

/// What is said where the container does not start.
pub fn up_failure(workspace: &FsPath, stdout: &[u8], stderr: &[u8]) -> (res: String)
    ensures
        res@ == "devcontainer up failed for "@ + shown(workspace@) + ".\nstdout: "@ + shown(stdout@)
            + "\nstderr: "@ + shown(stderr@),
{
    let mut out = "devcontainer up failed for ".to_owned();
    out.append(workspace.display().as_str());
    out.append(".\nstdout: ");
    out.append(text_lossy(stdout).as_str());
    out.append("\nstderr: ");
    out.append(text_lossy(stderr).as_str());
    out
}

/// Running a command in the container of a workspace.
pub open spec fn running(workspace: Seq<u8>, command: Seq<Seq<char>>) -> (
    Seq<char>,
    Seq<Seq<char>>,
) {
    (
        "devcontainer"@,
        seq!["exec"@, "--workspace-folder"@, shown(workspace), "--"@] + command,
    )
}

/// Running a command in the container of a workspace.
pub fn devcontainer_exec(workspace: &FsPath, command: &Vec<String>) -> (res: Invocation)
    ensures
        res@ == running(workspace@, command.deep_view()),
{
    Invocation::new("devcontainer").arg("exec").arg("--workspace-folder").arg(
        workspace.display().as_str(),
    ).arg("--").args(command)
}

/// The label by which the container of a workspace is found.
pub open spec fn label(workspace: Seq<u8>) -> Seq<char> {
    "label=devcontainer.local_folder="@ + shown(workspace)
}

fn label_text(workspace: &FsPath) -> (res: String)
    ensures
        res@ == label(workspace@),
{
    "label=devcontainer.local_folder=".to_owned().concat(workspace.display().as_str())
}

/// Asking for the identifier of a workspace's container.
pub fn container_id_query(workspace: &FsPath) -> (res: Invocation)
    ensures
        res@ == ("docker"@, seq!["ps"@, "-aq"@, "--filter"@, label(workspace@)]),
{
    Invocation::new("docker").arg("ps").arg("-aq").arg("--filter").arg(
        label_text(workspace).as_str(),
    )
}

/// The container's identifier in the answer, where there is a container.
pub fn find_container_id(stdout: &[u8]) -> (res: Option<String>)
    ensures
        match res {
            Some(id) => trimmed(shown(stdout@)).len() > 0 && id@ == trimmed(shown(stdout@)),
            None => trimmed(shown(stdout@)).len() == 0,
        },
{
    let id = trim(text_lossy(stdout).as_str());
    if id.as_str().is_empty() {
        None
    } else {
        Some(id)
    }
}

/// Stopping and removing a container.
pub fn container_removal(id: &str) -> (res: Invocation)
    ensures
        res@ == ("docker"@, seq!["rm"@, "-f"@, id@]),
{
    Invocation::new("docker").arg("rm").arg("-f").arg(id)
}

/// Stopping and removing the container that the answer names; a container that is missing needs no
/// stopping.
pub fn stop_and_remove_container(stdout: &[u8]) -> (res: Option<Invocation>)
    ensures
        match res {
            Some(removal) => trimmed(shown(stdout@)).len() > 0 && removal@ == (
                "docker"@,
                seq!["rm"@, "-f"@, trimmed(shown(stdout@))],
            ),
            None => trimmed(shown(stdout@)).len() == 0,
        },
{
    match find_container_id(stdout) {
        Some(id) => Some(container_removal(id.as_str())),
        None => None,
    }
}

/// Whether a removal failed in a way worth a warning: not where it succeeded, and not where the
/// container had vanished before it could be removed.
pub fn removal_failed(success: bool, stderr: &[u8]) -> (res: bool)
    ensures
        res == (!success && !occurs("No such container"@, shown(stderr@))),
{
    !success && !contains_text(text_lossy(stderr).as_str(), "No such container")
}

/// Asking for the state of a workspace's container.
pub fn container_state_query(workspace: &FsPath) -> (res: Invocation)
    ensures
        res@ == (
            "docker"@,
            seq!["ps"@, "-a"@, "--filter"@, label(workspace@), "--format"@, "{{.State}}"@],
        ),
{
    Invocation::new("docker").arg("ps").arg("-a").arg("--filter").arg(
        label_text(workspace).as_str(),
    ).arg("--format").arg("{{.State}}")
}

/// The status that a state, as `docker ps` prints it, comes to.
pub open spec fn status_of(state: Seq<char>) -> ContainerStatus {
    if state.len() == 0 {
        ContainerStatus::Gone
    } else if state == "running"@ {
        ContainerStatus::Running
    } else {
        ContainerStatus::Stopped
    }
}

/// The status that the answer gives.
pub fn get_container_status(stdout: &[u8]) -> (res: ContainerStatus)
    ensures
        res == status_of(trimmed(shown(stdout@))),
{
    let state = trim(text_lossy(stdout).as_str());
    if state.as_str().is_empty() {
        ContainerStatus::Gone
    } else if same_text(state.as_str(), "running") {
        ContainerStatus::Running
    } else {
        ContainerStatus::Stopped
    }
}

/// A container is started for its workspace, and a command is run in it as it is given, behind two
/// dashes.
pub proof fn commands_run_as_given(workspace: Seq<u8>, command: Seq<Seq<char>>)
    ensures
        starting(workspace).0 == "devcontainer"@,
        starting(workspace).1 == seq!["up"@, "--workspace-folder"@, shown(workspace)],
        running(workspace, command).0 == "devcontainer"@,
        running(workspace, command).1.len() == command.len() + 4,
        running(workspace, command).1.take(4) == seq![
            "exec"@,
            "--workspace-folder"@,
            shown(workspace),
            "--"@,
        ],
        running(workspace, command).1.skip(4) == command,
{
    assert(running(workspace, command).1.take(4) =~= seq![
        "exec"@,
        "--workspace-folder"@,
        shown(workspace),
        "--"@,
    ]);
    assert(running(workspace, command).1.skip(4) =~= command);
}

/// The container of a workspace is asked for by the label that names the workspace, whether it runs or
/// not; what is removed is what the answer named, without the blanks around it, and nothing where the
/// answer was blank.
pub proof fn container_is_found_by_its_label(
    workspace: &FsPath,
    id: Invocation,
    state: Invocation,
    stdout: &[u8],
    removal: Option<Invocation>,
)
    requires
        call_ensures(container_id_query, (workspace,), id),
        call_ensures(container_state_query, (workspace,), state),
        call_ensures(stop_and_remove_container, (stdout,), removal),
    ensures
        label(workspace@) == "label=devcontainer.local_folder="@ + shown(workspace@),
        id@.0 == "docker"@,
        id@.1 == seq![
            "ps"@,
            "-aq"@,
            "--filter"@,
            "label=devcontainer.local_folder="@ + shown(workspace@),
        ],
        state@.0 == "docker"@,
        state@.1 == seq![
            "ps"@,
            "-a"@,
            "--filter"@,
            "label=devcontainer.local_folder="@ + shown(workspace@),
            "--format"@,
            "{{.State}}"@,
        ],
        removal is None <==> trimmed(shown(stdout@)).len() == 0,
        removal matches Some(run) ==> run@.0 == "docker"@ && run@.1 == seq![
            "rm"@,
            "-f"@,
            trimmed(shown(stdout@)),
        ],
{
}

/// A container is gone where the answer says nothing, runs where it says `running`, and is stopped in
/// any other state.
pub proof fn status_goes_by_the_answer(state: Seq<char>)
    ensures
        status_of(state) == ContainerStatus::Gone <==> state.len() == 0,
        status_of(state) == ContainerStatus::Running <==> state == "running"@,
        status_of(state) == ContainerStatus::Stopped <==> state.len() > 0 && state != "running"@,
        ContainerStatus::Running.word() == "running"@,
        ContainerStatus::Stopped.word() == "stopped"@,
        ContainerStatus::Gone.word() == "gone"@,
{
    reveal_strlit("running");
}

/// A removal that failed is told of, unless the container had vanished; what is said of a container
/// that does not start names its workspace and all that was printed.
pub proof fn failures_are_told(
    workspace: &FsPath,
    success: bool,
    stdout: &[u8],
    stderr: &[u8],
    failed: bool,
    message: String,
)
    requires
        call_ensures(removal_failed, (success, stderr), failed),
        call_ensures(up_failure, (workspace, stdout, stderr), message),
    ensures
        success ==> !failed,
        !success ==> (failed <==> !occurs("No such container"@, shown(stderr@))),
        message@ == "devcontainer up failed for "@ + shown(workspace@) + ".\nstdout: "@ + shown(
            stdout@,
        ) + "\nstderr: "@ + shown(stderr@),
{
}

} // verus!
