//! The configuration: where shadows live on each filesystem, and what runs in a sandbox.
use crate::path::{joined, FsPath};
use vstd::prelude::*;
use vstd::utf8::encode_utf8;

verus! {

/// The name of the file that marks a directory as a shadow.
pub open spec fn meta_name() -> Seq<char> {
    ".cc-sandbox-meta.json"@
}

/// The name of the file that marks a directory as a shadow.
pub fn meta_filename() -> (res: &'static str)
    ensures
        res@ == meta_name(),
{
    ".cc-sandbox-meta.json"
}

/// What is known of all filesystems and commands.
#[derive(Debug)]
pub struct Config {
    pub filesystem: Vec<FilesystemEntry>,
    pub agent: AgentConfig,
    pub shell: ShellConfig,
}

/// Where the shadows of one filesystem live, and the device that was mounted there.
#[derive(Debug)]
pub struct FilesystemEntry {
    pub mount_point: FsPath,
    pub device_id: u64,
    pub shadow_root: FsPath,
}

/// The command that is run in a new sandbox.
#[derive(Debug)]
pub struct AgentConfig {
    pub command: Vec<String>,
}

/// The command that opens a shell in a sandbox.
#[derive(Debug)]
pub struct ShellConfig {
    pub command: Vec<String>,
}

/// The contents of a [`FilesystemEntry`].
pub struct EntryView {
    pub mount_point: Seq<u8>,
    pub device_id: u64,
    pub shadow_root: Seq<u8>,
}

impl View for FilesystemEntry {
    type V = EntryView;

    open spec fn view(&self) -> EntryView {
        EntryView {
            mount_point: self.mount_point@,
            device_id: self.device_id,
            shadow_root: self.shadow_root@,
        }
    }
}

impl DeepView for FilesystemEntry {
    type V = EntryView;

    open spec fn deep_view(&self) -> EntryView {
        self@
    }
}

impl Config {
    /// The filesystems, in the order in which they were added.
    pub open spec fn entries(&self) -> Seq<EntryView> {
        self.filesystem.deep_view()
    }
}

impl Clone for FilesystemEntry {
    fn clone(&self) -> (res: Self)
        ensures
            res@ == self@,
    {
        FilesystemEntry {
            mount_point: self.mount_point.clone(),
            device_id: self.device_id,
            shadow_root: self.shadow_root.clone(),
        }
    }
}

/// The command that runs this agent, which asks for no permission in a sandbox.
pub open spec fn agent_command(program: Seq<char>) -> Seq<Seq<char>> {
    seq![program, "--dangerously-skip-permissions"@]
}

impl AgentConfig {
    /// The configuration that runs this agent.
    pub fn for_program(program: &str) -> (res: AgentConfig)
        ensures
            res.command.deep_view() == agent_command(program@),
    {
        let mut command: Vec<String> = Vec::new();
        command.push(program.to_owned());
        command.push("--dangerously-skip-permissions".to_owned());
        assert(command.deep_view() =~= agent_command(program@));
        AgentConfig { command }
    }
}

impl Default for ShellConfig {
    fn default() -> (res: Self)
        ensures
            res.command.deep_view() == seq!["bash"@],
    {
        let mut command: Vec<String> = Vec::new();
        command.push("bash".to_owned());
        assert(command.deep_view() =~= seq!["bash"@]);
        ShellConfig { command }
    }
}

impl Config {
    /// The configuration before anything is known of a filesystem, with this agent.
    pub fn for_agent(program: &str) -> (res: Config)
        ensures
            res.entries() == Seq::<EntryView>::empty(),
            res.agent.command.deep_view() == agent_command(program@),
            res.shell.command.deep_view() == seq!["bash"@],
    {
        let filesystem: Vec<FilesystemEntry> = Vec::new();
        assert(filesystem.deep_view() =~= Seq::<EntryView>::empty());
        Config {
            filesystem,
            agent: AgentConfig::for_program(program),
            shell: ShellConfig::default(),
        }
    }
}

/// Where the configuration is kept, given `$XDG_CONFIG_HOME` and `$HOME` as far as they are set.
pub open spec fn config_location(xdg: Option<Seq<char>>, home: Option<Seq<char>>) -> Seq<u8> {
    match (xdg, home) {
        (Some(dir), _) => in_dir(in_dir(encode_utf8(dir), "cc-sandbox"@), "config.toml"@),
        (None, Some(dir)) => in_dir(
            in_dir(in_dir(encode_utf8(dir), ".config"@), "cc-sandbox"@),
            "config.toml"@,
        ),
        (None, None) => encode_utf8("/tmp/cc-sandbox/config.toml"@),
    }
}

/// The path of `name` within `dir`.
pub open spec fn in_dir(dir: Seq<u8>, name: Seq<char>) -> Seq<u8> {
    joined(dir, encode_utf8(name))
}

/// The path of the configuration file, given `$XDG_CONFIG_HOME` and `$HOME` as far as they are
/// set.
pub fn config_path(xdg: Option<&str>, home: Option<&str>) -> (res: FsPath)
    ensures
        res@ == config_location(
            match xdg {
                Some(dir) => Some(dir@),
                None => None,
            },
            match home {
                Some(dir) => Some(dir@),
                None => None,
            },
        ),
{
    match (xdg, home) {
        (Some(dir), _) => FsPath::from_text(dir).join_name("cc-sandbox").join_name("config.toml"),
        (None, Some(dir)) => FsPath::from_text(dir).join_name(".config").join_name(
            "cc-sandbox",
        ).join_name("config.toml"),
        (None, None) => FsPath::from_text("/tmp/cc-sandbox/config.toml"),
    }
}

/// The file that the configuration is written to before it takes the place of `path`.
pub open spec fn temporary_name(path: Seq<u8>) -> Seq<u8> {
    path + encode_utf8(".tmp"@)
}

/// The file that the configuration is written to before it takes the place of `path`.
pub fn temporary_path(path: &FsPath) -> (res: FsPath)
    ensures
        res@ == temporary_name(path@),
{
    let mut bytes = path.clone().bytes;
    let mut rest = FsPath::from_text(".tmp").bytes;
    bytes.append(&mut rest);
    FsPath { bytes }
}

/// The files either of which makes `dir` a devcontainer project.
pub open spec fn devcontainer_locations(dir: Seq<u8>) -> Seq<Seq<u8>> {
    seq![
        in_dir(in_dir(dir, ".devcontainer"@), "devcontainer.json"@),
        in_dir(dir, ".devcontainer.json"@),
    ]
}

/// The files either of which makes `path` a devcontainer project.
pub fn devcontainer_files(path: &FsPath) -> (res: Vec<FsPath>)
    ensures
        res.deep_view() == devcontainer_locations(path@),
{
    let mut res: Vec<FsPath> = Vec::new();
    res.push(path.join_name(".devcontainer").join_name("devcontainer.json"));
    res.push(path.join_name(".devcontainer.json"));
    assert(res.deep_view() =~= devcontainer_locations(path@));
    res
}

/// Whether one of the files that exist makes `dir` a devcontainer project.
pub open spec fn is_project(dir: Seq<u8>, existing: Seq<Seq<u8>>) -> bool {
    exists|i: int|
        0 <= i < existing.len() && devcontainer_locations(dir).contains(#[trigger] existing[i])
}

/// Whether a directory contains a devcontainer configuration, given the files that exist.
pub fn has_devcontainer(path: &FsPath, existing: &Vec<FsPath>) -> (res: bool)
    ensures
        res == exists|i: int|
            0 <= i < existing@.len() && devcontainer_locations(path@).contains(
                #[trigger] existing@[i]@,
            ),
        res == is_project(path@, existing.deep_view()),
{
    assert(existing.deep_view().len() == existing@.len());
    let files = devcontainer_files(path);
    let mut i: usize = 0;
    while i < existing.len()
        invariant
            files.deep_view() == devcontainer_locations(path@),
            i <= existing@.len(),
            existing.deep_view().len() == existing@.len(),
            forall|j: int|
                0 <= j < i ==> !devcontainer_locations(path@).contains(#[trigger] existing@[j]@),
        decreases existing@.len() - i,
    {
        assert(files.deep_view().len() == files@.len());
        assert(files.deep_view()[0] == files@[0]@ && files.deep_view()[1] == files@[1]@);
        if existing[i].same_name(&files[0]) || existing[i].same_name(&files[1]) {
            assert(devcontainer_locations(path@).contains(existing@[i as int]@));
            assert(existing.deep_view()[i as int] == existing@[i as int]@);
            return true;
        }
        i = i + 1;
    }
    assert forall|j: int| 0 <= j < existing@.len() implies !devcontainer_locations(path@).contains(
        #[trigger] existing.deep_view()[j],
    ) by {
        assert(existing.deep_view()[j] == existing@[j]@);
    }
    false
}

/// The configuration is `cc-sandbox/config.toml` within `$XDG_CONFIG_HOME`, whatever `$HOME` is; else
/// it is so within `.config` in `$HOME`; else it is within `/tmp`.
pub proof fn configuration_is_kept_in_one_place(
    dir: Seq<char>,
    home: Option<Seq<char>>,
    path: Seq<u8>,
    name: Seq<char>,
)
    ensures
        config_location(Some(dir), home) == joined(
            joined(encode_utf8(dir), encode_utf8("cc-sandbox"@)),
            encode_utf8("config.toml"@),
        ),
        config_location(None, Some(dir)) == joined(
            joined(
                joined(encode_utf8(dir), encode_utf8(".config"@)),
                encode_utf8("cc-sandbox"@),
            ),
            encode_utf8("config.toml"@),
        ),
        config_location(None, None) == encode_utf8("/tmp/cc-sandbox/config.toml"@),
        in_dir(path, name) == joined(path, encode_utf8(name)),
        temporary_name(path) == path + encode_utf8(".tmp"@),
{
}

/// A project with a container has one of two files: `devcontainer.json` within `.devcontainer`, or
/// `.devcontainer.json`.
pub proof fn container_files_have_two_places(dir: Seq<u8>, file: Seq<u8>)
    ensures
        devcontainer_locations(dir).contains(file) <==> file == joined(
            joined(dir, encode_utf8(".devcontainer"@)),
            encode_utf8("devcontainer.json"@),
        ) || file == joined(dir, encode_utf8(".devcontainer.json"@)),
        devcontainer_locations(dir).len() == 2,
        devcontainer_locations(dir)[1] == joined(dir, encode_utf8(".devcontainer.json"@)),
{
    assert(devcontainer_locations(dir)[0] == joined(
        joined(dir, encode_utf8(".devcontainer"@)),
        encode_utf8("devcontainer.json"@),
    ));
}

/// A project has a container exactly where one of the two files exists.
pub proof fn either_file_makes_a_project(dir: Seq<u8>, existing: Seq<Seq<u8>>)
    ensures
        is_project(dir, existing) <==> existing.contains(
            joined(joined(dir, encode_utf8(".devcontainer"@)), encode_utf8("devcontainer.json"@)),
        ) || existing.contains(joined(dir, encode_utf8(".devcontainer.json"@))),
{
    let inner = joined(
        joined(dir, encode_utf8(".devcontainer"@)),
        encode_utf8("devcontainer.json"@),
    );
    let outer = joined(dir, encode_utf8(".devcontainer.json"@));
    container_files_have_two_places(dir, inner);
    container_files_have_two_places(dir, outer);
    if is_project(dir, existing) {
        let i = choose|i: int|
            0 <= i < existing.len() && devcontainer_locations(dir).contains(#[trigger] existing[i]);
        container_files_have_two_places(dir, existing[i]);
    }
}

/// An agent runs without asking, and the file that marks a shadow has one name.
pub proof fn names_are_fixed(program: Seq<char>)
    ensures
        agent_command(program) == seq![program, "--dangerously-skip-permissions"@],
        meta_name() == ".cc-sandbox-meta.json"@,
{
}

} // verus!
