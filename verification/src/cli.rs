//! What can be asked for on the command line.
use crate::path::FsPath;
use vstd::prelude::*;

verus! {

/// A command line.
#[derive(Debug)]
pub struct Cli {
    pub command: Command,
    /// Verbose logging is enabled.
    pub verbose: bool,
}

/// A command.
#[derive(Debug)]
pub enum Command {
    /// Create a shadow copy and launch an agent in a devcontainer. Without a name, the time
    /// suffixes the shadow.
    Start { path: FsPath, name: Option<String> },
    /// List all tracked shadows.
    List,
    /// Open a shell in an existing shadow's devcontainer.
    Shell { name: String },
    /// Merge shadow changes back to source and delete the shadow. With `yes`, the confirmation is
    /// skipped.
    Accept { name: String, yes: bool },
    /// Discard a shadow without merging. With `yes`, the confirmation is skipped.
    Reject { name: String, yes: bool },
    /// Print the absolute path of a shadow.
    Path { name: String },
}

impl Cli {
    /// The level from which on messages are logged.
    pub fn log_level(&self) -> (res: &'static str)
        ensures
            res@ == (if self.verbose {
                "trace"@
            } else {
                "warn"@
            }),
    {
        if self.verbose {
            "trace"
        } else {
            "warn"
        }
    }
}

/// Only a verbose run logs more than warnings.
pub proof fn verbose_logs_all(cli: Cli, level: &'static str)
    requires
        call_ensures(Cli::log_level, (&cli,), level),
    ensures
        cli.verbose ==> level@ == "trace"@,
        !cli.verbose ==> level@ == "warn"@,
{
}

} // verus!
