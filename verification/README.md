# cc-sandbox

Run an agent against a reflink shadow copy of a working directory inside a devcontainer. The source
is not touched until the changes are accepted.

```
cc-sandbox start <path> [--name NAME]   copy, container, agent
cc-sandbox list                         all shadows, with their age and container
cc-sandbox shell <name>                 a shell in a shadow's container
cc-sandbox accept <name> [--yes]        merge the changes back, remove the shadow
cc-sandbox reject <name> [--yes]        remove the shadow, write nothing to the source
cc-sandbox path <name>                  where a shadow is
```

## Layout

- `src/` is the library, written and proved in Verus. It decides: where a shadow goes, which shadow a
  name means, what each command does next, what it says, and what the outside programs are handed. It
  reads the clock, but no file.
- `app/` is the program: it parses the command line, keeps the files, runs the programs, and reports
  to the library how that went.
- `tests/` runs the library.

A command is a procedure in stages (`src/step.rs`). At each stage the library names an action; the
program does it and hands back an event; the library gives the next stage.

## What is proved

Besides the contract of every function, the public proof functions state what holds of the commands
as a whole:

- `commands::reject`: rejecting never writes to the source.
- `commands::accept`: the shadow is never removed before the merge succeeded, and a merge that failed
  keeps it.
- `commands::accept`, `commands::reject`: nothing is removed before the count of the changes was shown
  and confirmed, nor outside the known shadow roots.
- `commands::start`: a source that is refused leaves all as it was, and the agent runs only in a
  shadow that was copied.
- `commands::list`: there is one line for each shadow.
- `root_search`: a known shadow root is used without a question, and nothing is changed before an
  answer that names one.
- `create`: a copy always asks for reflinks, and a copy that failed is cleaned up.
- `name`: a name that two shadows have is refused, a name that one has means it, in whatever order
  they are found, and a path leads to nothing outside the shadow roots.
- `shadow`: different sources have different shadows.
- `store`: a configuration is replaced whole, and one that exists is never overwritten by the default.
- `walk`: a search finds every shadow under its root, in order.
- `removal`: of the directories above a shadow, only those strictly below its root are pruned.

## Configuration

`~/.config/cc-sandbox/config.toml`, or below `$XDG_CONFIG_HOME`. It is created on first use; the
shadow root of each filesystem is asked for once. A configuration without an `[agent]` runs the
program named in `$CC_SANDBOX_AGENT`, or `agent`, with `--dangerously-skip-permissions`.
