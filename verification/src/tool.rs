//! The outside programs that the sandbox runs, and what it hands them.
use crate::sequences::join;
use crate::text::join_text;
use vstd::prelude::*;

verus! {

/// A program and the arguments to run it with.
#[derive(Debug)]
pub struct Invocation {
    pub program: String,
    pub args: Vec<String>,
}

impl View for Invocation {
    type V = (Seq<char>, Seq<Seq<char>>);

    open spec fn view(&self) -> (Seq<char>, Seq<Seq<char>>) {
        (self.program@, self.args.deep_view())
    }
}

impl Invocation {
    /// The program without arguments.
    pub fn new(program: &str) -> (res: Invocation)
        ensures
            res@ == (program@, Seq::<Seq<char>>::empty()),
    {
        let res = Invocation { program: program.to_owned(), args: Vec::new() };
        assert(res@.1 =~= Seq::<Seq<char>>::empty());
        res
    }

    /// The invocation with one argument more.
    pub fn arg(self, text: &str) -> (res: Invocation)
        ensures
            res@ == (self@.0, self@.1.push(text@)),
    {
        let mut args = self.args;
        let ghost before = args.deep_view();
        args.push(text.to_owned());
        assert(args.deep_view() =~= before.push(text@));
        Invocation { program: self.program, args }
    }

    /// The invocation with these arguments after its own.
    pub fn args(self, texts: &Vec<String>) -> (res: Invocation)
        ensures
            res@ == (self@.0, self@.1 + texts.deep_view()),
    {
        let ghost start = self@;
        let mut out = self;
        let mut i: usize = 0;
        assert(texts.deep_view().take(0) =~= seq![]);
        assert(start.1 + texts.deep_view().take(0) =~= start.1);
        while i < texts.len()
            invariant
                i <= texts@.len(),
                out@ == (start.0, start.1 + texts.deep_view().take(i as int)),
            decreases texts@.len() - i,
        {
            out = out.arg(texts[i].as_str());
            assert(out@.1 =~= start.1 + texts.deep_view().take(i + 1));
            i = i + 1;
        }
        assert(texts.deep_view().take(i as int) =~= texts.deep_view());
        out
    }
}

/// The programs that must be on the search path.
pub open spec fn required_tools() -> Seq<Seq<char>> {
    seq!["cp"@, "rsync"@, "docker"@, "devcontainer"@]
}

/// The programs that must be on the search path, in the order in which they are looked for.
pub fn required_tool_names() -> (res: Vec<String>)
    ensures
        res.deep_view() == required_tools(),
{
    let mut res: Vec<String> = Vec::new();
    res.push("cp".to_owned());
    res.push("rsync".to_owned());
    res.push("docker".to_owned());
    res.push("devcontainer".to_owned());
    assert(res.deep_view() =~= required_tools());
    res
}

/// The lookup of a program on the search path.
pub fn which(tool: &str) -> (res: Invocation)
    ensures
        res@ == ("which"@, seq![tool@]),
{
    Invocation::new("which").arg(tool)
}

/// The tools that were not found, in order; `found` tells of each tool whether it was.
pub open spec fn missing(tools: Seq<Seq<char>>, found: Seq<bool>) -> Seq<Seq<char>>
    decreases tools.len(),
{
    if tools.len() == 0 {
        seq![]
    } else {
        let before = missing(tools.drop_last(), found);
        let k = tools.len() - 1;
        if k < found.len() && found[k] {
            before
        } else {
            before.push(tools[k])
        }
    }
}

/// What is said of tools that were not found.
pub open spec fn missing_words(tools: Seq<Seq<char>>) -> Seq<char> {
    "Required tools not found on PATH: "@ + join(tools, ", "@)
        + ".\ncc-sandbox needs: cp (GNU coreutils), rsync, docker, and devcontainer.\nInstall devcontainer with: npm install -g @devcontainers/cli"@
}

/// Whether all required tools were found, in the order of [`required_tool_names`]; if not, what is
/// said of those that were not.
pub fn check_external_tools(found: &Vec<bool>) -> (res: Result<(), String>)
    ensures
        ({
            let lost = missing(required_tools(), found@);
            match res {
                Ok(_) => lost.len() == 0,
                Err(message) => lost.len() > 0 && message@ == missing_words(lost),
            }
        }),
{
    let tools = required_tool_names();
    let ghost all = required_tools();
    assert(tools.deep_view().len() == tools@.len());
    let mut lost: Vec<String> = Vec::new();
    let mut i: usize = 0;
    assert(all.take(0) =~= seq![]);
    assert(lost.deep_view() =~= missing(all.take(0), found@));
    while i < tools.len()
        invariant
            tools.deep_view() == all,
            all.len() == tools@.len(),
            i <= tools@.len(),
            lost.deep_view() == missing(all.take(i as int), found@),
        decreases tools@.len() - i,
    {
        let ghost before = lost.deep_view();
        proof {
            assert(all.take(i + 1).drop_last() =~= all.take(i as int));
            assert(all[i as int] == tools@[i as int]@);
        }
        if !(i < found.len() && found[i]) {
            lost.push(tools[i].as_str().to_owned());
            assert(lost.deep_view() =~= before.push(all[i as int]));
        }
        i = i + 1;
    }
    assert(all.take(i as int) =~= all);
    assert(lost.deep_view().len() == lost@.len());
    if lost.len() == 0 {
        return Ok(());
    }
    let mut out = "Required tools not found on PATH: ".to_owned();
    out.append(join_text(&lost, ", ").as_str());
    out.append(
        ".\ncc-sandbox needs: cp (GNU coreutils), rsync, docker, and devcontainer.\nInstall devcontainer with: npm install -g @devcontainers/cli",
    );
    Err(out)
}

/// The check passes only where every required tool was found.
pub proof fn passes_only_with_all_tools(found: Seq<bool>)
    ensures
        missing(required_tools(), found).len() == 0 <==> found.len() >= 4 && found[0] && found[1]
            && found[2] && found[3],
{
    reveal_with_fuel(missing, 5);
    let tools = required_tools();
    assert(tools.drop_last().drop_last().drop_last().drop_last().len() == 0);
}

/// Four tools are needed, and the missing ones are told in their order: one tool more is missing
/// exactly where it was not found.
pub proof fn missing_tools_are_told(tools: Seq<Seq<char>>, tool: Seq<char>, found: Seq<bool>)
    ensures
        required_tools() == seq!["cp"@, "rsync"@, "docker"@, "devcontainer"@],
        missing(Seq::<Seq<char>>::empty(), found) == Seq::<Seq<char>>::empty(),
        tools.len() < found.len() && found[tools.len() as int] ==> missing(tools.push(tool), found)
            == missing(tools, found),
        tools.len() >= found.len() || !found[tools.len() as int] ==> missing(
            tools.push(tool),
            found,
        ) == missing(tools, found).push(tool),
        missing_words(tools) == "Required tools not found on PATH: "@ + join(tools, ", "@)
            + ".\ncc-sandbox needs: cp (GNU coreutils), rsync, docker, and devcontainer.\nInstall devcontainer with: npm install -g @devcontainers/cli"@,
{
    assert(tools.push(tool).drop_last() =~= tools);
}

/// An invocation keeps its program, and its arguments in the order in which they were given.
pub proof fn arguments_keep_their_order(
    tool: &str,
    lookup: Invocation,
    program: &str,
    first: Invocation,
    text: &str,
    second: Invocation,
    texts: &Vec<String>,
    third: Invocation,
)
    requires
        call_ensures(which, (tool,), lookup),
        call_ensures(Invocation::new, (program,), first),
        call_ensures(Invocation::arg, (first, text), second),
        call_ensures(Invocation::args, (second, texts), third),
    ensures
        lookup@.0 == "which"@,
        lookup@.1 == seq![tool@],
        third@.0 == program@,
        third@.1.len() == 1 + texts.deep_view().len(),
        third@.1[0] == text@,
        forall|i: int|
            0 <= i < texts.deep_view().len() ==> third@.1[i + 1]
                == #[trigger] texts.deep_view()[i],
{
}

} // verus!
