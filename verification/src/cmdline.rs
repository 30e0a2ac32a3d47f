//! Command lines that may ask for help.
//!
//! A help flag (`-h`, `+h`, `--help` or `+help`) may stand at any depth. The first one
//! ends the parse: what is returned is the path of command names that leads to it, so
//! that help can be shown even where a required argument is missing.

use crate::args::{classify, classify_arg, grow, tree, Args, ArgsView, Part, PartView};
use crate::command::help::asked_help;
use crate::search::{first_match, lemma_first_match, lemma_first_match_is};
use crate::text::{
    given, lemma_blank_iff_trimmed_empty, program_name, str_eq, trim, trimmed, views,
};
use vstd::prelude::*;

verus! {

/// Whether the argument `arg` asks for help.
pub open spec fn is_help(arg: Seq<char>) -> bool {
    let t = trimmed(arg);
    t == "-h"@ || t == "+h"@ || t == "--help"@ || t == "+help"@
}

/// An argument that asks for help.
pub open spec fn asks_help() -> spec_fn(Seq<char>) -> bool {
    |arg: Seq<char>| is_help(arg)
}

/// The names of the subcommands among `items`, in their order.
pub open spec fn commands_in(items: Seq<Seq<char>>) -> Seq<Seq<char>>
    decreases items.len(),
{
    if items.len() == 0 {
        Seq::empty()
    } else {
        match classify(items.last()) {
            PartView::Command(name) => commands_in(items.drop_last()).push(name),
            _ => commands_in(items.drop_last()),
        }
    }
}

/// A parsed command line as a mathematical value.
pub enum CmdLineView {
    /// The tree of a command line without a help flag.
    Args(ArgsView),
    /// The path to the command that help was asked for: the name of the program, then the
    /// names of the subcommands before the help flag.
    Help(Seq<Seq<char>>),
}

/// What the raw arguments `raw` parse to.
pub open spec fn cmdline(raw: Seq<Seq<char>>) -> CmdLineView {
    let at = first_match(given(raw), asks_help());
    if at < given(raw).len() {
        CmdLineView::Help(seq![program_name(raw)] + commands_in(given(raw).take(at)))
    } else {
        CmdLineView::Args(tree(raw))
    }
}

/// Whether `flag` is one of the two flags that ask for help.
pub open spec fn is_help_flag(flag: Seq<char>) -> bool {
    flag == "help"@ || flag == "h"@
}

/// An argument that asks for help is a help flag in the tree grammar, and no other
/// argument is.
pub proof fn lemma_help_is_a_flag(arg: Seq<char>)
    ensures
        is_help(arg) ==> classify(arg) is Flag && is_help_flag(classify(arg)->Flag_0),
        !is_help(arg) && classify(arg) is Flag ==> !is_help_flag(classify(arg)->Flag_0),
{
    reveal_strlit("-h");
    reveal_strlit("+h");
    reveal_strlit("--help");
    reveal_strlit("+help");
    reveal_strlit("help");
    reveal_strlit("h");
    let t = trimmed(arg);
    lemma_blank_iff_trimmed_empty(arg);
    if is_help(arg) {
        if t == "+h"@ {
            assert(t.skip(1) =~= "h"@);
        } else if t == "+help"@ {
            assert(t.skip(1) =~= "help"@);
        }
    } else if classify(arg) is Flag {
        let flag = classify(arg)->Flag_0;
        assert(forall|i: int| 0 <= i < flag.len() ==> flag[i] == t[i + 1]);
        if flag == "h"@ {
            assert(t.len() == 2 && t[1] == flag[0]);
            assert(t =~= "+h"@);
        }
        if flag == "help"@ {
            assert(t.len() == 5 && t[1] == flag[0] && t[2] == flag[1] && t[3] == flag[2] && t[4]
                == flag[3]);
            assert(t =~= "+help"@);
        }
    }
}

/// Growing a command keeps its name and its flags.
pub proof fn lemma_grow_keeps(node: ArgsView, items: Seq<Seq<char>>, flag: Seq<char>)
    ensures
        grow(node, items).name == node.name,
        node.flags.contains(flag) ==> grow(node, items).flags.contains(flag),
    decreases items.len(),
{
    if items.len() > 0 {
        let rest = items.drop_first();
        match classify(items.first()) {
            PartView::Blank => {
                lemma_grow_keeps(node, rest, flag);
            },
            PartView::Flag(f) => {
                lemma_grow_keeps(node.with_flag(f), rest, flag);
                if node.flags.contains(flag) && !node.flags.contains(f) {
                    let i = choose|i: int| 0 <= i < node.flags.len() && node.flags[i] == flag;
                    assert(node.flags.push(f)[i] == flag);
                }
            },
            PartView::Prop(key, value) => {
                lemma_grow_keeps(node.with_prop(key, value), rest, flag);
            },
            PartView::Command(_) => {},
        }
    }
}

/// Without an argument that asks for help, no command of the tree has a help flag.
pub proof fn lemma_no_help(node: ArgsView, items: Seq<Seq<char>>)
    requires
        node.subcommand is None,
        forall|f: Seq<char>| node.flags.contains(f) ==> !is_help_flag(f),
        first_match(items, asks_help()) == items.len(),
    ensures
        asked_help(grow(node, items)) is None,
    decreases items.len(),
{
    assert(!node.flags.contains("help"@) && !node.flags.contains("h"@)) by {
        assert(is_help_flag("help"@) && is_help_flag("h"@));
    }
    if items.len() > 0 {
        let rest = items.drop_first();
        lemma_help_is_a_flag(items.first());
        match classify(items.first()) {
            PartView::Blank => {
                lemma_no_help(node, rest);
            },
            PartView::Flag(f) => {
                lemma_no_help(node.with_flag(f), rest);
            },
            PartView::Prop(key, value) => {
                lemma_no_help(node.with_prop(key, value), rest);
            },
            PartView::Command(name) => {
                lemma_no_help(ArgsView::leaf(name), rest);
            },
        }
    }
}

/// The subcommands among the first `at` of `items`: that of the first argument, if it
/// names one, and those among what follows.
proof fn lemma_commands_in_front(items: Seq<Seq<char>>, at: int)
    requires
        0 < at <= items.len(),
    ensures
        commands_in(items.take(at)) == match classify(items.first()) {
            PartView::Command(name) => seq![name] + commands_in(items.drop_first().take(at - 1)),
            _ => commands_in(items.drop_first().take(at - 1)),
        },
    decreases at,
{
    let front = items.take(at);
    let rest = items.drop_first();
    assert(front.drop_last() =~= items.take(at - 1));
    if at == 1 {
        assert(commands_in(items.take(0)) =~= Seq::<Seq<char>>::empty());
    } else {
        lemma_commands_in_front(items, at - 1);
        assert(rest.take(at - 1).drop_last() =~= rest.take(at - 2));
    }
}

/// Where an argument asks for help, the first command of the tree with a help flag is the
/// last command named before that argument.
pub proof fn lemma_help_found(node: ArgsView, items: Seq<Seq<char>>)
    requires
        node.subcommand is None,
        forall|f: Seq<char>| node.flags.contains(f) ==> !is_help_flag(f),
        first_match(items, asks_help()) < items.len(),
    ensures
        asked_help(grow(node, items)) == Some(
            (seq![node.name] + commands_in(items.take(first_match(items, asks_help())))).last(),
        ),
    decreases items.len(),
{
    let at = first_match(items, asks_help());
    let rest = items.drop_first();
    lemma_first_match(items, asks_help());
    lemma_help_is_a_flag(items.first());
    assert(!node.flags.contains("help"@) && !node.flags.contains("h"@)) by {
        assert(is_help_flag("help"@) && is_help_flag("h"@));
    }
    if at == 0 {
        let flag = classify(items.first())->Flag_0;
        let next = node.with_flag(flag);
        assert(next.flags.contains(flag)) by {
            if !node.flags.contains(flag) {
                assert(next.flags[node.flags.len() as int] == flag);
            }
        }
        lemma_grow_keeps(next, rest, flag);
    } else {
        lemma_commands_in_front(items, at);
        match classify(items.first()) {
            PartView::Blank => {
                lemma_help_found(node, rest);
            },
            PartView::Flag(f) => {
                lemma_help_found(node.with_flag(f), rest);
            },
            PartView::Prop(key, value) => {
                lemma_help_found(node.with_prop(key, value), rest);
            },
            PartView::Command(name) => {
                lemma_help_found(ArgsView::leaf(name), rest);
            },
        }
    }
}

/// Both ways of looking for a help flag agree. If the command line parses to a request
/// for help, the tree of the same arguments has its first help flag on the last command
/// of the request's path; if it parses to a tree, no command of the tree has a help flag.
pub proof fn lemma_help_agrees(raw: Seq<Seq<char>>)
    ensures
        match cmdline(raw) {
            CmdLineView::Help(path) => path.len() > 0 && asked_help(tree(raw)) == Some(
                path.last(),
            ),
            CmdLineView::Args(args) => args == tree(raw) && asked_help(args) is None,
        },
{
    let root = ArgsView::leaf(program_name(raw));
    lemma_first_match(given(raw), asks_help());
    if first_match(given(raw), asks_help()) < given(raw).len() {
        lemma_help_found(root, given(raw));
    } else {
        lemma_no_help(root, given(raw));
    }
}

/// A request for help: the path to the command to show help for.
#[derive(Debug)]
pub struct HelpRequest {
    pub path: Vec<String>,
}

impl View for HelpRequest {
    type V = Seq<Seq<char>>;

    open spec fn view(&self) -> Seq<Seq<char>> {
        self.path.deep_view()
    }
}

/// A parsed command line.
pub enum CmdLine {
    /// A command line without a help flag.
    Args(Args),
    /// A command line with a help flag.
    Help(HelpRequest),
}

impl View for CmdLine {
    type V = CmdLineView;

    open spec fn view(&self) -> CmdLineView {
        match self {
            CmdLine::Args(args) => CmdLineView::Args(args@),
            CmdLine::Help(request) => CmdLineView::Help(request@),
        }
    }
}

/// Tells whether the argument `arg` asks for help.
pub fn is_help_arg(arg: &str) -> (b: bool)
    ensures
        b == is_help(arg@),
{
    let t = trim(arg);
    str_eq(t, "-h") || str_eq(t, "+h") || str_eq(t, "--help") || str_eq(t, "+help")
}

impl CmdLine {
    /// Parses `args` as command line arguments, the first of which is the name of the
    /// program. Stops at the first help flag.
    pub fn parse_from(args: &[&str]) -> (parsed: CmdLine)
        ensures
            parsed@ == cmdline(views(args@)),
    {
        let ghost raw = views(args@);
        let ghost items = given(raw);
        let n = args.len();
        if n == 0 {
            proof {
            }
            return CmdLine::Args(Args::parse_from(args));
        }
        let mut path: Vec<String> = Vec::new();
        path.push(args[0].to_owned());
        let mut i: usize = 1;
        while i < n
            invariant
                1 <= i <= n,
                n == args@.len(),
                raw == views(args@),
                items == given(raw),
                forall|j: int| 0 <= j < i - 1 ==> !asks_help()(#[trigger] items[j]),
                path.deep_view() == seq![program_name(raw)] + commands_in(items.take(i - 1)),
            decreases n - i,
        {
            let arg: &str = args[i];
            let ghost k = i - 1;
            proof {
                assert(items.take(k + 1).drop_last() =~= items.take(k));
            }
            if is_help_arg(arg) {
                proof {
                    lemma_first_match_is(items, asks_help(), k);
                }
                return CmdLine::Help(HelpRequest { path });
            }
            match classify_arg(arg) {
                Part::Command(name) => {
                    let ghost before = path.deep_view();
                    path.push(name);
                    assert(path.deep_view() =~= before.push(name@));
                },
                _ => {},
            }
            i = i + 1;
        }
        proof {
            lemma_first_match_is(items, asks_help(), items.len() as int);
        }
        CmdLine::Args(Args::parse_from(args))
    }

    /// The tree of a command line without a help flag.
    pub fn to_args(self) -> (args: Args)
        requires
            self is Args,
        ensures
            self@ == CmdLineView::Args(args@),
    {
        match self {
            CmdLine::Args(args) => args,
            CmdLine::Help(_) => unreached(),
        }
    }

    /// The request of a command line with a help flag.
    pub fn to_help(self) -> (request: HelpRequest)
        requires
            self is Help,
        ensures
            self@ == CmdLineView::Help(request@),
    {
        match self {
            CmdLine::Help(request) => request,
            CmdLine::Args(_) => unreached(),
        }
    }
}

} // verus!
