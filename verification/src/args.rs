//! The argument tree: command line arguments grouped by subcommand.
//!
//! | argument         | meaning                                        |
//! |------------------|------------------------------------------------|
//! | `+flag`          | sets the flag `flag` of the current command    |
//! | `-h`, `--help`   | sets the flag `help` of the current command    |
//! | `key=value`      | sets the prop `key` of the current command     |
//! | anything else    | names a subcommand, which becomes the current  |
//!
//! Arguments are trimmed first, and blank ones are skipped. Every command has at most one
//! subcommand, so the tree is a chain that starts at the program.
//!
//! A flag is kept once, however often it is given, and a prop that is given again gets
//! the later value. Flags and props stand in the order in which they were first given.

use crate::search::{first_match, lemma_first_match, lemma_first_match_is};
use crate::text::{
    find_char, given, is_blank, lemma_blank_iff_trimmed_empty, program_name, str_eq, trim, trimmed,
    views,
};
use vstd::prelude::*;

verus! {

/// A structured view of command line arguments, as a mathematical value.
pub struct ArgsView {
    pub name: Seq<char>,
    pub flags: Seq<Seq<char>>,
    pub props: Seq<(Seq<char>, Seq<char>)>,
    pub subcommand: Option<Box<ArgsView>>,
}

/// The prop with the key `key`.
pub open spec fn has_key(key: Seq<char>) -> spec_fn((Seq<char>, Seq<char>)) -> bool {
    |p: (Seq<char>, Seq<char>)| p.0 == key
}

/// `flags` with `flag` among them: behind the others, if it was not there yet.
pub open spec fn insert_flag(flags: Seq<Seq<char>>, flag: Seq<char>) -> Seq<Seq<char>> {
    if flags.contains(flag) {
        flags
    } else {
        flags.push(flag)
    }
}

/// `props` with `key` set to `value`: in its old place if the key was there, else behind
/// the others.
pub open spec fn insert_prop(props: Seq<(Seq<char>, Seq<char>)>, key: Seq<char>, value: Seq<char>) -> Seq<
    (Seq<char>, Seq<char>),
> {
    let i = first_match(props, has_key(key));
    if i < props.len() {
        props.update(i, (key, value))
    } else {
        props.push((key, value))
    }
}

/// No key occurs twice.
pub open spec fn distinct_keys(props: Seq<(Seq<char>, Seq<char>)>) -> bool {
    forall|i: int, j: int|
        0 <= i < props.len() && 0 <= j < props.len() && i != j ==> (#[trigger] props[i]).0 != (
        #[trigger] props[j]).0
}

impl ArgsView {
    /// A command without flags, props or subcommand.
    pub open spec fn leaf(name: Seq<char>) -> ArgsView {
        ArgsView { name, flags: Seq::empty(), props: Seq::empty(), subcommand: None }
    }

    /// The command with the flag `flag` set.
    pub open spec fn with_flag(self, flag: Seq<char>) -> ArgsView {
        ArgsView { flags: insert_flag(self.flags, flag), ..self }
    }

    /// The command with the prop `key` set to `value`.
    pub open spec fn with_prop(self, key: Seq<char>, value: Seq<char>) -> ArgsView {
        ArgsView { props: insert_prop(self.props, key, value), ..self }
    }

    /// The value of the prop `key`, if it is set.
    pub open spec fn prop(self, key: Seq<char>) -> Option<Seq<char>> {
        let i = first_match(self.props, has_key(key));
        if i < self.props.len() {
            Some(self.props[i].1)
        } else {
            None
        }
    }

    /// Flags form a set and props a map, at every level: no flag and no key occurs twice.
    pub open spec fn wf(self) -> bool
        decreases self,
    {
        &&& self.flags.no_duplicates()
        &&& distinct_keys(self.props)
        &&& match self.subcommand {
            Some(child) => child.wf(),
            None => true,
        }
    }

    /// The number of subcommands below this command.
    pub open spec fn depth(self) -> nat
        decreases self,
    {
        match self.subcommand {
            Some(child) => 1 + child.depth(),
            None => 0,
        }
    }
}

/// What one argument of the tree grammar is.
pub enum PartView {
    /// Nothing but white space.
    Blank,
    /// A flag, by its name.
    Flag(Seq<char>),
    /// A prop, by its key and value.
    Prop(Seq<char>, Seq<char>),
    /// The name of a subcommand.
    Command(Seq<char>),
}

/// What the argument `arg` is, once it is trimmed. An `=` splits a prop at its first
/// occurrence, unless it comes first: an argument that starts with `=` names a subcommand.
pub open spec fn classify(arg: Seq<char>) -> PartView {
    let t = trimmed(arg);
    if is_blank(arg) {
        PartView::Blank
    } else if t == "-h"@ || t == "--help"@ {
        PartView::Flag("help"@)
    } else if t.first() == '+' {
        PartView::Flag(t.skip(1))
    } else {
        match t.index_of_first('=') {
            Some(i) => {
                if i != 0 {
                    PartView::Prop(t.take(i), t.skip(i + 1))
                } else {
                    PartView::Command(t)
                }
            },
            None => PartView::Command(t),
        }
    }
}

/// The command `node` after the arguments `items`: flags and props go to `node` until an
/// argument names a subcommand, which takes all that follows.
pub open spec fn grow(node: ArgsView, items: Seq<Seq<char>>) -> ArgsView
    decreases items.len(),
{
    if items.len() == 0 {
        node
    } else {
        let rest = items.drop_first();
        match classify(items.first()) {
            PartView::Blank => grow(node, rest),
            PartView::Flag(flag) => grow(node.with_flag(flag), rest),
            PartView::Prop(key, value) => grow(node.with_prop(key, value), rest),
            PartView::Command(name) => ArgsView {
                subcommand: Some(Box::new(grow(ArgsView::leaf(name), rest))),
                ..node
            },
        }
    }
}

/// The tree of the raw arguments `raw`, the first of which is the name of the program.
pub open spec fn tree(raw: Seq<Seq<char>>) -> ArgsView {
    grow(ArgsView::leaf(program_name(raw)), given(raw))
}

/// Setting a prop keeps the keys distinct, and the prop then has the value.
pub proof fn lemma_insert_prop_wf(props: Seq<(Seq<char>, Seq<char>)>, key: Seq<char>, value: Seq<char>)
    requires
        distinct_keys(props),
    ensures
        distinct_keys(insert_prop(props, key, value)),
        first_match(insert_prop(props, key, value), has_key(key)) < insert_prop(
            props,
            key,
            value,
        ).len(),
        insert_prop(props, key, value)[first_match(insert_prop(props, key, value), has_key(key))]
            == (key, value),
{
    let wanted = has_key(key);
    let i = first_match(props, wanted);
    let after = insert_prop(props, key, value);
    lemma_first_match(props, wanted);
    lemma_first_match_is(after, wanted, i);
}

/// Growing a well-formed command gives a well-formed tree.
pub proof fn lemma_grow_wf(node: ArgsView, items: Seq<Seq<char>>)
    requires
        node.wf(),
    ensures
        grow(node, items).wf(),
    decreases items.len(),
{
    if items.len() > 0 {
        let rest = items.drop_first();
        match classify(items.first()) {
            PartView::Blank => {
                lemma_grow_wf(node, rest);
            },
            PartView::Flag(flag) => {
                lemma_grow_wf(node.with_flag(flag), rest);
            },
            PartView::Prop(key, value) => {
                lemma_insert_prop_wf(node.props, key, value);
                lemma_grow_wf(node.with_prop(key, value), rest);
            },
            PartView::Command(name) => {
                lemma_grow_wf(ArgsView::leaf(name), rest);
            },
        }
    }
}

/// The tree of any arguments is well formed.
pub proof fn lemma_tree_wf(raw: Seq<Seq<char>>)
    ensures
        tree(raw).wf(),
{
    lemma_grow_wf(ArgsView::leaf(program_name(raw)), given(raw));
}

/// A structured view of command line arguments.
#[derive(Debug)]
#[non_exhaustive]
pub struct Args {
    /// The name of the command; at the root, the name of the program.
    pub name: String,
    /// The flags that were set, each once, in the order they were first given.
    pub flags: Vec<String>,
    /// The props that were set, each key once, in the order they were first given.
    pub props: Vec<(String, String)>,
    /// The subcommand, if one was named.
    pub subcommand: Option<Box<Args>>,
}

impl Args {
    /// The tree as a mathematical value.
    pub open spec fn model(&self) -> ArgsView
        decreases self,
    {
        ArgsView {
            name: self.name@,
            flags: self.flags.deep_view(),
            props: self.props.deep_view(),
            subcommand: match self.subcommand {
                Some(child) => Some(Box::new(child.model())),
                None => None,
            },
        }
    }
}

impl View for Args {
    type V = ArgsView;

    open spec fn view(&self) -> ArgsView {
        self.model()
    }
}

/// What one argument of the tree grammar is, as it is stored.
pub enum Part {
    Blank,
    Flag(String),
    Prop(String, String),
    Command(String),
}

impl View for Part {
    type V = PartView;

    open spec fn view(&self) -> PartView {
        match self {
            Part::Blank => PartView::Blank,
            Part::Flag(name) => PartView::Flag(name@),
            Part::Prop(key, value) => PartView::Prop(key@, value@),
            Part::Command(name) => PartView::Command(name@),
        }
    }
}

/// Tells what the argument `arg` is.
pub fn classify_arg(arg: &str) -> (part: Part)
    ensures
        part@ == classify(arg@),
{
    let t = trim(arg);
    let len = t.unicode_len();
    proof {
        lemma_blank_iff_trimmed_empty(arg@);
    }
    if len == 0 {
        return Part::Blank;
    }
    if str_eq(t, "-h") || str_eq(t, "--help") {
        return Part::Flag(String::from_str("help"));
    }
    if t.get_char(0) == '+' {
        return Part::Flag(t.substring_char(1, len).to_owned());
    }
    proof {
        t@.index_of_first_ensures('=');
    }
    match find_char(t, '=') {
        Some(i) => {
            if i != 0 {
                Part::Prop(t.substring_char(0, i).to_owned(), t.substring_char(i + 1, len).to_owned())
            } else {
                Part::Command(t.to_owned())
            }
        },
        None => Part::Command(t.to_owned()),
    }
}

/// Puts `flag` among `flags`, unless it is there.
pub fn add_flag(flags: &mut Vec<String>, flag: String)
    ensures
        final(flags).deep_view() == insert_flag(old(flags).deep_view(), flag@),
{
    let mut i: usize = 0;
    while i < flags.len()
        invariant
            i <= flags.len(),
            *flags == *old(flags),
            forall|j: int| 0 <= j < i ==> flags.deep_view()[j] != flag@,
        decreases flags.len() - i,
    {
        if str_eq(flags[i].as_str(), flag.as_str()) {
            assert(flags.deep_view()[i as int] == flag@);
            return;
        }
        i = i + 1;
    }
    flags.push(flag);
}

/// Sets the prop `key` to `value` in `props`.
pub fn set_prop(props: &mut Vec<(String, String)>, key: String, value: String)
    ensures
        final(props).deep_view() == insert_prop(old(props).deep_view(), key@, value@),
{
    let ghost before = props.deep_view();
    let ghost wanted = has_key(key@);
    let mut i: usize = 0;
    while i < props.len()
        invariant
            i <= props.len(),
            *props == *old(props),
            before == props.deep_view(),
            wanted == has_key(key@),
            forall|j: int| 0 <= j < i ==> !wanted(#[trigger] before[j]),
        decreases props.len() - i,
    {
        if str_eq(props[i].0.as_str(), key.as_str()) {
            proof {
                lemma_first_match_is(before, wanted, i as int);
            }
            props[i] = (key, value);
            return;
        }
        i = i + 1;
    }
    proof {
        lemma_first_match_is(before, wanted, before.len() as int);
    }
    props.push((key, value));
}

impl Args {
    /// Parses `args` as command line arguments, the first of which is the name of the
    /// program. Without any argument the name is empty.
    pub fn parse_from(args: &[&str]) -> (tree: Args)
        ensures
            tree@ == crate::args::tree(views(args@)),
            tree@.wf(),
    {
        proof {
            lemma_tree_wf(views(args@));
        }
        if args.len() == 0 {
            let root = Args {
                name: String::new(),
                flags: Vec::new(),
                props: Vec::new(),
                subcommand: None,
            };
            assert(root@.flags =~= Seq::<Seq<char>>::empty());
            assert(root@.props =~= Seq::<(Seq<char>, Seq<char>)>::empty());
            return root;
        }
        Args::grow(args[0].to_owned(), args, 1)
    }

    /// The command called `name`, with what the arguments from `start` on give it.
    fn grow(name: String, args: &[&str], start: usize) -> (node: Args)
        requires
            start <= args@.len(),
        ensures
            node@ == crate::args::grow(ArgsView::leaf(name@), views(args@).skip(start as int)),
        decreases args@.len() - start,
    {
        let ghost items = views(args@);
        let ghost goal = crate::args::grow(ArgsView::leaf(name@), items.skip(start as int));
        let mut flags: Vec<String> = Vec::new();
        let mut props: Vec<(String, String)> = Vec::new();
        let mut i: usize = start;
        assert(flags.deep_view() =~= Seq::<Seq<char>>::empty());
        assert(props.deep_view() =~= Seq::<(Seq<char>, Seq<char>)>::empty());
        while i < args.len()
            invariant
                start <= i <= args@.len(),
                items == views(args@),
                goal == crate::args::grow(ArgsView::leaf(name@), items.skip(start as int)),
                goal == crate::args::grow(
                    ArgsView {
                        name: name@,
                        flags: flags.deep_view(),
                        props: props.deep_view(),
                        subcommand: None,
                    },
                    items.skip(i as int),
                ),
            decreases args@.len() - i,
        {
            let ghost rest = items.skip(i as int);
            proof {
                assert(rest.drop_first() =~= items.skip(i + 1));
            }
            match classify_arg(args[i]) {
                Part::Blank => {},
                Part::Flag(flag) => {
                    add_flag(&mut flags, flag);
                },
                Part::Prop(key, value) => {
                    set_prop(&mut props, key, value);
                },
                Part::Command(child_name) => {
                    let child = Args::grow(child_name, args, i + 1);
                    return Args { name, flags, props, subcommand: Some(Box::new(child)) };
                },
            }
            i = i + 1;
        }
        Args { name, flags, props, subcommand: None }
    }

    /// Whether the flag `name` is set on this command.
    pub fn has_flag(&self, name: &str) -> (found: bool)
        ensures
            found == self@.flags.contains(name@),
    {
        let mut i: usize = 0;
        while i < self.flags.len()
            invariant
                i <= self.flags.len(),
                forall|j: int| 0 <= j < i ==> self@.flags[j] != name@,
            decreases self.flags.len() - i,
        {
            if str_eq(self.flags[i].as_str(), name) {
                assert(self@.flags[i as int] == name@);
                return true;
            }
            i = i + 1;
        }
        false
    }

    /// The value of the prop `key` on this command, if it is set.
    pub fn prop(&self, key: &str) -> (value: Option<&str>)
        ensures
            match value {
                Some(v) => self@.prop(key@) == Some(v@),
                None => self@.prop(key@) is None,
            },
    {
        let ghost wanted = has_key(key@);
        let mut i: usize = 0;
        while i < self.props.len()
            invariant
                i <= self.props.len(),
                wanted == has_key(key@),
                forall|j: int| 0 <= j < i ==> !wanted(#[trigger] self@.props[j]),
            decreases self.props.len() - i,
        {
            if str_eq(self.props[i].0.as_str(), key) {
                proof {
                    lemma_first_match_is(self@.props, wanted, i as int);
                }
                return Some(self.props[i].1.as_str());
            }
            i = i + 1;
        }
        proof {
            lemma_first_match_is(self@.props, wanted, self@.props.len() as int);
        }
        None
    }
}

} // verus!
