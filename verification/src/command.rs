//! Command definitions: what a valid command line looks like.
//!
//! A command has names, props, flags and subcommands. The first name of a definition is
//! its canonical name, the others are aliases.
//!
//! Names are looked up in definition order, and the first definition that carries the
//! name wins. Whether the names of sibling definitions are distinct is up to the author
//! of the definition.

use crate::search::{first_match, lemma_first_match_is};
use crate::text::str_eq;
use vstd::prelude::*;

pub mod help;
pub mod validation;

verus! {

/// What kind of argument a name was given as.
#[derive(Debug, Clone, Copy, PartialEq, Eq, Structural)]
pub enum ArgumentKind {
    Command,
    Flag,
    Prop,
}

impl ArgumentKind {
    /// The word for the kind in messages.
    pub open spec fn label(self) -> Seq<char> {
        match self {
            ArgumentKind::Command => "command"@,
            ArgumentKind::Prop => "option"@,
            ArgumentKind::Flag => "flag"@,
        }
    }

    /// The word for the kind in messages.
    pub fn to_str(&self) -> (word: &'static str)
        ensures
            word@ == self.label(),
    {
        match self {
            ArgumentKind::Command => "command",
            ArgumentKind::Prop => "option",
            ArgumentKind::Flag => "flag",
        }
    }
}

/// Why command line arguments do not match a command definition.
#[derive(Debug, PartialEq, Eq)]
pub enum InvalidArguments {
    /// A name that the definition does not know.
    UnrecognizedArgument { name: String, kind: ArgumentKind },
    /// A required prop that was not given, by its canonical name.
    MissingRequiredOptions(String),
}

/// An `InvalidArguments` as a mathematical value.
pub enum InvalidArgumentsView {
    UnrecognizedArgument { name: Seq<char>, kind: ArgumentKind },
    MissingRequiredOptions(Seq<char>),
}

impl InvalidArgumentsView {
    /// The sentence that reports the error.
    pub open spec fn message(self) -> Seq<char> {
        match self {
            InvalidArgumentsView::UnrecognizedArgument { name, kind } => name
                + " is not a valid "@ + kind.label(),
            InvalidArgumentsView::MissingRequiredOptions(name) => "missing required option '"@
                + name + "'"@,
        }
    }
}

impl View for InvalidArguments {
    type V = InvalidArgumentsView;

    open spec fn view(&self) -> InvalidArgumentsView {
        match self {
            InvalidArguments::UnrecognizedArgument { name, kind } => {
                InvalidArgumentsView::UnrecognizedArgument { name: name@, kind: *kind }
            },
            InvalidArguments::MissingRequiredOptions(name) => {
                InvalidArgumentsView::MissingRequiredOptions(name@)
            },
        }
    }
}

impl Clone for InvalidArguments {
    fn clone(&self) -> (copy: Self)
        ensures
            copy@ == self@,
    {
        match self {
            InvalidArguments::UnrecognizedArgument { name, kind } => {
                InvalidArguments::UnrecognizedArgument { name: name.clone(), kind: *kind }
            },
            InvalidArguments::MissingRequiredOptions(name) => {
                InvalidArguments::MissingRequiredOptions(name.clone())
            },
        }
    }
}

impl InvalidArguments {
    /// The sentence that reports the error.
    pub fn message(&self) -> (text: String)
        ensures
            text@ == self@.message(),
    {
        match self {
            InvalidArguments::UnrecognizedArgument { name, kind } => {
                let mut text = name.clone();
                text.append(" is not a valid ");
                text.append(kind.to_str());
                text
            },
            InvalidArguments::MissingRequiredOptions(name) => {
                let mut text = String::from_str("missing required option '");
                text.append(name.as_str());
                text.append("'");
                text
            },
        }
    }
}

/// A prop definition as a mathematical value.
pub struct PropView {
    pub names: Seq<Seq<char>>,
    pub help: Seq<char>,
    pub required: bool,
}

/// A flag definition as a mathematical value.
pub struct FlagView {
    pub names: Seq<Seq<char>>,
    pub help: Seq<char>,
}

/// A command definition as a mathematical value.
pub struct CommandView {
    pub names: Seq<Seq<char>>,
    pub help: Seq<char>,
    pub props: Seq<PropView>,
    pub flags: Seq<FlagView>,
    pub commands: Seq<CommandView>,
}

/// A prop definition that carries the name `name`.
pub open spec fn prop_called(name: Seq<char>) -> spec_fn(PropView) -> bool {
    |p: PropView| p.names.contains(name)
}

/// A flag definition that carries the name `name`.
pub open spec fn flag_called(name: Seq<char>) -> spec_fn(FlagView) -> bool {
    |f: FlagView| f.names.contains(name)
}

/// A command definition that carries the name `name`.
pub open spec fn command_called(name: Seq<char>) -> spec_fn(CommandView) -> bool {
    |c: CommandView| c.names.contains(name)
}

impl PropView {
    /// The canonical name.
    pub open spec fn name(self) -> Seq<char> {
        self.names.first()
    }
}

impl FlagView {
    /// The canonical name.
    pub open spec fn name(self) -> Seq<char> {
        self.names.first()
    }
}

impl CommandView {
    /// The canonical name.
    pub open spec fn name(self) -> Seq<char> {
        self.names.first()
    }

    /// A command without props, flags or subcommands.
    pub open spec fn plain(name: Seq<char>, help: Seq<char>) -> CommandView {
        CommandView {
            names: seq![name],
            help,
            props: Seq::empty(),
            flags: Seq::empty(),
            commands: Seq::empty(),
        }
    }

    /// The first flag definition that carries `name`.
    pub open spec fn find_flag(self, name: Seq<char>) -> Option<FlagView> {
        let i = first_match(self.flags, flag_called(name));
        if i < self.flags.len() {
            Some(self.flags[i])
        } else {
            None
        }
    }

    /// The first prop definition that carries `name`.
    pub open spec fn find_prop(self, name: Seq<char>) -> Option<PropView> {
        let i = first_match(self.props, prop_called(name));
        if i < self.props.len() {
            Some(self.props[i])
        } else {
            None
        }
    }

    /// The first subcommand definition that carries `name`.
    pub open spec fn find_command(self, name: Seq<char>) -> Option<CommandView> {
        let i = first_match(self.commands, command_called(name));
        if i < self.commands.len() {
            Some(self.commands[i])
        } else {
            None
        }
    }

    /// The canonical name of the flag `name`; `name` itself if no definition carries it.
    pub open spec fn canonical_flag(self, name: Seq<char>) -> Seq<char> {
        match self.find_flag(name) {
            Some(f) => f.name(),
            None => name,
        }
    }

    /// The canonical name of the prop `name`; `name` itself if no definition carries it.
    pub open spec fn canonical_prop(self, name: Seq<char>) -> Seq<char> {
        match self.find_prop(name) {
            Some(p) => p.name(),
            None => name,
        }
    }
}

/// A blueprint for command line props (e.g. `prop=value`).
#[derive(Debug)]
pub struct Prop {
    help: &'static str,
    required: bool,
    names: Vec<&'static str>,
}

impl View for Prop {
    type V = PropView;

    closed spec fn view(&self) -> PropView {
        PropView { names: self.names.deep_view(), help: self.help@, required: self.required }
    }
}

impl Prop {
    #[verifier::type_invariant]
    spec fn named(self) -> bool {
        self.names@.len() > 0
    }

    /// Defines a new property. It is optional and has no alias.
    pub fn new(name: &'static str, help: &'static str) -> (prop: Self)
        ensures
            prop@ == (PropView { names: seq![name@], help: help@, required: false }),
    {
        let prop = Prop { help, names: vec![name], required: false };
        assert(prop.names.deep_view() =~= seq![name@]);
        prop
    }

    /// Returns the primary name for this prop.
    pub fn name(&self) -> (name: &'static str)
        ensures
            self@.names.len() > 0,
            name@ == self@.name(),
    {
        proof {
            use_type_invariant(self);
        }
        self.names[0]
    }

    /// Whether the prop must be given.
    pub fn is_required(&self) -> (required: bool)
        ensures
            required == self@.required,
    {
        self.required
    }

    /// Makes this prop required.
    pub fn make_required(self) -> (prop: Self)
        ensures
            prop@ == (PropView { required: true, ..self@ }),
    {
        proof {
            use_type_invariant(&self);
        }
        let Prop { help, names, .. } = self;
        Prop { help, names, required: true }
    }

    /// Attaches an alias to this prop.
    pub fn add_alias(self, alias: &'static str) -> (prop: Self)
        ensures
            prop@ == (PropView { names: self@.names.push(alias@), ..self@ }),
    {
        let Prop { help, names, required } = self;
        let mut names = names;
        let ghost before = names.deep_view();
        names.push(alias);
        assert(names.deep_view() =~= before.push(alias@));
        Prop { help, names, required }
    }
}

/// A blueprint for command line flags (e.g. `+flag`).
#[derive(Debug)]
pub struct Flag {
    help: &'static str,
    names: Vec<&'static str>,
}

impl View for Flag {
    type V = FlagView;

    closed spec fn view(&self) -> FlagView {
        FlagView { names: self.names.deep_view(), help: self.help@ }
    }
}

impl Flag {
    #[verifier::type_invariant]
    spec fn named(self) -> bool {
        self.names@.len() > 0
    }

    /// Defines a new flag. It has no alias.
    pub fn new(name: &'static str, help: &'static str) -> (flag: Self)
        ensures
            flag@ == (FlagView { names: seq![name@], help: help@ }),
    {
        let flag = Flag { help, names: vec![name] };
        assert(flag.names.deep_view() =~= seq![name@]);
        flag
    }

    /// Returns the primary name for this flag.
    pub fn name(&self) -> (name: &'static str)
        ensures
            self@.names.len() > 0,
            name@ == self@.name(),
    {
        proof {
            use_type_invariant(self);
        }
        self.names[0]
    }

    /// Attaches an alias to this flag.
    pub fn add_alias(self, alias: &'static str) -> (flag: Self)
        ensures
            flag@ == (FlagView { names: self@.names.push(alias@), ..self@ }),
    {
        let Flag { help, names } = self;
        let mut names = names;
        let ghost before = names.deep_view();
        names.push(alias);
        assert(names.deep_view() =~= before.push(alias@));
        Flag { help, names }
    }
}

/// A blueprint for what valid command line should look like.
#[derive(Debug)]
pub struct Command {
    names: Vec<&'static str>,
    help: &'static str,
    props: Vec<Prop>,
    flags: Vec<Flag>,
    commands: Vec<Command>,
}

/// The definitions that a list of props stands for.
spec fn prop_views(props: Seq<Prop>) -> Seq<PropView> {
    props.map_values(|p: Prop| p@)
}

/// The definitions that a list of flags stands for.
spec fn flag_views(flags: Seq<Flag>) -> Seq<FlagView> {
    flags.map_values(|f: Flag| f@)
}

impl Command {
    #[verifier::type_invariant]
    spec fn named(self) -> bool {
        self.names@.len() > 0
    }

    /// The definition as a mathematical value.
    pub closed spec fn model(&self) -> CommandView
        decreases self,
    {
        CommandView {
            names: self.names.deep_view(),
            help: self.help@,
            props: prop_views(self.props@),
            flags: flag_views(self.flags@),
            commands: Seq::new(
                self.commands@.len(),
                |i: int|
                    if 0 <= i < self.commands@.len() {
                        self.commands@[i].model()
                    } else {
                        CommandView::plain(Seq::empty(), Seq::empty())
                    },
            ),
        }
    }
}

impl View for Command {
    type V = CommandView;

    closed spec fn view(&self) -> CommandView {
        self.model()
    }
}

/// Whether `name` is among `names`.
fn names_contain(names: &Vec<&'static str>, name: &str) -> (found: bool)
    ensures
        found == names.deep_view().contains(name@),
{
    let mut i: usize = 0;
    while i < names.len()
        invariant
            i <= names.len(),
            forall|j: int| 0 <= j < i ==> names.deep_view()[j] != name@,
        decreases names.len() - i,
    {
        if str_eq(names[i], name) {
            assert(names.deep_view()[i as int] == name@);
            return true;
        }
        i = i + 1;
    }
    false
}

impl Command {
    /// Creates a new instance.
    ///
    /// This structure can be used to represent both root and sub-commands.
    pub fn new(name: &'static str, help: &'static str) -> (command: Self)
        ensures
            command@ == CommandView::plain(name@, help@),
    {
        let command = Command {
            names: vec![name],
            help,
            props: Vec::new(),
            flags: Vec::new(),
            commands: Vec::new(),
        };
        assert(command.names.deep_view() =~= seq![name@]);
        assert(command@.props =~= Seq::<PropView>::empty());
        assert(command@.flags =~= Seq::<FlagView>::empty());
        assert(command@.commands =~= Seq::<CommandView>::empty());
        command
    }

    /// Returns the primary name for this command.
    pub fn name(&self) -> (name: &'static str)
        ensures
            self@.names.len() > 0,
            name@ == self@.name(),
    {
        proof {
            use_type_invariant(self);
        }
        self.names[0]
    }

    /// Attaches an alias to this command.
    ///
    /// Attaching an alias to the root command has no visible effect.
    pub fn add_alias(self, alias: &'static str) -> (command: Self)
        ensures
            command@ == (CommandView { names: self@.names.push(alias@), ..self@ }),
    {
        let ghost before = self@;
        let Command { names, help, props, flags, commands } = self;
        let mut names = names;
        names.push(alias);
        let command = Command { names, help, props, flags, commands };
        assert(command@.names =~= before.names.push(alias@));
        command
    }

    /// Defines a flag parameter for this command.
    pub fn add_flag(self, flag: Flag) -> (command: Self)
        ensures
            command@ == (CommandView { flags: self@.flags.push(flag@), ..self@ }),
    {
        proof {
            use_type_invariant(&self);
        }
        let ghost before = self@;
        let Command { names, help, props, flags, commands } = self;
        let mut flags = flags;
        flags.push(flag);
        let command = Command { names, help, props, flags, commands };
        assert(command@.flags =~= before.flags.push(flag@));
        command
    }

    /// Defines a prop parameter for this command.
    pub fn add_prop(self, prop: Prop) -> (command: Self)
        ensures
            command@ == (CommandView { props: self@.props.push(prop@), ..self@ }),
    {
        proof {
            use_type_invariant(&self);
        }
        let ghost before = self@;
        let Command { names, help, props, flags, commands } = self;
        let mut props = props;
        props.push(prop);
        let command = Command { names, help, props, flags, commands };
        assert(command@.props =~= before.props.push(prop@));
        command
    }

    /// Defines a subcommand.
    pub fn add_command(self, subcommand: Command) -> (command: Self)
        ensures
            command@ == (CommandView { commands: self@.commands.push(subcommand@), ..self@ }),
    {
        proof {
            use_type_invariant(&self);
        }
        let ghost before = self@;
        let Command { names, help, props, flags, commands } = self;
        let mut commands = commands;
        commands.push(subcommand);
        let command = Command { names, help, props, flags, commands };
        assert(command@.commands =~= before.commands.push(subcommand@));
        command
    }

    /// Returns a reference to a subcommand with the given name or alias.
    pub fn get_subcommand(&self, name: &str) -> (found: Option<&Command>)
        ensures
            match found {
                Some(command) => self@.find_command(name@) == Some(command@),
                None => self@.find_command(name@) is None,
            },
    {
        let ghost wanted = command_called(name@);
        let mut i: usize = 0;
        while i < self.commands.len()
            invariant
                i <= self.commands.len(),
                wanted == command_called(name@),
                forall|j: int| 0 <= j < i ==> !wanted(#[trigger] self@.commands[j]),
            decreases self.commands.len() - i,
        {
            let command = &self.commands[i];
            assert(self@.commands[i as int] == command@);
            if names_contain(&command.names, name) {
                proof {
                    lemma_first_match_is(self@.commands, wanted, i as int);
                }
                return Some(command);
            }
            i = i + 1;
        }
        proof {
            lemma_first_match_is(self@.commands, wanted, self@.commands.len() as int);
        }
        None
    }

    /// Returns a reference to a flag with the given name or alias.
    pub fn get_flag(&self, name: &str) -> (found: Option<&Flag>)
        ensures
            match found {
                Some(flag) => self@.find_flag(name@) == Some(flag@),
                None => self@.find_flag(name@) is None,
            },
    {
        let ghost wanted = flag_called(name@);
        let mut i: usize = 0;
        while i < self.flags.len()
            invariant
                i <= self.flags.len(),
                wanted == flag_called(name@),
                forall|j: int| 0 <= j < i ==> !wanted(#[trigger] self@.flags[j]),
            decreases self.flags.len() - i,
        {
            let flag = &self.flags[i];
            if names_contain(&flag.names, name) {
                proof {
                    lemma_first_match_is(self@.flags, wanted, i as int);
                }
                return Some(flag);
            }
            i = i + 1;
        }
        proof {
            lemma_first_match_is(self@.flags, wanted, self@.flags.len() as int);
        }
        None
    }

    /// Returns a reference to a prop with the given name or alias.
    pub fn get_prop(&self, name: &str) -> (found: Option<&Prop>)
        ensures
            match found {
                Some(prop) => self@.find_prop(name@) == Some(prop@),
                None => self@.find_prop(name@) is None,
            },
    {
        let ghost wanted = prop_called(name@);
        let mut i: usize = 0;
        while i < self.props.len()
            invariant
                i <= self.props.len(),
                wanted == prop_called(name@),
                forall|j: int| 0 <= j < i ==> !wanted(#[trigger] self@.props[j]),
            decreases self.props.len() - i,
        {
            let prop = &self.props[i];
            if names_contain(&prop.names, name) {
                proof {
                    lemma_first_match_is(self@.props, wanted, i as int);
                }
                return Some(prop);
            }
            i = i + 1;
        }
        proof {
            lemma_first_match_is(self@.props, wanted, self@.props.len() as int);
        }
        None
    }
}

/// A copy of a list of names.
fn copy_names(names: &Vec<&'static str>) -> (copy: Vec<&'static str>)
    ensures
        copy@ == names@,
{
    let mut copy: Vec<&'static str> = Vec::new();
    let mut i: usize = 0;
    while i < names.len()
        invariant
            i <= names.len(),
            copy@ == names@.take(i as int),
        decreases names.len() - i,
    {
        copy.push(names[i]);
        i = i + 1;
    }
    copy
}

impl Clone for Prop {
    fn clone(&self) -> (copy: Self)
        ensures
            copy@ == self@,
    {
        proof {
            use_type_invariant(self);
        }
        Prop { help: self.help, required: self.required, names: copy_names(&self.names) }
    }
}

impl Clone for Flag {
    fn clone(&self) -> (copy: Self)
        ensures
            copy@ == self@,
    {
        proof {
            use_type_invariant(self);
        }
        Flag { help: self.help, names: copy_names(&self.names) }
    }
}

impl Command {
    /// A copy of the definition, with copies of all that it holds.
    fn duplicate(&self) -> (copy: Self)
        ensures
            copy@ == self@,
        decreases self,
    {
        proof {
            use_type_invariant(self);
        }
        let mut props: Vec<Prop> = Vec::new();
        let mut i: usize = 0;
        while i < self.props.len()
            invariant
                i <= self.props.len(),
                prop_views(props@) == prop_views(self.props@.take(i as int)),
            decreases self.props.len() - i,
        {
            let ghost before = props@;
            let prop = self.props[i].clone();
            props.push(prop);
            i = i + 1;
            assert(prop_views(props@) =~= prop_views(self.props@.take(i as int))) by {
                assert(prop_views(before.push(prop)) =~= prop_views(before).push(prop@));
            }
        }
        assert(self.props@.take(self.props.len() as int) =~= self.props@);
        let mut flags: Vec<Flag> = Vec::new();
        let mut i: usize = 0;
        while i < self.flags.len()
            invariant
                i <= self.flags.len(),
                flag_views(flags@) == flag_views(self.flags@.take(i as int)),
            decreases self.flags.len() - i,
        {
            let ghost before = flags@;
            let flag = self.flags[i].clone();
            flags.push(flag);
            i = i + 1;
            assert(flag_views(flags@) =~= flag_views(self.flags@.take(i as int))) by {
                assert(flag_views(before.push(flag)) =~= flag_views(before).push(flag@));
            }
        }
        assert(self.flags@.take(self.flags.len() as int) =~= self.flags@);
        let mut commands: Vec<Command> = Vec::new();
        let mut i: usize = 0;
        while i < self.commands.len()
            invariant
                i <= self.commands.len(),
                commands@.len() == i,
                forall|j: int| 0 <= j < i ==> (#[trigger] commands@[j])@ == self.commands@[j]@,
            decreases self.commands.len() - i,
        {
            let command = self.commands[i].duplicate();
            commands.push(command);
            i = i + 1;
        }
        let copy = Command { names: copy_names(&self.names), help: self.help, props, flags, commands };
        assert(copy@.commands =~= self@.commands);
        copy
    }
}

impl Clone for Command {
    fn clone(&self) -> (copy: Self)
        ensures
            copy@ == self@,
    {
        self.duplicate()
    }
}

} // verus!
