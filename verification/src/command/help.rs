//! Help: who asked for it, and what it says.
//!
//! The help text of a command is its description, a usage line, and one section each for
//! its props, flags and subcommands. A section lists every definition on a line of its
//! own: a label, then the description, in a column that starts five characters behind
//! the longest label of the section. Widths count characters.

use super::{Command, CommandView, Flag, FlagView, Prop, PropView};
use crate::args::{Args, ArgsView};
use vstd::prelude::*;

verus! {

/// The name of the first command, from the root down, that has the flag `help` or `h`.
pub open spec fn asked_help(args: ArgsView) -> Option<Seq<char>>
    decreases args,
{
    if args.flags.contains("help"@) || args.flags.contains("h"@) {
        Some(args.name)
    } else {
        match args.subcommand {
            Some(child) => asked_help(*child),
            None => None,
        }
    }
}

/// The texts `parts` in a row, with `separator` between them.
pub open spec fn join(parts: Seq<Seq<char>>, separator: Seq<char>) -> Seq<char>
    decreases parts.len(),
{
    if parts.len() == 0 {
        Seq::empty()
    } else if parts.len() == 1 {
        parts.last()
    } else {
        join(parts.drop_last(), separator) + separator + parts.last()
    }
}

/// The upper-case form of a text, as `str::to_uppercase` gives it.
pub uninterp spec fn uppercase(text: Seq<char>) -> Seq<char>;

/// `n` spaces.
pub open spec fn spaces(n: nat) -> Seq<char> {
    Seq::new(n, |i: int| ' ')
}

/// The length of the longest of `labels`.
pub open spec fn widest(labels: Seq<Seq<char>>) -> nat
    decreases labels.len(),
{
    if labels.len() == 0 {
        0
    } else if widest(labels.drop_last()) >= labels.last().len() {
        widest(labels.drop_last())
    } else {
        labels.last().len()
    }
}

/// The label of a prop, given the upper-case form `upper` of its canonical name: its
/// names, then `=<`, `upper` and `>`.
pub open spec fn prop_label(prop: PropView, upper: Seq<char>) -> Seq<char> {
    join(prop.names, "/"@) + "=<"@ + upper + ">"@
}

/// The label of a flag: `+` and its names.
pub open spec fn flag_label(flag: FlagView) -> Seq<char> {
    "+"@ + join(flag.names, "/"@)
}

/// The label of a subcommand: its names.
pub open spec fn command_label(command: CommandView) -> Seq<char> {
    join(command.names, "/"@)
}

/// The labels of `props`.
pub open spec fn prop_labels(props: Seq<PropView>) -> Seq<Seq<char>> {
    props.map_values(|p: PropView| prop_label(p, uppercase(p.name())))
}

/// The labels of `flags`.
pub open spec fn flag_labels(flags: Seq<FlagView>) -> Seq<Seq<char>> {
    flags.map_values(|f: FlagView| flag_label(f))
}

/// The labels of `commands`.
pub open spec fn command_labels(commands: Seq<CommandView>) -> Seq<Seq<char>> {
    commands.map_values(|c: CommandView| command_label(c))
}

/// One line of a section whose longest label has `width` characters.
pub open spec fn row(label: Seq<char>, help: Seq<char>, width: nat) -> Seq<char> {
    "    "@ + label + spaces((width - label.len() + 5) as nat) + help + "\n"@
}

/// The lines of a section, one for each label and its description.
pub open spec fn rows(labels: Seq<Seq<char>>, helps: Seq<Seq<char>>, width: nat) -> Seq<char>
    decreases labels.len(),
{
    if labels.len() == 0 {
        Seq::empty()
    } else {
        rows(labels.drop_last(), helps.drop_last(), width) + row(labels.last(), helps.last(), width)
    }
}

/// A section: its title, its lines and an empty line; nothing at all if it has no lines.
pub open spec fn section(title: Seq<char>, labels: Seq<Seq<char>>, helps: Seq<Seq<char>>) -> Seq<
    char,
> {
    if labels.len() == 0 {
        Seq::empty()
    } else {
        title + "\n"@ + rows(labels, helps, widest(labels)) + "\n"@
    }
}

/// The required props in a usage line: ` name=<value>` for each.
pub open spec fn usage_required(props: Seq<PropView>) -> Seq<char>
    decreases props.len(),
{
    if props.len() == 0 {
        Seq::empty()
    } else if props.last().required {
        usage_required(props.drop_last()) + " "@ + props.last().name() + "=<value>"@
    } else {
        usage_required(props.drop_last())
    }
}

/// The optional props in a usage line: ` [name=<value>]` for each.
pub open spec fn usage_optional(props: Seq<PropView>) -> Seq<char>
    decreases props.len(),
{
    if props.len() == 0 {
        Seq::empty()
    } else if !props.last().required {
        usage_optional(props.drop_last()) + " ["@ + props.last().name() + "=<value>]"@
    } else {
        usage_optional(props.drop_last())
    }
}

/// The flags in a usage line: ` [+name]` for each.
pub open spec fn usage_flags(flags: Seq<FlagView>) -> Seq<char>
    decreases flags.len(),
{
    if flags.len() == 0 {
        Seq::empty()
    } else {
        usage_flags(flags.drop_last()) + " [+"@ + flags.last().name() + "]"@
    }
}

/// The usage line of a command: its name, its required props, its optional props, its
/// flags, and a note if it has subcommands.
pub open spec fn usage(command: CommandView) -> Seq<char> {
    "Usage: "@ + command.name() + usage_required(command.props) + usage_optional(command.props)
        + usage_flags(command.flags) + if command.commands.len() > 0 {
        " [COMMAND] [COMMAND ARGUMENTS]"@
    } else {
        Seq::empty()
    }
}

/// The help text of a command.
pub open spec fn help_text(command: CommandView) -> Seq<char> {
    command.help + "\n\n"@ + usage(command) + "\n\n"@ + section(
        "Props:"@,
        prop_labels(command.props),
        command.props.map_values(|p: PropView| p.help),
    ) + section(
        "Flags:"@,
        flag_labels(command.flags),
        command.flags.map_values(|f: FlagView| f.help),
    ) + section(
        "Commands:"@,
        command_labels(command.commands),
        command.commands.map_values(|c: CommandView| c.help),
    )
}

/// Returns the name of the command that help was asked for: the first command in the
/// chain, from the root down, on which the flag `help` or `h` is set.
pub fn requested_help(args: &Args) -> (name: Option<&str>)
    ensures
        match name {
            Some(n) => asked_help(args@) == Some(n@),
            None => asked_help(args@) is None,
        },
{
    let mut current: &Args = args;
    loop
        invariant
            asked_help(current@) == asked_help(args@),
        decreases current@.depth(),
    {
        if current.has_flag("help") || current.has_flag("h") {
            return Some(current.name.as_str());
        }
        match &current.subcommand {
            Some(child) => {
                current = child;
            },
            None => {
                return None;
            },
        }
    }
}

/// The upper-case form of `text`, by `str::to_uppercase`. What it is for a given text is
/// not stated here; the result is only named.
#[verifier::external_body]
fn to_uppercase(text: &str) -> (upper: String)
    ensures
        upper@ == uppercase(text@),
{
    text.to_uppercase()
}

/// Appends `names`, separated by `/`, to `out`.
fn push_names(out: &mut String, names: &Vec<&'static str>)
    ensures
        final(out)@ == old(out)@ + join(names.deep_view(), "/"@),
{
    let ghost all = names.deep_view();
    let mut i: usize = 0;
    while i < names.len()
        invariant
            i <= names.len(),
            all == names.deep_view(),
            out@ == old(out)@ + join(all.take(i as int), "/"@),
        decreases names.len() - i,
    {
        proof {
            assert(all.take(i + 1).drop_last() =~= all.take(i as int));
        }
        if i > 0 {
            out.append("/");
        }
        out.append(names[i]);
        i = i + 1;
    }
    assert(all.take(names.len() as int) =~= all);
}

/// The label of a prop whose canonical name in upper case is `upper`.
pub fn label_of_prop(prop: &Prop, upper: &str) -> (label: String)
    ensures
        label@ == prop_label(prop@, upper@),
{
    let mut label = String::new();
    push_names(&mut label, &prop.names);
    label.append("=<");
    label.append(upper);
    label.append(">");
    label
}

/// The label of a flag.
pub fn label_of_flag(flag: &Flag) -> (label: String)
    ensures
        label@ == flag_label(flag@),
{
    let mut label = String::from_str("+");
    push_names(&mut label, &flag.names);
    label
}

/// The label of a subcommand.
pub fn label_of_command(command: &Command) -> (label: String)
    ensures
        label@ == command_label(command@),
{
    let mut label = String::new();
    push_names(&mut label, &command.names);
    label
}

/// The length of the longest of `labels`.
fn widest_of(labels: &Vec<String>) -> (width: usize)
    ensures
        width == widest(labels.deep_view()),
{
    let ghost all = labels.deep_view();
    let mut width: usize = 0;
    let mut i: usize = 0;
    while i < labels.len()
        invariant
            i <= labels.len(),
            all == labels.deep_view(),
            width == widest(all.take(i as int)),
        decreases labels.len() - i,
    {
        proof {
            assert(all.take(i + 1).drop_last() =~= all.take(i as int));
        }
        let len = labels[i].as_str().unicode_len();
        if len > width {
            width = len;
        }
        i = i + 1;
    }
    assert(all.take(labels.len() as int) =~= all);
    width
}

/// No label is longer than the longest.
proof fn lemma_widest(labels: Seq<Seq<char>>, i: int)
    requires
        0 <= i < labels.len(),
    ensures
        labels[i].len() <= widest(labels),
    decreases labels.len(),
{
    if i < labels.len() - 1 {
        lemma_widest(labels.drop_last(), i);
    }
}

/// Appends `n` spaces to `out`.
fn push_spaces(out: &mut String, n: usize)
    ensures
        final(out)@ == old(out)@ + spaces(n as nat),
{
    let mut i: usize = 0;
    while i < n
        invariant
            i <= n,
            out@ == old(out)@ + spaces(i as nat),
        decreases n - i,
    {
        proof {
            reveal_strlit(" ");
        }
        out.append(" ");
        i = i + 1;
    }
}

/// Appends a section to `out`: the title, and a line for each label and its description.
/// Nothing is appended if there are no labels.
fn write_section(out: &mut String, title: &str, labels: &Vec<String>, helps: &Vec<&'static str>)
    requires
        labels@.len() == helps@.len(),
    ensures
        final(out)@ == old(out)@ + section(title@, labels.deep_view(), helps.deep_view()),
{
    let ghost texts = labels.deep_view();
    let ghost notes = helps.deep_view();
    if labels.len() == 0 {
        return;
    }
    let width = widest_of(labels);
    out.append(title);
    out.append("\n");
    let ghost head = out@;
    let mut i: usize = 0;
    while i < labels.len()
        invariant
            i <= labels.len(),
            labels@.len() == helps@.len(),
            texts == labels.deep_view(),
            notes == helps.deep_view(),
            width == widest(texts),
            out@ == head + rows(texts.take(i as int), notes.take(i as int), width as nat),
        decreases labels.len() - i,
    {
        let label = labels[i].as_str();
        let len = label.unicode_len();
        proof {
            lemma_widest(texts, i as int);
            assert(texts.take(i + 1).drop_last() =~= texts.take(i as int));
            assert(notes.take(i + 1).drop_last() =~= notes.take(i as int));
        }
        out.append("    ");
        out.append(label);
        push_spaces(out, width - len);
        push_spaces(out, 5);
        out.append(helps[i]);
        out.append("\n");
        i = i + 1;
    }
    proof {
        assert(texts.take(labels.len() as int) =~= texts);
        assert(notes.take(labels.len() as int) =~= notes);
    }
    out.append("\n");
}

/// Appends the usage line of `command` to `out`.
pub fn write_usage(out: &mut String, command: &Command)
    ensures
        final(out)@ == old(out)@ + usage(command@),
{
    let ghost def = command@;
    out.append("Usage: ");
    out.append(command.name());
    let ghost head = out@;
    let mut i: usize = 0;
    while i < command.props.len()
        invariant
            i <= command.props.len(),
            def == command@,
            out@ == head + usage_required(def.props.take(i as int)),
        decreases command.props.len() - i,
    {
        let prop = &command.props[i];
        proof {
            assert(def.props.take(i + 1).drop_last() =~= def.props.take(i as int));
        }
        if prop.is_required() {
            out.append(" ");
            out.append(prop.name());
            out.append("=<value>");
        }
        i = i + 1;
    }
    let ghost head = out@;
    let mut i: usize = 0;
    while i < command.props.len()
        invariant
            i <= command.props.len(),
            def == command@,
            out@ == head + usage_optional(def.props.take(i as int)),
        decreases command.props.len() - i,
    {
        let prop = &command.props[i];
        proof {
            assert(def.props.take(i + 1).drop_last() =~= def.props.take(i as int));
        }
        if !prop.is_required() {
            out.append(" [");
            out.append(prop.name());
            out.append("=<value>]");
        }
        i = i + 1;
    }
    assert(def.props.take(command.props.len() as int) =~= def.props);
    let ghost head = out@;
    let mut i: usize = 0;
    while i < command.flags.len()
        invariant
            i <= command.flags.len(),
            def == command@,
            out@ == head + usage_flags(def.flags.take(i as int)),
        decreases command.flags.len() - i,
    {
        let flag = &command.flags[i];
        proof {
            assert(def.flags.take(i + 1).drop_last() =~= def.flags.take(i as int));
        }
        out.append(" [+");
        out.append(flag.name());
        out.append("]");
        i = i + 1;
    }
    assert(def.flags.take(command.flags.len() as int) =~= def.flags);
    if command.commands.len() > 0 {
        out.append(" [COMMAND] [COMMAND ARGUMENTS]");
    }
}

/// Appends the help text of `command` to `out`.
pub fn write_help(out: &mut String, command: &Command)
    ensures
        final(out)@ == old(out)@ + help_text(command@),
{
    let ghost def = command@;
    out.append(command.help);
    out.append("\n\n");
    write_usage(out, command);
    out.append("\n\n");

    let mut labels: Vec<String> = Vec::new();
    let mut helps: Vec<&'static str> = Vec::new();
    let mut i: usize = 0;
    while i < command.props.len()
        invariant
            i <= command.props.len(),
            def == command@,
            labels@.len() == i,
            helps@.len() == i,
            labels.deep_view() == prop_labels(def.props.take(i as int)),
            helps.deep_view() == def.props.take(i as int).map_values(|p: PropView| p.help),
        decreases command.props.len() - i,
    {
        let ghost texts = labels.deep_view();
        let ghost notes = helps.deep_view();
        let prop = &command.props[i];
        let upper = to_uppercase(prop.name());
        let label = label_of_prop(prop, upper.as_str());
        labels.push(label);
        helps.push(prop.help);
        i = i + 1;
        proof {
            assert(labels.deep_view() =~= texts.push(prop_label(prop@, uppercase(prop@.name()))));
            assert(helps.deep_view() =~= notes.push(prop@.help));
        }
    }
    assert(def.props.take(command.props.len() as int) =~= def.props);
    write_section(out, "Props:", &labels, &helps);

    let mut labels: Vec<String> = Vec::new();
    let mut helps: Vec<&'static str> = Vec::new();
    let mut i: usize = 0;
    while i < command.flags.len()
        invariant
            i <= command.flags.len(),
            def == command@,
            labels@.len() == i,
            helps@.len() == i,
            labels.deep_view() == flag_labels(def.flags.take(i as int)),
            helps.deep_view() == def.flags.take(i as int).map_values(|f: FlagView| f.help),
        decreases command.flags.len() - i,
    {
        let ghost texts = labels.deep_view();
        let ghost notes = helps.deep_view();
        let flag = &command.flags[i];
        labels.push(label_of_flag(flag));
        helps.push(flag.help);
        i = i + 1;
        proof {
            assert(labels.deep_view() =~= texts.push(flag_label(flag@)));
            assert(helps.deep_view() =~= notes.push(flag@.help));
        }
    }
    assert(def.flags.take(command.flags.len() as int) =~= def.flags);
    write_section(out, "Flags:", &labels, &helps);

    let mut labels: Vec<String> = Vec::new();
    let mut helps: Vec<&'static str> = Vec::new();
    let mut i: usize = 0;
    while i < command.commands.len()
        invariant
            i <= command.commands.len(),
            def == command@,
            labels@.len() == i,
            helps@.len() == i,
            labels.deep_view() == command_labels(def.commands.take(i as int)),
            helps.deep_view() == def.commands.take(i as int).map_values(|c: CommandView| c.help),
        decreases command.commands.len() - i,
    {
        let ghost texts = labels.deep_view();
        let ghost notes = helps.deep_view();
        let sub = &command.commands[i];
        labels.push(label_of_command(sub));
        helps.push(sub.help);
        i = i + 1;
        proof {
            assert(labels.deep_view() =~= texts.push(command_label(sub@)));
            assert(helps.deep_view() =~= notes.push(sub@.help));
        }
    }
    assert(def.commands.take(command.commands.len() as int) =~= def.commands);
    write_section(out, "Commands:", &labels, &helps);
}

impl Command {
    /// The help text to show, if the arguments ask for help: that of the subcommand of
    /// this command that carries the name of the command on which help was asked for.
    ///
    /// This works on a tree that has not been validated, so that help is shown even where
    /// a required prop is missing.
    pub fn intercept_help(&self, args: &Args) -> (text: Option<String>)
        ensures
            match text {
                Some(t) => asked_help(args@) is Some && self@.find_command(asked_help(args@)->0)
                    is Some && t@ == help_text(self@.find_command(asked_help(args@)->0)->0),
                None => asked_help(args@) is None || self@.find_command(asked_help(args@)->0)
                    is None,
            },
    {
        match requested_help(args) {
            Some(name) => match self.get_subcommand(name) {
                Some(command) => {
                    let mut text = String::new();
                    write_help(&mut text, command);
                    Some(text)
                },
                None => None,
            },
            None => None,
        }
    }
}

} // verus!
