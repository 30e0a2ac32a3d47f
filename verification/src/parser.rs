//! Parsers for single definitions: each looks at the front of an argument list, and
//! accepts what its definition describes or nothing.
//!
//! | parser       | accepts                                            | takes      |
//! |--------------|----------------------------------------------------|------------|
//! | `Command`    | `long`, or the one character `short`               | 1 argument |
//! | `Flag`       | `--long` or `-s`                                   | 1 argument |
//! | `Switch`     | `--long=value` or `-s=value`                       | 1 argument |
//! | `Switch`     | `--long value` or `-s value`                       | 2 arguments |
//! | `Positional` | an argument that does not start with `-`           | 1 argument |

use crate::argument::{Argument, ArgumentView};
use crate::text::{find_char, str_eq, views};
use itertools::Itertools;
use vstd::prelude::*;
use vstd::slice::slice_subrange;

verus! {

/// A parser as a mathematical value.
pub enum ParserView {
    Flag { long: Seq<char>, short: char },
    Switch { long: Seq<char>, short: char },
    Positional { name: Seq<char> },
    Command { long: Seq<char>, short: char },
}

/// What a parser accepts: an argument, and the arguments that are left.
pub type Accepted = Option<(ArgumentView, Seq<Seq<char>>)>;

/// Whether `text` is the one character `short`.
pub open spec fn is_short(text: Seq<char>, short: char) -> bool {
    text.len() == 1 && text[0] == short
}

/// Whether `arg` starts with two dashes.
pub open spec fn is_long_form(arg: Seq<char>) -> bool {
    arg.len() >= 2 && arg[0] == '-' && arg[1] == '-'
}

/// Whether `arg` starts with one dash, and not with two.
pub open spec fn is_short_form(arg: Seq<char>) -> bool {
    arg.len() >= 1 && arg[0] == '-' && !is_long_form(arg)
}

/// The value of a switch that stands in an argument of its own: the next argument.
pub open spec fn value_behind(long: Seq<char>, rest: Seq<Seq<char>>) -> Accepted {
    if rest.len() == 0 {
        None
    } else {
        Some((ArgumentView::Switch(long, rest.first()), rest.drop_first()))
    }
}

/// What the command `long`, with the short name `short`, accepts of `args`.
pub open spec fn accept_command(long: Seq<char>, short: char, args: Seq<Seq<char>>) -> Accepted {
    if args.len() > 0 && (args.first() == long || is_short(args.first(), short)) {
        Some((ArgumentView::Command(long), args.drop_first()))
    } else {
        None
    }
}

/// What the flag `long`, with the short name `short`, accepts of `args`.
pub open spec fn accept_flag(long: Seq<char>, short: char, args: Seq<Seq<char>>) -> Accepted {
    if args.len() == 0 {
        None
    } else if is_long_form(args.first()) && args.first().skip(2) == long {
        Some((ArgumentView::Flag(long), args.drop_first()))
    } else if is_short_form(args.first()) && is_short(args.first().skip(1), short) {
        Some((ArgumentView::Flag(long), args.drop_first()))
    } else {
        None
    }
}

/// What the switch `long`, with the short name `short`, accepts of `args`.
///
/// Behind its dashes the first argument is the name alone, and the value is the next
/// argument; or it is the name, the first `=` and the value.
pub open spec fn accept_switch(long: Seq<char>, short: char, args: Seq<Seq<char>>) -> Accepted {
    if args.len() == 0 {
        None
    } else {
        let arg = args.first();
        let rest = args.drop_first();
        if is_long_form(arg) {
            let body = arg.skip(2);
            if body == long {
                value_behind(long, rest)
            } else {
                match body.index_of_first('=') {
                    Some(i) => {
                        if body.take(i) == long {
                            Some((ArgumentView::Switch(long, body.skip(i + 1)), rest))
                        } else {
                            None
                        }
                    },
                    None => None,
                }
            }
        } else if is_short_form(arg) {
            let body = arg.skip(1);
            if body.len() == 1 {
                if body[0] == short {
                    value_behind(long, rest)
                } else {
                    None
                }
            } else {
                match body.index_of_first('=') {
                    Some(i) => {
                        if is_short(body.take(i), short) {
                            Some((ArgumentView::Switch(long, body.skip(i + 1)), rest))
                        } else {
                            None
                        }
                    },
                    None => None,
                }
            }
        } else {
            None
        }
    }
}

/// What the positional argument `name` accepts of `args`.
pub open spec fn accept_positional(name: Seq<char>, args: Seq<Seq<char>>) -> Accepted {
    if args.len() == 0 || (args.first().len() > 0 && args.first()[0] == '-') {
        None
    } else {
        Some((ArgumentView::Positional(name, args.first()), args.drop_first()))
    }
}

/// What `parser` accepts of `args`.
pub open spec fn accept(parser: ParserView, args: Seq<Seq<char>>) -> Accepted {
    match parser {
        ParserView::Command { long, short } => accept_command(long, short, args),
        ParserView::Flag { long, short } => accept_flag(long, short, args),
        ParserView::Switch { long, short } => accept_switch(long, short, args),
        ParserView::Positional { name } => accept_positional(name, args),
    }
}

/// A parser takes arguments from the front only: what it leaves is what followed.
pub proof fn lemma_accept_leaves_suffix(parser: ParserView, args: Seq<Seq<char>>)
    ensures
        accept(parser, args) matches Some((_, rest)) ==> args.len() > 0 && (rest
            == args.drop_first() || (args.len() > 1 && rest == args.skip(2))),
{
}

/// The only character of `text`, by `Itertools::exactly_one` on its characters: the
/// character if `text` holds exactly one, nothing if it holds none or several.
#[verifier::external_body]
fn single_char(text: &str) -> (c: Option<char>)
    ensures
        c == (if text@.len() == 1 {
            Some(text@[0])
        } else {
            None
        }),
{
    text.chars().exactly_one().ok()
}

/// `text` without its first `n` characters.
fn without_front(text: &str, n: usize) -> (body: &str)
    requires
        n <= text@.len(),
    ensures
        body@ == text@.skip(n as int),
{
    text.substring_char(n, text.unicode_len())
}

/// Whether `arg` starts with two dashes.
fn starts_long(arg: &str) -> (b: bool)
    ensures
        b == is_long_form(arg@),
{
    arg.unicode_len() >= 2 && arg.get_char(0) == '-' && arg.get_char(1) == '-'
}

/// Whether `arg` starts with one dash, and not with two.
fn starts_short(arg: &str) -> (b: bool)
    ensures
        b == is_short_form(arg@),
{
    arg.unicode_len() >= 1 && arg.get_char(0) == '-' && !starts_long(arg)
}

/// The arguments behind the first.
fn behind_first<'i>(args: &'i [&'i str]) -> (rest: &'i [&'i str])
    requires
        args@.len() > 0,
    ensures
        views(rest@) == views(args@).drop_first(),
{
    slice_subrange(args, 1, args.len())
}

/// The value of the switch `long` in the argument of its own that `rest` starts with.
fn take_value<'i>(long: &'static str, rest: &'i [&'i str]) -> (r: Option<(Argument, &'i [&'i str])>)
    ensures
        match r {
            Some((argument, left)) => value_behind(long@, views(rest@)) == Some(
                (argument@, views(left@)),
            ),
            None => value_behind(long@, views(rest@)) is None,
        },
{
    if rest.len() == 0 {
        return None;
    }
    Some((Argument::Switch(long, rest[0].to_owned()), behind_first(rest)))
}

/// A parser for a command with a long and a short name.
pub struct Command {
    long: &'static str,
    short: char,
}

impl View for Command {
    /// The long and the short name.
    type V = (Seq<char>, char);

    closed spec fn view(&self) -> (Seq<char>, char) {
        (self.long@, self.short)
    }
}

impl Command {
    /// A parser for the command `long`, which may be written as the one character `short`.
    pub fn new(long: &'static str, short: char) -> (parser: Self)
        ensures
            parser@ == (long@, short),
    {
        Command { long, short }
    }

    fn parse<'i>(&self, args: &'i [&'i str]) -> (r: Option<(Argument, &'i [&'i str])>)
        ensures
            match r {
                Some((argument, rest)) => accept_command(self.long@, self.short, views(args@))
                    == Some((argument@, views(rest@))),
                None => accept_command(self.long@, self.short, views(args@)) is None,
            },
    {
        if args.len() == 0 {
            return None;
        }
        let arg: &str = args[0];
        if str_eq(arg, self.long) {
            return Some((Argument::Command(self.long), behind_first(args)));
        }
        match single_char(arg) {
            Some(c) => {
                if c == self.short {
                    Some((Argument::Command(self.long), behind_first(args)))
                } else {
                    None
                }
            },
            None => None,
        }
    }
}

/// A parser for a switch with a long and a short name. A switch has a value.
pub struct Switch {
    long: &'static str,
    short: char,
}

impl View for Switch {
    /// The long and the short name.
    type V = (Seq<char>, char);

    closed spec fn view(&self) -> (Seq<char>, char) {
        (self.long@, self.short)
    }
}

impl Switch {
    /// A parser for the switch `--long`, which may be written as `-short`.
    pub fn new(long: &'static str, short: char) -> (parser: Self)
        ensures
            parser@ == (long@, short),
    {
        Switch { long, short }
    }

    fn parse<'i>(&self, args: &'i [&'i str]) -> (r: Option<(Argument, &'i [&'i str])>)
        ensures
            match r {
                Some((argument, rest)) => accept_switch(self.long@, self.short, views(args@))
                    == Some((argument@, views(rest@))),
                None => accept_switch(self.long@, self.short, views(args@)) is None,
            },
    {
        if args.len() == 0 {
            return None;
        }
        let arg: &str = args[0];
        let rest = behind_first(args);
        if starts_long(arg) {
            let body = without_front(arg, 2);
            if str_eq(body, self.long) {
                return take_value(self.long, rest);
            }
            let len = body.unicode_len();
            proof {
                body@.index_of_first_ensures('=');
            }
            return match find_char(body, '=') {
                Some(i) => {
                    if str_eq(body.substring_char(0, i), self.long) {
                        let value = body.substring_char(i + 1, len);
                        Some((Argument::Switch(self.long, value.to_owned()), rest))
                    } else {
                        None
                    }
                },
                None => None,
            };
        }
        if starts_short(arg) {
            let body = without_front(arg, 1);
            match single_char(body) {
                Some(c) => {
                    if c != self.short {
                        return None;
                    }
                    return take_value(self.long, rest);
                },
                None => {},
            }
            let len = body.unicode_len();
            proof {
                body@.index_of_first_ensures('=');
            }
            return match find_char(body, '=') {
                Some(i) => {
                    match single_char(body.substring_char(0, i)) {
                        Some(c) => {
                            if c == self.short {
                                let value = body.substring_char(i + 1, len);
                                Some((Argument::Switch(self.long, value.to_owned()), rest))
                            } else {
                                None
                            }
                        },
                        None => None,
                    }
                },
                None => None,
            };
        }
        None
    }
}

/// A parser for a flag with a long and a short name. A flag has no value.
pub struct Flag {
    long: &'static str,
    short: char,
}

impl View for Flag {
    /// The long and the short name.
    type V = (Seq<char>, char);

    closed spec fn view(&self) -> (Seq<char>, char) {
        (self.long@, self.short)
    }
}

impl Flag {
    /// A parser for the flag `--long`, which may be written as `-short`.
    pub fn new(long: &'static str, short: char) -> (parser: Self)
        ensures
            parser@ == (long@, short),
    {
        Flag { long, short }
    }

    fn parse<'i>(&self, args: &'i [&'i str]) -> (r: Option<(Argument, &'i [&'i str])>)
        ensures
            match r {
                Some((argument, rest)) => accept_flag(self.long@, self.short, views(args@))
                    == Some((argument@, views(rest@))),
                None => accept_flag(self.long@, self.short, views(args@)) is None,
            },
    {
        if args.len() == 0 {
            return None;
        }
        let arg: &str = args[0];
        if starts_long(arg) {
            if !str_eq(without_front(arg, 2), self.long) {
                return None;
            }
            return Some((Argument::Flag(self.long), behind_first(args)));
        }
        if starts_short(arg) {
            return match single_char(without_front(arg, 1)) {
                Some(c) => {
                    if c == self.short {
                        Some((Argument::Flag(self.long), behind_first(args)))
                    } else {
                        None
                    }
                },
                None => None,
            };
        }
        None
    }
}

/// A parser for a positional argument.
pub struct Positional {
    name: &'static str,
}

impl View for Positional {
    /// The name.
    type V = Seq<char>;

    closed spec fn view(&self) -> Seq<char> {
        self.name@
    }
}

impl Positional {
    /// A parser for the positional argument called `name`.
    pub fn new(name: &'static str) -> (parser: Self)
        ensures
            parser@ == name@,
    {
        Positional { name }
    }

    fn parse<'i>(&self, args: &'i [&'i str]) -> (r: Option<(Argument, &'i [&'i str])>)
        ensures
            match r {
                Some((argument, rest)) => accept_positional(self.name@, views(args@)) == Some(
                    (argument@, views(rest@)),
                ),
                None => accept_positional(self.name@, views(args@)) is None,
            },
    {
        if args.len() == 0 {
            return None;
        }
        let arg: &str = args[0];
        if arg.unicode_len() > 0 && arg.get_char(0) == '-' {
            return None;
        }
        Some((Argument::Positional(self.name, arg.to_owned()), behind_first(args)))
    }
}

/// A parser for one definition.
pub enum Parser {
    Flag(Flag),
    Switch(Switch),
    Positional(Positional),
    Command(Command),
}

impl View for Parser {
    type V = ParserView;

    open spec fn view(&self) -> ParserView {
        match self {
            Parser::Flag(f) => ParserView::Flag { long: f@.0, short: f@.1 },
            Parser::Switch(s) => ParserView::Switch { long: s@.0, short: s@.1 },
            Parser::Positional(p) => ParserView::Positional { name: p@ },
            Parser::Command(c) => ParserView::Command { long: c@.0, short: c@.1 },
        }
    }
}

impl Parser {
    /// Parses the front of `args`: the argument that this parser accepts and the
    /// arguments behind it, or nothing if the front is not what the parser describes.
    pub fn parse<'i>(&self, args: &'i [&'i str]) -> (r: Option<(Argument, &'i [&'i str])>)
        ensures
            match r {
                Some((argument, rest)) => accept(self@, views(args@)) == Some(
                    (argument@, views(rest@)),
                ),
                None => accept(self@, views(args@)) is None,
            },
    {
        match self {
            Parser::Command(c) => c.parse(args),
            Parser::Flag(f) => f.parse(args),
            Parser::Switch(s) => s.parse(args),
            Parser::Positional(p) => p.parse(args),
        }
    }
}

} // verus!
