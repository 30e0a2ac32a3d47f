//! What a parser makes of the arguments it accepts.

use vstd::prelude::*;

verus! {

/// An argument that a parser accepted, under the name its definition gives it.
#[derive(Debug, PartialEq, Eq)]
pub enum Argument {
    /// A positional argument and its value.
    Positional(&'static str, String),
    /// A flag.
    Flag(&'static str),
    /// A switch and its value.
    Switch(&'static str, String),
    /// A command.
    Command(&'static str),
}

/// An `Argument` as a mathematical value.
pub enum ArgumentView {
    Positional(Seq<char>, Seq<char>),
    Flag(Seq<char>),
    Switch(Seq<char>, Seq<char>),
    Command(Seq<char>),
}

impl View for Argument {
    type V = ArgumentView;

    open spec fn view(&self) -> ArgumentView {
        match self {
            Argument::Positional(name, value) => ArgumentView::Positional(name@, value@),
            Argument::Flag(name) => ArgumentView::Flag(name@),
            Argument::Switch(name, value) => ArgumentView::Switch(name@, value@),
            Argument::Command(name) => ArgumentView::Command(name@),
        }
    }
}

impl Clone for Argument {
    fn clone(&self) -> (copy: Self)
        ensures
            copy@ == self@,
    {
        match self {
            Argument::Positional(name, value) => Argument::Positional(*name, value.clone()),
            Argument::Flag(name) => Argument::Flag(*name),
            Argument::Switch(name, value) => Argument::Switch(*name, value.clone()),
            Argument::Command(name) => Argument::Command(*name),
        }
    }
}

} // verus!
