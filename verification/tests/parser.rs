use bind_args::argument::Argument;
use bind_args::parser::{Command, Flag, Parser, Positional, Switch};

fn rest_of<'a>(r: &Option<(Argument, &'a [&'a str])>) -> Vec<&'a str> {
    r.as_ref().unwrap().1.to_vec()
}

#[test]
fn a_flag_is_accepted_in_its_long_and_its_short_form() {
    let flag = Parser::Flag(Flag::new("verbose", 'v'));
    let r = flag.parse(&["--verbose", "x"]);
    assert_eq!(r.as_ref().unwrap().0, Argument::Flag("verbose"));
    assert_eq!(rest_of(&r), vec!["x"]);
    let r = flag.parse(&["-v"]);
    assert_eq!(r.as_ref().unwrap().0, Argument::Flag("verbose"));
    assert!(rest_of(&r).is_empty());

    assert_eq!(flag.parse(&[]), None);
    assert_eq!(flag.parse(&["verbose"]), None);
    assert_eq!(flag.parse(&["--verbos"]), None);
    assert_eq!(flag.parse(&["-x"]), None);
    assert_eq!(flag.parse(&["-vv"]), None);
    assert_eq!(flag.parse(&["-"]), None);
    assert_eq!(flag.parse(&["--v"]), None);
}

#[test]
fn a_switch_takes_its_value_from_the_same_or_the_next_argument() {
    let switch = Parser::Switch(Switch::new("message", 'm'));

    let r = switch.parse(&["--message", "hello", "x"]);
    assert_eq!(r.as_ref().unwrap().0, Argument::Switch("message", "hello".to_string()));
    assert_eq!(rest_of(&r), vec!["x"]);

    let r = switch.parse(&["--message=hello", "x"]);
    assert_eq!(r.as_ref().unwrap().0, Argument::Switch("message", "hello".to_string()));
    assert_eq!(rest_of(&r), vec!["x"]);

    let r = switch.parse(&["-m", "hello"]);
    assert_eq!(r.as_ref().unwrap().0, Argument::Switch("message", "hello".to_string()));
    assert!(rest_of(&r).is_empty());

    let r = switch.parse(&["-m=a=b", "x", "y"]);
    assert_eq!(r.as_ref().unwrap().0, Argument::Switch("message", "a=b".to_string()));
    assert_eq!(rest_of(&r), vec!["x", "y"]);

    let r = switch.parse(&["--message="]);
    assert_eq!(r.as_ref().unwrap().0, Argument::Switch("message", "".to_string()));
}

#[test]
fn a_switch_refuses_what_is_not_its_own() {
    let switch = Parser::Switch(Switch::new("message", 'm'));
    assert_eq!(switch.parse(&[]), None);
    assert_eq!(switch.parse(&["--message"]), None);
    assert_eq!(switch.parse(&["-m"]), None);
    assert_eq!(switch.parse(&["--other=hello"]), None);
    assert_eq!(switch.parse(&["--other", "hello"]), None);
    assert_eq!(switch.parse(&["-x", "hello"]), None);
    assert_eq!(switch.parse(&["-x=hello"]), None);
    assert_eq!(switch.parse(&["-mm=hello"]), None);
    assert_eq!(switch.parse(&["-=hello"]), None);
    assert_eq!(switch.parse(&["message=hello"]), None);
    assert_eq!(switch.parse(&["-message", "hello"]), None);
}

#[test]
fn a_command_is_accepted_by_its_name_or_its_letter() {
    let command = Parser::Command(Command::new("remote", 'r'));
    let r = command.parse(&["remote", "add"]);
    assert_eq!(r.as_ref().unwrap().0, Argument::Command("remote"));
    assert_eq!(rest_of(&r), vec!["add"]);
    let r = command.parse(&["r"]);
    assert_eq!(r.as_ref().unwrap().0, Argument::Command("remote"));
    assert_eq!(command.parse(&["rr"]), None);
    assert_eq!(command.parse(&["x"]), None);
    assert_eq!(command.parse(&[""]), None);
    assert_eq!(command.parse(&[]), None);
}

#[test]
fn a_positional_argument_is_anything_without_a_dash_in_front() {
    let positional = Parser::Positional(Positional::new("file"));
    let r = positional.parse(&["a.txt", "-x"]);
    assert_eq!(r.as_ref().unwrap().0, Argument::Positional("file", "a.txt".to_string()));
    assert_eq!(rest_of(&r), vec!["-x"]);
    let r = positional.parse(&[""]);
    assert_eq!(r.as_ref().unwrap().0, Argument::Positional("file", "".to_string()));
    assert_eq!(positional.parse(&["-x"]), None);
    assert_eq!(positional.parse(&["--"]), None);
    assert_eq!(positional.parse(&[]), None);
}

#[test]
fn a_single_character_counts_characters_not_bytes() {
    let flag = Parser::Flag(Flag::new("ete", 'é'));
    assert_eq!(flag.parse(&["-é"]).unwrap().0, Argument::Flag("ete"));
    let command = Parser::Command(Command::new("ete", 'é'));
    assert_eq!(command.parse(&["é"]).unwrap().0, Argument::Command("ete"));
    assert_eq!(command.parse(&["éé"]), None);
}
