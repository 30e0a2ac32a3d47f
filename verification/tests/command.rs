use bind_args::command::help::{requested_help, write_help, write_usage};
use bind_args::{Args, ArgumentKind, Command, Flag, InvalidArguments, Prop};

#[test]
fn building_command_tree() {
    let app = Command::new("my-command", "my-command-help")
        .add_flag(Flag::new("flag-1", "flag-1-help").add_alias("f1"))
        .add_prop(
            Prop::new("prop-1", "prop-1-help")
                .add_alias("p1")
                .make_required(),
        )
        .add_command(
            Command::new("my-subcommand", "my-subcommand-help")
                .add_alias("c1")
                .add_prop(Prop::new("prop-2", "prop-2-help").add_alias("p2")),
        );

    assert_eq!(app.get_flag("f1").unwrap().name(), "flag-1");
    assert_eq!(app.get_prop("p1").unwrap().name(), "prop-1");

    let subcommand = app.get_subcommand("c1").unwrap();
    assert_eq!(subcommand.name(), "my-subcommand");
    assert_eq!(subcommand.get_prop("p2").unwrap().name(), "prop-2");
}

#[test]
fn help_text() {
    let app = Command::new("root", "root help")
        .add_flag(Flag::new("flag1", "flag1 help"))
        .add_prop(Prop::new("prop1", "prop1 help").make_required())
        .add_prop(Prop::new("prop2", "prop2 help"))
        .add_command(Command::new("sub", "sub help"));

    let mut result = String::new();
    write_help(&mut result, &app);

    let expected = [
        "root help\n\n",
        "Usage: root prop1=<value> [prop2=<value>] [+flag1] [COMMAND] [COMMAND ARGUMENTS]\n",
        "\n",
        "Props:\n",
        "    prop1=<PROP1>     prop1 help\n",
        "    prop2=<PROP2>     prop2 help\n",
        "\n",
        "Flags:\n",
        "    +flag1     flag1 help\n",
        "\n",
        "Commands:\n",
        "    sub     sub help\n",
        "\n",
    ]
    .join("");
    assert_eq!(result, expected);
}

#[test]
fn retrieve_arguments_using_primary_name() {
    let app = Command::new("my-command", "").add_flag(Flag::new("flag", "").add_alias("f"));
    let args = app.parse_from(&["exe", "+f"]).unwrap();
    assert!(args.flags.contains(&"flag".to_string()));
}

fn git() -> Command {
    Command::new("git", "the stupid content tracker")
        .add_flag(Flag::new("verbose", "be loud").add_alias("v"))
        .add_command(
            Command::new("remote", "manage remotes")
                .add_alias("r")
                .add_prop(Prop::new("level", "how deep").add_alias("l").make_required())
                .add_flag(Flag::new("verbose", "be loud").add_alias("v"))
                .add_command(
                    Command::new("add", "add a remote")
                        .add_alias("a")
                        .add_prop(Prop::new("url", "where").add_alias("u").make_required())
                        .add_prop(Prop::new("name", "what to call it")),
                ),
        )
}

fn unrecognized(name: &str, kind: ArgumentKind) -> InvalidArguments {
    InvalidArguments::UnrecognizedArgument { name: name.to_string(), kind }
}

#[test]
fn a_required_prop_must_be_given() {
    let app = Command::new("app", "").add_prop(Prop::new("level", "").add_alias("l").make_required());

    let args = Args::parse_from(&["exe"]);
    assert_eq!(
        Command::validate(&app, &args),
        Err(InvalidArguments::MissingRequiredOptions("level".to_string()))
    );
    assert_eq!(
        app.parse_from(&["exe", "+x"]).unwrap_err(),
        unrecognized("x", ArgumentKind::Flag)
    );

    let mut args = Args::parse_from(&["exe", "l=x"]);
    assert_eq!(Command::validate(&app, &args), Ok(()));
    Command::resolve_aliases(&app, &mut args);
    assert_eq!(args.props, vec![("level".to_string(), "x".to_string())]);
}

#[test]
fn the_first_missing_prop_in_definition_order_is_reported() {
    let app = Command::new("app", "")
        .add_prop(Prop::new("a", "").make_required())
        .add_prop(Prop::new("b", ""))
        .add_prop(Prop::new("c", "").make_required())
        .add_prop(Prop::new("d", "").make_required());
    let args = Args::parse_from(&["exe", "a=1", "b=2"]);
    assert_eq!(
        Command::validate(&app, &args),
        Err(InvalidArguments::MissingRequiredOptions("c".to_string()))
    );
    let args = Args::parse_from(&["exe", "d=1", "c=2", "a=3"]);
    assert_eq!(Command::validate(&app, &args), Ok(()));
}

#[test]
fn unknown_names_are_reported_with_their_kind() {
    let app = git();
    assert_eq!(
        app.parse_from(&["git", "+verbose", "+color"]).unwrap_err(),
        unrecognized("color", ArgumentKind::Flag)
    );
    assert_eq!(
        app.parse_from(&["git", "depth=1"]).unwrap_err(),
        unrecognized("depth", ArgumentKind::Prop)
    );
    assert_eq!(
        app.parse_from(&["git", "push"]).unwrap_err(),
        unrecognized("push", ArgumentKind::Command)
    );
}

#[test]
fn flags_are_checked_before_props_and_props_before_required_ones() {
    let app = Command::new("app", "").add_prop(Prop::new("need", "").make_required());
    assert_eq!(
        app.parse_from(&["exe", "k=v", "+f"]).unwrap_err(),
        unrecognized("f", ArgumentKind::Flag)
    );
    assert_eq!(
        app.parse_from(&["exe", "k=v"]).unwrap_err(),
        unrecognized("k", ArgumentKind::Prop)
    );
}

#[test]
fn three_levels_are_validated_one_after_the_other() {
    let app = git();
    let args = app
        .parse_from(&["git", "+v", "r", "l=2", "+verbose", "a", "u=example.org", "name=origin"])
        .unwrap();
    assert_eq!(args.name, "git");
    assert_eq!(args.flags, vec!["verbose".to_string()]);
    let remote = args.subcommand.unwrap();
    assert_eq!(remote.name, "remote");
    assert_eq!(remote.flags, vec!["verbose".to_string()]);
    assert_eq!(remote.props, vec![("level".to_string(), "2".to_string())]);
    let add = remote.subcommand.unwrap();
    assert_eq!(add.name, "add");
    assert_eq!(
        add.props,
        vec![
            ("url".to_string(), "example.org".to_string()),
            ("name".to_string(), "origin".to_string())
        ]
    );
    assert!(add.subcommand.is_none());

    // the root fails first, though the levels below are wrong as well
    assert_eq!(
        app.parse_from(&["git", "+nope", "remote", "+nope2", "add"]).unwrap_err(),
        unrecognized("nope", ArgumentKind::Flag)
    );
    // the second level fails before the third is looked at
    assert_eq!(
        app.parse_from(&["git", "remote", "add", "+nope"]).unwrap_err(),
        InvalidArguments::MissingRequiredOptions("level".to_string())
    );
    // the third level
    assert_eq!(
        app.parse_from(&["git", "remote", "level=1", "add"]).unwrap_err(),
        InvalidArguments::MissingRequiredOptions("url".to_string())
    );
}

#[test]
fn an_unknown_subcommand_fails_whatever_stands_below_it() {
    let app = git();
    assert_eq!(
        app.parse_from(&["git", "remote", "level=1", "prune"]).unwrap_err(),
        unrecognized("prune", ArgumentKind::Command)
    );
    assert_eq!(
        app.parse_from(&["git", "remote", "level=1", "prune", "+x", "y=z", "deeper"]).unwrap_err(),
        unrecognized("prune", ArgumentKind::Command)
    );
    assert_eq!(
        app.parse_from(&["git", "fetch", "remote", "add"]).unwrap_err(),
        unrecognized("fetch", ArgumentKind::Command)
    );
}

#[test]
fn resolving_merges_aliases_of_one_definition() {
    let app = Command::new("app", "")
        .add_flag(Flag::new("verbose", "").add_alias("v"))
        .add_flag(Flag::new("quiet", "").add_alias("q"))
        .add_prop(Prop::new("level", "").add_alias("l"));
    let args = app
        .parse_from(&["exe", "+v", "+q", "+verbose", "l=1", "level=2"])
        .unwrap();
    assert_eq!(args.flags, vec!["verbose".to_string(), "quiet".to_string()]);
    assert_eq!(args.props, vec![("level".to_string(), "2".to_string())]);
}

#[test]
fn resolving_leaves_unknown_names_alone() {
    let app = git();
    let mut args = Args::parse_from(&["exe", "+v", "+x", "k=1", "nope", "+v"]);
    Command::resolve_aliases(&app, &mut args);
    assert_eq!(args.name, "exe");
    assert_eq!(args.flags, vec!["verbose".to_string(), "x".to_string()]);
    assert_eq!(args.props, vec![("k".to_string(), "1".to_string())]);
    let sub = args.subcommand.unwrap();
    assert_eq!(sub.name, "nope");
    assert_eq!(sub.flags, vec!["v".to_string()]);
}

#[test]
fn the_first_definition_that_carries_a_name_wins() {
    let app = Command::new("app", "")
        .add_flag(Flag::new("one", "").add_alias("x"))
        .add_flag(Flag::new("two", "").add_alias("x"));
    assert_eq!(app.get_flag("x").unwrap().name(), "one");
    assert_eq!(app.get_flag("two").unwrap().name(), "two");
    assert!(app.get_flag("three").is_none());
    assert!(app.get_prop("x").is_none());
    assert!(app.get_subcommand("x").is_none());
}

#[test]
fn requested_help_finds_the_first_command_that_asks() {
    let args = Args::parse_from(&["exe", "+verbose", "remote", "-h", "add", "+help"]);
    assert_eq!(requested_help(&args), Some("remote"));
    let args = Args::parse_from(&["exe", "+h"]);
    assert_eq!(requested_help(&args), Some("exe"));
    let args = Args::parse_from(&["exe", "remote", "add", "--help"]);
    assert_eq!(requested_help(&args), Some("add"));
    let args = Args::parse_from(&["exe", "remote", "help=no", "help"]);
    assert_eq!(requested_help(&args), None);
}

#[test]
fn help_is_found_where_validation_fails() {
    let app = git();
    let args = Args::parse_from(&["git", "remote", "-h"]);
    assert!(Command::validate(&app, &args).is_err());
    let text = app.intercept_help(&args).unwrap();
    assert_eq!(
        text,
        [
            "manage remotes\n\n",
            "Usage: remote level=<value> [+verbose] [COMMAND] [COMMAND ARGUMENTS]\n",
            "\n",
            "Props:\n",
            "    level/l=<LEVEL>     how deep\n",
            "\n",
            "Flags:\n",
            "    +verbose/v     be loud\n",
            "\n",
            "Commands:\n",
            "    add/a     add a remote\n",
            "\n",
        ]
        .join("")
    );
    // no help flag, or a command that is no subcommand of the root
    assert_eq!(app.intercept_help(&Args::parse_from(&["git", "remote"])), None);
    assert_eq!(app.intercept_help(&Args::parse_from(&["git", "-h"])), None);
    assert_eq!(app.intercept_help(&Args::parse_from(&["git", "remote", "add", "-h"])), None);
}

#[test]
fn labels_are_padded_to_the_widest_of_their_section() {
    let app = Command::new("app", "about")
        .add_flag(Flag::new("a", "first"))
        .add_flag(Flag::new("longer", "second").add_alias("l"));
    let mut text = String::from(">");
    write_help(&mut text, &app);
    assert_eq!(
        text,
        [
            ">about\n\n",
            "Usage: app [+a] [+longer]\n",
            "\n",
            "Flags:\n",
            "    +a            first\n",
            "    +longer/l     second\n",
            "\n",
        ]
        .join("")
    );
}

#[test]
fn usage_of_a_plain_command() {
    let mut text = String::new();
    write_usage(&mut text, &Command::new("app", "about").add_alias("a"));
    assert_eq!(text, "Usage: app");
}

#[test]
fn messages() {
    assert_eq!(
        unrecognized("x", ArgumentKind::Flag).message(),
        "x is not a valid flag"
    );
    assert_eq!(
        unrecognized("x", ArgumentKind::Prop).message(),
        "x is not a valid option"
    );
    assert_eq!(
        unrecognized("x", ArgumentKind::Command).message(),
        "x is not a valid command"
    );
    assert_eq!(
        InvalidArguments::MissingRequiredOptions("level".to_string()).message(),
        "missing required option 'level'"
    );
    assert_eq!(ArgumentKind::Prop.to_str(), "option");
}

#[test]
fn builders_keep_what_was_there() {
    let prop = Prop::new("level", "how deep").add_alias("l");
    assert_eq!(prop.name(), "level");
    assert!(!prop.is_required());
    let prop = prop.make_required().add_alias("lvl");
    assert_eq!(prop.name(), "level");
    assert!(prop.is_required());
    let app = Command::new("app", "").add_alias("a").add_prop(prop);
    assert_eq!(app.name(), "app");
    assert_eq!(app.get_prop("lvl").unwrap().name(), "level");
    assert!(app.get_prop("lvl").unwrap().is_required());
}

#[test]
fn definitions_can_be_copied() {
    let app = git();
    let copy = app.clone();
    let line = ["git", "+v", "r", "l=2", "a", "u=x"];
    assert_eq!(
        copy.parse_from(&line).unwrap().subcommand.unwrap().props,
        app.parse_from(&line).unwrap().subcommand.unwrap().props
    );
    let mut a = String::new();
    let mut b = String::new();
    write_help(&mut a, &app);
    write_help(&mut b, &copy);
    assert_eq!(a, b);
    let flag = Flag::new("verbose", "be loud").add_alias("v");
    assert_eq!(flag.clone().name(), "verbose");
    let error = unrecognized("x", ArgumentKind::Flag);
    assert_eq!(error.clone(), error);
}
