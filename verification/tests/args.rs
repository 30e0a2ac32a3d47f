use bind_args::args::{add_flag, classify_arg, set_prop, Part};
use bind_args::Args;

#[test]
fn args_no_args() {
    let cmdline: [&str; 0] = [];
    let args = Args::parse_from(&cmdline);
    assert_eq!(args.name, "");
    assert!(args.flags.is_empty());
    assert!(args.props.is_empty());
    assert!(args.subcommand.is_none());
}

#[test]
fn args_args_with_whitespace() {
    let cmdline = ["", " ", "\t", "\n"];
    let args = Args::parse_from(&cmdline);

    assert_eq!(args.name, "");
    assert!(args.flags.is_empty());
    assert!(args.props.is_empty());
    assert!(args.subcommand.is_none());
}

#[test]
fn args_arguments_starting_with_equals_sign_treated_as_a_command() {
    let cmdline = ["exe", "=value"];
    let cmd = Args::parse_from(&cmdline);
    assert!(cmd.props.is_empty());
    assert_eq!(cmd.subcommand.unwrap().name, "=value");
}

#[test]
fn args_flags_props_and_subcommands() {
    let cmdline = [
        "exe", "+flag1", "prop=1", "command1", "+flag2", "prop=2", "command2", "+flag3",
    ];
    let cmd = Args::parse_from(&cmdline);

    assert_eq!(cmd.name, "exe");
    assert_eq!(cmd.flags, vec![String::from("flag1")]);
    assert_eq!(cmd.props, vec![(String::from("prop"), String::from("1"))]);

    assert!(cmd.subcommand.is_some());
    let sub = cmd.subcommand.unwrap();
    assert_eq!(sub.name, "command1");
    assert_eq!(sub.flags, vec![String::from("flag2")]);
    assert_eq!(sub.props, vec![(String::from("prop"), String::from("2"))]);

    assert!(sub.subcommand.is_some());
    let subsub = sub.subcommand.unwrap();
    assert_eq!(subsub.name, "command2");
    assert_eq!(subsub.flags, vec![String::from("flag3")]);
}

#[test]
fn help_arguments_set_the_help_flag() {
    let args = Args::parse_from(&["exe", "-h", "sub", "--help"]);
    assert_eq!(args.flags, vec![String::from("help")]);
    let sub = args.subcommand.unwrap();
    assert_eq!(sub.flags, vec![String::from("help")]);
}

#[test]
fn arguments_are_trimmed() {
    let args = Args::parse_from(&["exe", "  +verbose ", "\tlevel=3\n", " run "]);
    assert_eq!(args.flags, vec![String::from("verbose")]);
    assert_eq!(args.props, vec![(String::from("level"), String::from("3"))]);
    assert_eq!(args.subcommand.unwrap().name, "run");
}

#[test]
fn a_flag_is_kept_once_and_a_prop_takes_the_later_value() {
    let args = Args::parse_from(&["exe", "+a", "k=1", "+b", "+a", "j=x", "k=2"]);
    assert_eq!(args.flags, vec![String::from("a"), String::from("b")]);
    assert_eq!(
        args.props,
        vec![
            (String::from("k"), String::from("2")),
            (String::from("j"), String::from("x"))
        ]
    );
    assert!(args.has_flag("a"));
    assert!(!args.has_flag("c"));
    assert_eq!(args.prop("k"), Some("2"));
    assert_eq!(args.prop("missing"), None);
}

#[test]
fn a_prop_splits_at_the_first_equals_sign() {
    let args = Args::parse_from(&["exe", "a=b=c", "empty="]);
    assert_eq!(
        args.props,
        vec![
            (String::from("a"), String::from("b=c")),
            (String::from("empty"), String::from(""))
        ]
    );
}

#[test]
fn a_lone_plus_is_a_flag_without_a_name() {
    let args = Args::parse_from(&["exe", "+"]);
    assert_eq!(args.flags, vec![String::from("")]);
}

#[test]
fn classify_tells_the_parts_apart() {
    assert!(matches!(classify_arg("  "), Part::Blank));
    assert!(matches!(classify_arg("+x"), Part::Flag(name) if name == "x"));
    assert!(matches!(classify_arg("-h"), Part::Flag(name) if name == "help"));
    assert!(matches!(classify_arg("--help"), Part::Flag(name) if name == "help"));
    assert!(matches!(classify_arg("k=v"), Part::Prop(k, v) if k == "k" && v == "v"));
    assert!(matches!(classify_arg("=v"), Part::Command(name) if name == "=v"));
    assert!(matches!(classify_arg("--flag"), Part::Command(name) if name == "--flag"));
    assert!(matches!(classify_arg("run"), Part::Command(name) if name == "run"));
}

#[test]
fn add_flag_and_set_prop_keep_names_unique() {
    let mut flags = vec![String::from("a")];
    add_flag(&mut flags, String::from("b"));
    add_flag(&mut flags, String::from("a"));
    assert_eq!(flags, vec![String::from("a"), String::from("b")]);

    let mut props = vec![(String::from("k"), String::from("1"))];
    set_prop(&mut props, String::from("j"), String::from("2"));
    set_prop(&mut props, String::from("k"), String::from("3"));
    assert_eq!(
        props,
        vec![
            (String::from("k"), String::from("3")),
            (String::from("j"), String::from("2"))
        ]
    );
}
