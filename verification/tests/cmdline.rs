use bind_args::cmdline::{is_help_arg, CmdLine};

#[test]
fn cmdline_no_args() {
    let cmdline: [&str; 0] = [];
    let args = CmdLine::parse_from(&cmdline).to_args();
    assert_eq!(args.name, "");
    assert!(args.flags.is_empty());
    assert!(args.props.is_empty());
    assert!(args.subcommand.is_none());
}

#[test]
fn cmdline_args_with_whitespace() {
    let cmdline = ["", " ", "\t", "\n"];
    let args = CmdLine::parse_from(&cmdline).to_args();

    assert_eq!(args.name, "");
    assert!(args.flags.is_empty());
    assert!(args.props.is_empty());
    assert!(args.subcommand.is_none());
}

#[test]
fn cmdline_arguments_starting_with_equals_sign_treated_as_a_command() {
    let cmdline = ["exe", "=value"];
    let cmd = CmdLine::parse_from(&cmdline).to_args();
    assert!(cmd.props.is_empty());
    assert_eq!(cmd.subcommand.unwrap().name, "=value");
}

#[test]
fn cmdline_flags_props_and_subcommands() {
    let cmdline = [
        "exe", "+flag1", "prop=1", "command1", "+flag2", "prop=2", "command2", "+flag3",
    ];
    let cmd = CmdLine::parse_from(&cmdline).to_args();
    assert_eq!(cmd.name, "exe");
    assert_eq!(cmd.flags, vec![String::from("flag1")]);
    assert_eq!(cmd.props, vec![(String::from("prop"), String::from("1"))]);

    assert!(cmd.subcommand.is_some());
    let sub = cmd.subcommand.unwrap();
    assert_eq!(sub.name, "command1");
    assert_eq!(sub.flags, vec![String::from("flag2")]);
    assert_eq!(sub.props, vec![(String::from("prop"), String::from("2"))]);

    assert!(sub.subcommand.is_some());
    let subsub = sub.subcommand.unwrap();
    assert_eq!(subsub.name, "command2");
    assert_eq!(subsub.flags, vec![String::from("flag3")]);
}

#[test]
fn help_short_circuits() {
    let cmdline = ["exe", "+flag1", "command1", "+h", "command2"];
    let help = CmdLine::parse_from(&cmdline).to_help();
    assert_eq!(help.path, ["exe", "command1"]);
}

#[test]
fn every_help_flag_is_recognised() {
    for flag in ["-h", "+h", "--help", "+help", "  --help "] {
        assert!(is_help_arg(flag));
        let help = CmdLine::parse_from(&["exe", "a", "b", flag, "c"]).to_help();
        assert_eq!(help.path, ["exe", "a", "b"]);
    }
    assert!(!is_help_arg("help"));
    assert!(!is_help_arg("-help"));
    assert!(!is_help_arg("--h"));
}

#[test]
fn help_at_the_root_gives_the_program_alone() {
    let help = CmdLine::parse_from(&["exe", "k=v", "+help", "sub"]).to_help();
    assert_eq!(help.path, ["exe"]);
}
