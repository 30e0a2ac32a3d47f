use bind_args::{parse, ParseError};

#[test]
fn end_of_options() {
    let mut bag = parse(&["program", "--", "a", "--b"]).unwrap();
    let ignored = bag.remove_ignored();

    assert_eq!(ignored, vec![String::from("a"), String::from("--b")]);
}

#[test]
fn malformed_option() {
    let result = parse(&["program", "--=value"]);
    assert_eq!(
        result,
        Err(ParseError::MalformedOption("--=value".to_string()))
    );

    let result = parse(&["program", "--s=value"]);
    assert_eq!(
        result,
        Err(ParseError::MalformedOption("--s=value".to_string()))
    );

    let result = parse(&["program", "-long=value"]);
    assert_eq!(
        result,
        Err(ParseError::MalformedOption("-long=value".to_string()))
    );
}

#[test]
fn malformed_flag() {
    let result = parse(&["program", "--s"]);
    assert_eq!(result, Err(ParseError::MalformedFlag("--s".to_string())));

    let result = parse(&["program", "-long"]);
    assert_eq!(result, Err(ParseError::MalformedFlag("-long".to_string())));
}

#[test]
fn remove_option() {
    // =-separated
    let mut result = parse(&["program", "--opt1=val1", "--opt2=val2"]).unwrap();
    assert!(!result.is_empty());
    assert_eq!(result.remove_option("opt1"), Some("val1".to_string()));
    assert_eq!(result.remove_option("opt2"), Some("val2".to_string()));
    assert_eq!(result.remove_option("opt2"), None);
    assert!(result.is_empty());

    // space separated
    let mut bag = parse(&["program", "--opt1", "val1", "--opt2", "val2"]).unwrap();
    assert_eq!(bag.remove_option("opt1"), Some("val1".to_string()));
    assert_eq!(bag.remove_option("opt2"), Some("val2".to_string()));
    assert_eq!(bag.remove_option("opt2"), None);
    assert!(bag.is_empty());

    // does not remove flags
    let mut bag = parse(&["program", "--opt1"]).unwrap();
    assert_eq!(bag.remove_option("opt1"), None);
    assert!(bag.remove_flag("opt1"));
    assert!(!bag.remove_flag("opt1"));
}

#[test]
fn remove_flag() {
    let mut result = parse(&["prgoram", "--flag1", "--flag2"]).unwrap();
    assert!(!result.is_empty());
    assert!(result.remove_flag("flag1"));
    assert!(result.remove_flag("flag2"));
    assert!(!result.remove_flag("flag2"));
    assert!(result.is_empty());
}

#[test]
fn remove_operand() {
    let mut result = parse(&["program", "a", "b"]).unwrap();
    assert!(!result.is_empty());
    assert_eq!(result.remove_operand().as_deref(), Some("a"));
    assert_eq!(result.remove_operand().as_deref(), Some("b"));
    assert_eq!(result.remove_operand(), None);
    assert!(result.is_empty());
}

#[test]
fn remove_order_matters() {
    let mut bag = parse(&["program", "--option", "value"]).unwrap();
    assert_eq!(bag.remove_option("option").as_deref(), Some("value"));
    assert!(!bag.remove_flag("option"));
    assert!(bag.is_empty());

    let mut bag = parse(&["program", "--option", "value"]).unwrap();
    assert!(bag.remove_flag("option"));
    assert_eq!(bag.remove_option("option").as_deref(), None);
    assert_eq!(bag.remove_operand().as_deref(), Some("value"));
    assert!(bag.is_empty());
}

fn strings(items: &[&str]) -> Vec<String> {
    items.iter().map(|s| s.to_string()).collect()
}

#[test]
fn remaining_gives_the_arguments_back() {
    let raw = [
        "prog", "a", "--flag", "-f", "--name=value", "-n=value", "", "  ", "b", "--kk=", "-x=a=b",
        "--", "c", "",
    ];
    let mut bag = parse(&raw).unwrap();
    assert_eq!(
        bag.remove_remaining(),
        strings(&["a", "--flag", "-f", "--name=value", "-n=value", "b", "--kk=", "-x=a=b"])
    );
    assert!(bag.is_empty());
    assert!(bag.remove_remaining().is_empty());
    assert_eq!(bag.remove_ignored(), strings(&["c", ""]));
    assert!(bag.remove_ignored().is_empty());
}

#[test]
fn the_tail_is_kept_apart() {
    let mut bag = parse(&["p", "a", "--", "b", "c"]).unwrap();
    assert_eq!(bag.remove_remaining(), strings(&["a"]));
    assert_eq!(bag.remove_ignored(), strings(&["b", "c"]));
}

#[test]
fn the_tail_is_never_read() {
    let mut bag = parse(&["p", "--", "--s", "-long", "--=value", "--", " "]).unwrap();
    assert!(bag.is_empty());
    assert_eq!(
        bag.remove_ignored(),
        strings(&["--s", "-long", "--=value", "--", " "])
    );
}

#[test]
fn an_error_before_the_marker_ends_the_parse() {
    assert_eq!(
        parse(&["p", "ok", "--s", "--", "-long"]),
        Err(ParseError::MalformedFlag("--s".to_string()))
    );
    assert_eq!(
        parse(&["p", "-ab=1", "--s"]),
        Err(ParseError::MalformedOption("-ab=1".to_string()))
    );
    assert_eq!(parse(&["p", "-"]), Err(ParseError::MalformedFlag("-".to_string())));
    assert_eq!(parse(&["p", "-="]), Err(ParseError::MalformedOption("-=".to_string())));
    assert_eq!(parse(&["p", "---"]), Err(ParseError::MalformedFlag("---".to_string())));
}

#[test]
fn the_program_name_is_the_first_argument() {
    let bag = parse(&["git"]).unwrap();
    assert_eq!(bag.program_name, "git");
    assert_eq!(bag.program(), "git");
    assert!(bag.is_empty());

    let bag = parse(&[]).unwrap();
    assert_eq!(bag.program_name, "");
    assert!(bag.is_empty());

    let mut bag = parse(&["", "x"]).unwrap();
    assert_eq!(bag.program_name, "");
    assert_eq!(bag.remove_operand().as_deref(), Some("x"));

    let mut bag = parse(&["--weird", "x"]).unwrap();
    assert_eq!(bag.program_name, "--weird");
    assert!(!bag.remove_flag("weird"));
    assert_eq!(bag.remove_remaining(), strings(&["x"]));
}

#[test]
fn blank_arguments_are_skipped_and_not_counted() {
    let mut bag = parse(&["p", " ", "a", "", "\t\n", "b"]).unwrap();
    assert_eq!(bag.remove_operand_at(1).as_deref(), Some("b"));
    assert_eq!(bag.remove_operand_at(0).as_deref(), Some("a"));
    assert!(bag.is_empty());
}

#[test]
fn operands_keep_their_numbers() {
    let mut bag = parse(&["p", "a", "-x", "b", "c"]).unwrap();
    assert_eq!(bag.remove_operand_at(1).as_deref(), Some("b"));
    assert_eq!(bag.remove_operand_at(1), None);
    assert_eq!(bag.remove_operand_at(2).as_deref(), Some("c"));
    assert_eq!(bag.remove_operand_at(0).as_deref(), Some("a"));
    assert_eq!(bag.remove_operand_at(0), None);
    assert_eq!(bag.remove_operand_at(3), None);
    assert_eq!(bag.remove_remaining(), strings(&["-x"]));
}

#[test]
fn a_flag_then_its_operand_or_an_option() {
    let mut bag = parse(&["p", "--opt", "v"]).unwrap();
    assert!(bag.remove_flag("opt"));
    assert_eq!(bag.remove_operand_at(0), Some("v".to_string()));
    assert!(bag.is_empty());

    let mut bag = parse(&["p", "--opt", "v"]).unwrap();
    assert_eq!(bag.remove_option("opt"), Some("v".to_string()));
    assert!(bag.is_empty());
}

#[test]
fn a_taken_operand_no_longer_follows_the_switch() {
    let mut bag = parse(&["p", "--opt", "v", "w"]).unwrap();
    assert_eq!(bag.remove_operand().as_deref(), Some("v"));
    assert_eq!(bag.remove_option("opt"), None);
    assert!(bag.remove_flag("opt"));
    assert_eq!(bag.remove_remaining(), strings(&["w"]));
}

#[test]
fn the_first_switch_of_a_name_decides() {
    // a flag that is followed by a switch is no option, whatever comes later
    let mut bag = parse(&["p", "--opt", "--opt=v"]).unwrap();
    assert_eq!(bag.remove_option("opt"), None);
    assert!(bag.remove_flag("opt"));
    assert_eq!(bag.remove_option("opt").as_deref(), Some("v"));
    assert!(bag.is_empty());

    let mut bag = parse(&["p", "--opt=1", "--opt", "2"]).unwrap();
    assert_eq!(bag.remove_option("opt").as_deref(), Some("1"));
    assert_eq!(bag.remove_option("opt").as_deref(), Some("2"));
    assert_eq!(bag.remove_option("opt"), None);
}

#[test]
fn a_name_that_is_given_twice_can_be_taken_twice() {
    let mut bag = parse(&["p", "-v", "x", "--vv", "--vv"]).unwrap();
    assert!(bag.remove_flag("v"));
    assert!(!bag.remove_flag("v"));
    assert!(bag.remove_flag("vv"));
    assert!(bag.remove_flag("vv"));
    assert!(!bag.remove_flag("vv"));
}

#[test]
fn remove_flag_leaves_options_alone() {
    let mut bag = parse(&["p", "--opt=v", "-o=w"]).unwrap();
    assert!(!bag.remove_flag("opt"));
    assert!(!bag.remove_flag("o"));
    assert_eq!(bag.remove_option("o").as_deref(), Some("w"));
    assert_eq!(bag.remove_remaining(), strings(&["--opt=v"]));
}

#[test]
fn names_are_measured_in_characters() {
    let mut bag = parse(&["p", "-é", "--éé=1"]).unwrap();
    assert!(bag.remove_flag("é"));
    assert_eq!(bag.remove_option("éé").as_deref(), Some("1"));
    assert_eq!(
        parse(&["p", "--é"]),
        Err(ParseError::MalformedFlag("--é".to_string()))
    );
}

#[test]
fn an_at_sign_starts_an_operand() {
    let mut bag = parse(&["p", "@a", "@b"]).unwrap();
    assert_eq!(bag.remove_operand_at(1).as_deref(), Some("@b"));
    assert_eq!(bag.remove_remaining(), strings(&["@a"]));
}

#[test]
fn parse_error_messages() {
    assert_eq!(
        ParseError::MalformedOption("--=v".to_string()).message(),
        "'--=v' is not a valid option"
    );
    assert_eq!(
        ParseError::MalformedFlag("--s".to_string()).message(),
        "'--s' is not a valid flag"
    );
}

#[test]
fn a_bag_can_be_copied_and_compared() {
    let bag = parse(&["p", "a", "-x"]).unwrap();
    let mut copy = bag.clone();
    assert_eq!(bag, copy);
    assert!(copy.remove_flag("x"));
    assert_ne!(bag, copy);
}

#[test]
fn the_default_bag_is_empty() {
    let mut bag = bind_args::ArgumentBag::default();
    assert_eq!(bag.program_name, "");
    assert!(bag.is_empty());
    assert!(bag.remove_remaining().is_empty());
    assert!(bag.remove_ignored().is_empty());
    assert_eq!(bag, parse(&[]).unwrap());
}

#[test]
fn scenarios_of_malformed_arguments() {
    assert_eq!(parse(&["p", "--s"]), Err(ParseError::MalformedFlag("--s".to_string())));
    assert_eq!(
        parse(&["p", "--=value"]),
        Err(ParseError::MalformedOption("--=value".to_string()))
    );
    assert_eq!(parse(&["p", "-long"]), Err(ParseError::MalformedFlag("-long".to_string())));
}
