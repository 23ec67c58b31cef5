use rgparse::{ArgError, Args, Parameter, ParseError, Parser};

fn tokens(items: &[&str]) -> Vec<String> {
    items.iter().map(|s| s.to_string()).collect()
}

fn sample() -> Parser {
    let mut parser = Parser::new("sample");
    parser.add_parameter(Parameter::param("--count", "How many").alias("-c").default(&3));
    parser.add_parameter(Parameter::param("--name", "Whose").alias("-n"));
    parser.add_parameter(Parameter::flag("--verbose", "Say more").alias("-v"));
    parser.add_parameter(Parameter::flag("--dry-run", "Do nothing"));
    parser
}

#[test]
fn can_create_parser() {
    let _parser = Parser::new("");
}

#[test]
fn can_parse() {
    let mut parser = Parser::new("Test Parser 0");
    parser.add_parameter(Parameter::param("--test", "A test parameter").alias("-t"));
    println!("{:?}", parser.parse_args(&tokens(&[])));
}

#[test]
fn alias_round_trip() {
    let mut parser = Parser::new("round trip");
    parser.add_parameter(Parameter::param("--count", "How many").alias("-c"));
    parser.add_parameter(Parameter::flag("--verbose", "Say more").alias("-v"));
    parser.add_parameter(Parameter::flag("--quiet", "Say less"));
    let args = parser.parse_args(&tokens(&["-c", "5"])).unwrap();
    assert_eq!(args.get::<u32>("--count"), Ok(5));
    assert!(!args.flag("--verbose"));
    assert!(!args.flag("--quiet"));
    assert!(args.positional.is_empty());
}

#[test]
fn canonical_name_round_trip() {
    let args = sample().parse_args(&tokens(&["--name", "Ada", "--count", "12"])).unwrap();
    assert_eq!(args.get::<String>("--name"), Ok(String::from("Ada")));
    assert_eq!(args.get::<u64>("--count"), Ok(12));
}

#[test]
fn missing_required_with_no_tokens() {
    let mut parser = Parser::new("missing");
    parser.add_parameter(Parameter::param("--name", "A name"));
    let error = parser.parse_args(&tokens(&[])).unwrap_err();
    assert_eq!(error, ParseError::MissingRequired { names: tokens(&["--name"]) });
    assert_ne!(error.exit_status(), 0);
}

#[test]
fn missing_required_names_every_parameter_in_registration_order() {
    let mut parser = Parser::new("missing");
    parser.add_parameter(Parameter::param("--b", "second letter"));
    parser.add_parameter(Parameter::param("--d", "with default").default(&"x"));
    parser.add_parameter(Parameter::param("--a", "first letter"));
    parser.add_parameter(Parameter::param("--c", "third letter"));
    let error = parser.parse_args(&tokens(&["--c", "1", "stray"])).unwrap_err();
    assert_eq!(error, ParseError::MissingRequired { names: tokens(&["--b", "--a"]) });
}

#[test]
fn last_occurrence_wins() {
    let mut parser = Parser::new("last");
    parser.add_parameter(Parameter::param("--arg", "An argument"));
    let args = parser.parse_args(&tokens(&["--arg", "1", "--arg", "2"])).unwrap();
    assert_eq!(args.get::<String>("--arg"), Ok(String::from("2")));
    assert_eq!(args.get::<u8>("--arg"), Ok(2));
}

#[test]
fn last_occurrence_wins_across_alias_and_name() {
    let args = sample().parse_args(&tokens(&["-n", "a", "--name", "b", "-n", "c"])).unwrap();
    assert_eq!(args.get::<String>("--name"), Ok(String::from("c")));
}

#[test]
fn default_is_used_where_the_input_gives_no_value() {
    let args = sample().parse_args(&tokens(&["--name", "x"])).unwrap();
    assert_eq!(args.get::<u32>("--count"), Ok(3));
    assert_eq!(args.get::<String>("--count"), Ok(String::from("3")));
}

#[test]
fn input_overrides_default() {
    let args = sample().parse_args(&tokens(&["--name", "x", "-c", "9"])).unwrap();
    assert_eq!(args.get::<u32>("--count"), Ok(9));
}

#[test]
fn flags_are_false_unless_mentioned() {
    let args = sample().parse_args(&tokens(&["--name", "x"])).unwrap();
    assert!(!args.flag("--verbose"));
    assert!(!args.flag("--dry-run"));
    assert!(!args.flag("-v"));
    assert!(!args.flag("--never-registered"));
}

#[test]
fn flags_are_true_however_often_mentioned() {
    let args = sample()
        .parse_args(&tokens(&["-v", "--name", "x", "--verbose", "-v", "--dry-run"]))
        .unwrap();
    assert!(args.flag("--verbose"));
    assert!(args.flag("--dry-run"));
    assert!(!args.flag("-v"));
}

#[test]
fn positional_arguments_keep_their_order() {
    let args = sample()
        .parse_args(&tokens(&["one", "-v", "two", "--name", "x", "three", "-c", "4", "two"]))
        .unwrap();
    assert_eq!(args.positional, tokens(&["one", "two", "three", "two"]));
    assert_eq!(args.positional_arguments(), &tokens(&["one", "two", "three", "two"]));
}

#[test]
fn unknown_dashed_tokens_are_positional() {
    let args = sample().parse_args(&tokens(&["--name", "x", "--unknown", "-x", "-"])).unwrap();
    assert_eq!(args.positional, tokens(&["--unknown", "-x", "-"]));
}

#[test]
fn a_value_is_taken_whatever_it_looks_like() {
    let args = sample().parse_args(&tokens(&["--name", "-v", "--count", "--help"])).unwrap();
    assert_eq!(args.get::<String>("--name"), Ok(String::from("-v")));
    assert_eq!(args.get::<String>("--count"), Ok(String::from("--help")));
    assert!(!args.flag("--verbose"));
    assert!(args.positional.is_empty());
}

#[test]
fn missing_value_when_parameter_comes_last() {
    let error = sample().parse_args(&tokens(&["pos", "--name"])).unwrap_err();
    assert_eq!(error, ParseError::MissingValue { name: String::from("--name") });
    assert_eq!(error.exit_status(), 1);
    assert_eq!(error.notice(), None);
}

#[test]
fn missing_value_names_the_canonical_name() {
    let error = sample().parse_args(&tokens(&["--name", "x", "-c"])).unwrap_err();
    assert_eq!(error, ParseError::MissingValue { name: String::from("--count") });
}

#[test]
fn help_is_requested_by_either_token() {
    let short = sample().parse_args(&tokens(&["--name", "x", "-h"])).unwrap_err();
    assert_eq!(short, ParseError::HelpRequested);
    assert_eq!(short.exit_status(), 0);
    assert_eq!(short.notice(), None);
    let long = sample().parse_args(&tokens(&["--help"])).unwrap_err();
    assert_eq!(long, ParseError::HelpRequested);
}

#[test]
fn help_comes_before_a_later_missing_value() {
    let error = sample().parse_args(&tokens(&["--help", "--name"])).unwrap_err();
    assert_eq!(error, ParseError::HelpRequested);
}

#[test]
fn help_comes_before_missing_required() {
    let error = sample().parse_args(&tokens(&["-h"])).unwrap_err();
    assert_eq!(error, ParseError::HelpRequested);
}

#[test]
fn registered_help_flag_shadows_the_built_in_help() {
    let mut parser = Parser::new("shadow");
    parser.add_parameter(Parameter::flag("--help", "My own help"));
    let args = parser.parse_args(&tokens(&["--help"])).unwrap();
    assert!(args.flag("--help"));
    let error = parser.parse_args(&tokens(&["-h"])).unwrap_err();
    assert_eq!(error, ParseError::HelpRequested);
}

#[test]
fn registered_help_alias_shadows_the_built_in_help() {
    let mut parser = Parser::new("shadow");
    parser.add_parameter(Parameter::param("--host", "Where to").alias("-h"));
    let args = parser.parse_args(&tokens(&["-h", "example.org"])).unwrap();
    assert_eq!(args.get::<String>("--host"), Ok(String::from("example.org")));
    let error = parser.parse_args(&tokens(&["-h"])).unwrap_err();
    assert_eq!(error, ParseError::MissingValue { name: String::from("--host") });
}

#[test]
fn later_registration_replaces_the_same_name() {
    let mut parser = Parser::new("twice");
    parser.add_parameter(Parameter::flag("--mode", "As a flag"));
    parser.add_parameter(Parameter::param("--mode", "As a parameter").default(&"fast"));
    let args = parser.parse_args(&tokens(&["--mode", "slow"])).unwrap();
    assert_eq!(args.get::<String>("--mode"), Ok(String::from("slow")));
    assert!(!args.flag("--mode"));
}

#[test]
fn later_registration_replaces_the_same_alias() {
    let mut parser = Parser::new("twice");
    parser.add_parameter(Parameter::flag("--all", "Everything").alias("-a"));
    parser.add_parameter(Parameter::flag("--any", "Anything").alias("-a"));
    let args = parser.parse_args(&tokens(&["-a"])).unwrap();
    assert!(args.flag("--any"));
    assert!(!args.flag("--all"));
}

#[test]
fn a_parameter_registered_again_as_a_flag_asks_for_no_value() {
    let mut parser = Parser::new("twice");
    parser.add_parameter(Parameter::param("--mode", "As a parameter"));
    parser.add_parameter(Parameter::flag("--mode", "As a flag"));
    let args = parser.parse_args(&tokens(&["--mode"])).unwrap();
    assert!(args.flag("--mode"));
    assert!(args.positional.is_empty());
    assert_eq!(args.raw("--mode"), None);
    let args = parser.parse_args(&tokens(&[])).unwrap();
    assert!(!args.flag("--mode"));
}

#[test]
fn a_parameter_registered_again_as_a_flag_loses_its_default() {
    let mut parser = Parser::new("twice");
    parser.add_parameter(Parameter::param("--mode", "As a parameter").default(&"fast"));
    parser.add_parameter(Parameter::param("--other", "Stays").default(&"kept"));
    parser.add_parameter(Parameter::flag("--mode", "As a flag"));
    let args = parser.parse_args(&tokens(&["--mode", "slow"])).unwrap();
    assert!(args.flag("--mode"));
    assert_eq!(args.positional, tokens(&["slow"]));
    assert_eq!(args.raw("--mode"), None);
    assert_eq!(
        args.get::<String>("--mode"),
        Err(ArgError::Unrecognized { name: String::from("--mode") })
    );
    assert_eq!(args.raw("--other"), Some(&String::from("kept")));
}

#[test]
fn a_name_registered_as_parameter_flag_and_parameter_is_required_again() {
    let mut parser = Parser::new("thrice");
    parser.add_parameter(Parameter::param("--a", "First").default(&"1"));
    parser.add_parameter(Parameter::param("--mode", "As a parameter").default(&"fast"));
    parser.add_parameter(Parameter::flag("--mode", "As a flag"));
    parser.add_parameter(Parameter::param("--mode", "As a parameter again"));
    let error = parser.parse_args(&tokens(&[])).unwrap_err();
    assert_eq!(error, ParseError::MissingRequired { names: tokens(&["--mode"]) });
    let args = parser.parse_args(&tokens(&["--mode", "slow"])).unwrap();
    assert_eq!(args.raw("--mode"), Some(&String::from("slow")));
    assert!(!args.flag("--mode"));
}

#[test]
fn a_default_on_a_flag_is_not_read() {
    let mut parser = Parser::new("flag default");
    parser.add_parameter(Parameter::flag("--force", "Do it anyway").default(&"yes"));
    let args = parser.parse_args(&tokens(&[])).unwrap();
    assert!(!args.flag("--force"));
    assert_eq!(
        args.get::<String>("--force"),
        Err(ArgError::Unrecognized { name: String::from("--force") })
    );
}

#[test]
fn later_alias_and_default_replace_earlier_ones() {
    let mut parser = Parser::new("builder");
    parser.add_parameter(
        Parameter::param("--level", "How deep").alias("-x").alias("-l").default(&1).default(&2),
    );
    let args = parser.parse_args(&tokens(&["-x"])).unwrap();
    assert_eq!(args.positional, tokens(&["-x"]));
    assert_eq!(args.get::<i64>("--level"), Ok(2));
    let args = parser.parse_args(&tokens(&["-l", "7"])).unwrap();
    assert_eq!(args.get::<i64>("--level"), Ok(7));
}

#[test]
fn default_text_sets_the_default_as_it_is() {
    let mut parser = Parser::new("builder");
    parser.add_parameter(Parameter::param("--path", "Where").default_text(String::from("/tmp")));
    let args = parser.parse_args(&tokens(&[])).unwrap();
    assert_eq!(args.get::<String>("--path"), Ok(String::from("/tmp")));
}

#[test]
fn names_need_no_dashes_and_must_match_exactly() {
    let mut parser = Parser::new("plain");
    parser.add_parameter(Parameter::param("size", "How big"));
    parser.add_parameter(Parameter::flag("fast", "Hurry"));
    let input = tokens(&["siz", "size", "10", "fas", "fast", "faster", "Fast"]);
    let args = parser.parse_args(&input).unwrap();
    assert_eq!(args.get::<u16>("size"), Ok(10));
    assert!(args.flag("fast"));
    assert_eq!(args.positional, tokens(&["siz", "fas", "faster", "Fast"]));
}

#[test]
fn empty_input_with_nothing_required() {
    let mut parser = Parser::new("empty");
    parser.add_parameter(Parameter::flag("--x", "A flag"));
    let args = parser.parse_args(&tokens(&[])).unwrap();
    assert!(args.positional.is_empty());
    assert!(!args.flag("--x"));
}

#[test]
fn unrecognized_and_conversion_errors() {
    let mut parser = Parser::new("errors");
    parser.add_parameter(Parameter::param("--n", "A number").default(&"abc"));
    parser.add_parameter(Parameter::flag("--f", "A flag"));
    let args = parser.parse_args(&tokens(&["--f"])).unwrap();
    let conversion = args.get::<u32>("--n").unwrap_err();
    assert_eq!(
        conversion,
        ArgError::Conversion { name: String::from("--n"), value: String::from("abc") }
    );
    assert_eq!(conversion.message(), "Could not convert value (abc) for parameter --n");
    let unrecognized = args.get::<u32>("--m").unwrap_err();
    assert_eq!(unrecognized, ArgError::Unrecognized { name: String::from("--m") });
    assert_eq!(unrecognized.message(), "Parameter --m unrecognized");
    assert_eq!(
        args.get::<String>("--f"),
        Err(ArgError::Unrecognized { name: String::from("--f") })
    );
}

#[test]
fn values_convert_to_the_type_asked_for() {
    let mut parser = Parser::new("types");
    parser.add_parameter(Parameter::param("--v", "A value"));
    let args = parser.parse_args(&tokens(&["--v", "-17"])).unwrap();
    assert_eq!(args.get::<i32>("--v"), Ok(-17));
    assert_eq!(args.get::<f64>("--v"), Ok(-17.0));
    assert_eq!(args.get::<String>("--v"), Ok(String::from("-17")));
    assert!(args.get::<u32>("--v").is_err());
    assert!(args.get::<bool>("--v").is_err());
    let args = parser.parse_args(&tokens(&["--v", "true"])).unwrap();
    assert_eq!(args.get::<bool>("--v"), Ok(true));
}

#[test]
fn converted_keeps_a_parsed_value_and_reports_a_failed_one() {
    assert_eq!(Args::converted("--n", "5", Some(5u8)), Ok(5u8));
    assert_eq!(
        Args::converted::<u8>("--n", "five", None),
        Err(ArgError::Conversion { name: String::from("--n"), value: String::from("five") })
    );
}

#[test]
fn notice_lists_every_missing_name() {
    let none = ParseError::MissingRequired { names: tokens(&[]) };
    assert_eq!(none.notice(), Some(String::from("Missing required arguments: ")));
    let one = ParseError::MissingRequired { names: tokens(&["--a"]) };
    assert_eq!(one.notice(), Some(String::from("Missing required arguments: --a")));
    let three = ParseError::MissingRequired { names: tokens(&["--a", "b", "--c"]) };
    assert_eq!(three.notice(), Some(String::from("Missing required arguments: --a, b, --c")));
    assert_eq!(three.exit_status(), 1);
}

#[test]
fn raw_gives_the_value_as_it_came() {
    let args = sample().parse_args(&tokens(&["--name", " Ada ", "-c", "007"])).unwrap();
    assert_eq!(args.raw("--name"), Some(&String::from(" Ada ")));
    assert_eq!(args.raw("--count"), Some(&String::from("007")));
    assert_eq!(args.get::<u32>("--count"), Ok(7));
    assert_eq!(args.raw("-c"), None);
    assert_eq!(args.raw("--verbose"), None);
    assert_eq!(args.raw("--other"), None);
    let defaults = sample().parse_args(&tokens(&["--name", ""])).unwrap();
    assert_eq!(defaults.raw("--count"), Some(&String::from("3")));
    assert_eq!(defaults.raw("--name"), Some(&String::new()));
}

#[test]
fn new_args_hold_nothing() {
    let args = Args::new();
    assert!(args.positional.is_empty());
    assert!(!args.flag("--x"));
    assert_eq!(
        args.get::<String>("--x"),
        Err(ArgError::Unrecognized { name: String::from("--x") })
    );
}

#[test]
fn cloned_args_answer_alike() {
    let args = sample().parse_args(&tokens(&["p", "-v", "--name", "x"])).unwrap();
    let copy = args.clone();
    assert_eq!(copy.positional, args.positional);
    assert_eq!(copy.get::<String>("--name"), Ok(String::from("x")));
    assert_eq!(copy.get::<u32>("--count"), Ok(3));
    assert!(copy.flag("--verbose"));
    assert!(!copy.flag("--dry-run"));
}

#[test]
fn parsing_leaves_the_parser_as_it_was() {
    let parser = sample();
    let first = parser.parse_args(&tokens(&["--name", "x", "-c", "9", "-v"])).unwrap();
    assert_eq!(first.get::<u32>("--count"), Ok(9));
    let second = parser.parse_args(&tokens(&["--name", "y"])).unwrap();
    assert_eq!(second.get::<u32>("--count"), Ok(3));
    assert!(!second.flag("--verbose"));
}
