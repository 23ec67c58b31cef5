use rgparse::help::{detail_line_text, usage_entry_text};
use rgparse::text::without_dashes;
use rgparse::{ParamInfo, Parameter, Parser};

#[test]
fn can_help() {
    let mut parser = Parser::new("Test Parser 0");
    parser.add_parameter(Parameter::param("--test", "A test parameter").alias("-t"));
    let text = parser.help("prog");
    assert_eq!(
        text,
        "Test Parser 0\nUsage: prog [-t TEST]\n\t-t,\t--test\t\tA test parameter\n"
    );
}

#[test]
fn help_of_an_empty_parser() {
    let parser = Parser::new("Nothing to see");
    assert_eq!(parser.help("/bin/nothing"), "Nothing to see\nUsage: /bin/nothing\n");
}

#[test]
fn help_lists_parameters_in_registration_order() {
    let mut parser = Parser::new("Order");
    parser.add_parameter(Parameter::param("--zeta", "Last letter"));
    parser.add_parameter(Parameter::flag("--alpha", "First letter").alias("-a"));
    parser.add_parameter(Parameter::param("mid", "No dashes").alias("m"));
    assert_eq!(
        parser.help("p"),
        "Order\nUsage: p [--zeta ZETA] [-a ALPHA] [m MID]\n\
         \t\t--zeta\t\tLast letter\n\
         \t-a,\t--alpha\t\tFirst letter\n\
         \tm,\tmid\t\tNo dashes\n"
    );
}

#[test]
fn help_strips_leading_dashes_only() {
    let mut parser = Parser::new("Dashes");
    parser.add_parameter(Parameter::flag("---dry-run--", "Inner dashes stay"));
    parser.add_parameter(Parameter::flag("--", "Only dashes"));
    assert_eq!(
        parser.help("p"),
        "Dashes\nUsage: p [---dry-run-- DRY-RUN--] [-- ]\n\
         \t\t---dry-run--\t\tInner dashes stay\n\
         \t\t--\t\tOnly dashes\n"
    );
}

#[test]
fn help_writes_the_name_in_upper_case() {
    let mut parser = Parser::new("Case");
    parser.add_parameter(Parameter::param("--straße", "A street"));
    assert_eq!(
        parser.help("p"),
        "Case\nUsage: p [--straße STRASSE]\n\t\t--straße\t\tA street\n"
    );
}

#[test]
fn help_shows_the_last_alias_of_a_parameter() {
    let mut parser = Parser::new("Aliases");
    parser.add_parameter(Parameter::flag("--all", "Everything").alias("-a"));
    parser.add_parameter(Parameter::flag("--all", "Everything, again").alias("-A"));
    assert_eq!(
        parser.help("p"),
        "Aliases\nUsage: p [-A ALL]\n\t-A,\t--all\t\tEverything, again\n"
    );
}

#[test]
fn help_drops_an_alias_that_was_given_to_another_parameter() {
    let mut parser = Parser::new("Aliases");
    parser.add_parameter(Parameter::flag("--all", "Everything").alias("-a"));
    parser.add_parameter(Parameter::flag("--any", "Anything").alias("-a"));
    assert_eq!(
        parser.help("p"),
        "Aliases\nUsage: p [--all ALL] [-a ANY]\n\
         \t\t--all\t\tEverything\n\
         \t-a,\t--any\t\tAnything\n"
    );
}

#[test]
fn help_keeps_the_place_of_a_parameter_registered_again() {
    let mut parser = Parser::new("Again");
    parser.add_parameter(Parameter::flag("--one", "First"));
    parser.add_parameter(Parameter::flag("--two", "Second"));
    parser.add_parameter(Parameter::param("--one", "First, now with a value"));
    assert_eq!(
        parser.help("p"),
        "Again\nUsage: p [--one ONE] [--two TWO]\n\
         \t\t--one\t\tFirst, now with a value\n\
         \t\t--two\t\tSecond\n"
    );
}

#[test]
fn usage_entry_has_label_and_stripped_name() {
    assert_eq!(usage_entry_text("-t", "--TEST"), " [-t TEST]");
    assert_eq!(usage_entry_text("plain", "PLAIN"), " [plain PLAIN]");
    assert_eq!(usage_entry_text("", ""), " [ ]");
}

#[test]
fn detail_line_with_and_without_alias() {
    let short = String::from("-t");
    assert_eq!(detail_line_text(Some(&short), "--test", "Text"), "\t-t,\t--test\t\tText\n");
    assert_eq!(detail_line_text(None, "--test", "Text"), "\t\t--test\t\tText\n");
}

#[test]
fn without_dashes_drops_the_leading_ones() {
    assert_eq!(without_dashes("--name"), "name");
    assert_eq!(without_dashes("-n"), "n");
    assert_eq!(without_dashes("name"), "name");
    assert_eq!(without_dashes("a-b-"), "a-b-");
    assert_eq!(without_dashes("---"), "");
    assert_eq!(without_dashes(""), "");
    assert_eq!(without_dashes("--é-x"), "é-x");
}

#[test]
fn param_info_holds_what_it_is_given() {
    let info = ParamInfo::new(true, String::from("text"));
    assert!(info.takes_value);
    assert_eq!(info.description, "text");
}
