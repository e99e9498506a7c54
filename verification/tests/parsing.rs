use cli_parse::message::{
    EXPECTED_FLAG, NOTHING_TO_PARSE, UNRECOGNIZED, VALUE_LOOKS_LIKE_FLAG, VALUE_MISSING_AT_END,
};
use cli_parse::{CliParser, RuleType};

fn args(tokens: &[&str]) -> Vec<String> {
    tokens.iter().map(|token| token.to_string()).collect()
}

fn sample_parser() -> CliParser<'static> {
    let mut parser = CliParser::new();
    assert_eq!(parser.add_rule("a"), Ok("Rule added"));
    assert_eq!(parser.add_rule_with_default("b", RuleType::NoArg, "unused"), Ok(()));
    assert_eq!(parser.add_rule_with_default("m", RuleType::Maybe, "fallback"), Ok(()));
    parser
}

#[test]
fn empty_argument_vector_is_nothing_to_parse() {
    let parser = sample_parser();
    let list = args(&[]);
    assert_eq!(parser.parse(&list).err(), Some("No opt to parse!"));
    assert_eq!(parser.parse(&list).err(), Some(NOTHING_TO_PARSE));
}

#[test]
fn program_name_alone_is_nothing_to_parse() {
    let parser = sample_parser();
    let list = args(&["prog"]);
    assert_eq!(parser.parse(&list).err(), Some("No opt to parse!"));
}

#[test]
fn nothing_to_parse_comes_before_any_token_is_read() {
    let parser = CliParser::new();
    let list = args(&["+a"]);
    assert_eq!(parser.parse(&list).err(), Some("No opt to parse!"));
}

#[test]
fn required_value_and_plain_flag_round_trip() {
    let mut parser = CliParser::new();
    assert!(parser.add_rule("a").is_ok());
    assert!(parser.add_rule_with_default("b", RuleType::NoArg, "unused").is_ok());
    let list = args(&["prog", "+a", "x", "+b"]);
    let found = parser.parse(&list).expect("the arguments follow the rules");
    assert_eq!(found.get_opt("a"), Ok(Some("x")));
    assert_eq!(found.get_opt("b"), Ok(None));
}

#[test]
fn unregistered_flag_is_unrecognized() {
    let parser = sample_parser();
    let list = args(&["prog", "+z"]);
    assert_eq!(parser.parse(&list).err(), Some("Cannot recognize rule"));
    assert_eq!(parser.parse(&list).err(), Some(UNRECOGNIZED));
}

#[test]
fn token_without_prefix_is_no_flag() {
    let parser = sample_parser();
    let list = args(&["prog", "foo"]);
    assert_eq!(parser.parse(&list).err(), Some("The input contains no flag"));
    assert_eq!(parser.parse(&list).err(), Some(EXPECTED_FLAG));
}

#[test]
fn required_value_missing_at_end_of_input() {
    let parser = sample_parser();
    let list = args(&["prog", "+a"]);
    assert_eq!(parser.parse(&list).err(), Some("Need argument: Index out of bound"));
    assert_eq!(parser.parse(&list).err(), Some(VALUE_MISSING_AT_END));
}

#[test]
fn required_value_missing_before_another_flag() {
    let parser = sample_parser();
    let list = args(&["prog", "+a", "+b"]);
    assert_eq!(parser.parse(&list).err(), Some("Need argument!"));
    assert_eq!(parser.parse(&list).err(), Some(VALUE_LOOKS_LIKE_FLAG));
}

#[test]
fn first_failure_wins() {
    let parser = sample_parser();
    // The unrecognised flag comes before the token that is no flag.
    let list = args(&["prog", "+z", "foo"]);
    assert_eq!(parser.parse(&list).err(), Some("Cannot recognize rule"));
    // And the other way round.
    let list = args(&["prog", "foo", "+z"]);
    assert_eq!(parser.parse(&list).err(), Some("The input contains no flag"));
}

#[test]
fn failure_after_good_flags_yields_no_matches() {
    let parser = sample_parser();
    let list = args(&["prog", "+a", "x", "+b", "+z"]);
    assert!(parser.parse(&list).is_err());
    assert_eq!(parser.parse(&list).err(), Some("Cannot recognize rule"));
}

#[test]
fn required_value_moves_cursor_past_both_tokens() {
    let mut parser = CliParser::new();
    assert!(parser.add_rule("a").is_ok());
    assert!(parser.add_rule("c").is_ok());
    let list = args(&["prog", "+a", "x", "+c", "y"]);
    let found = parser.parse(&list).expect("two flags, each with its value");
    assert_eq!(found.get_opt("a"), Ok(Some("x")));
    assert_eq!(found.get_opt("c"), Ok(Some("y")));
    // The value is not read as a flag: it need not be registered.
    assert_eq!(found.get_opt("x"), Err("No argument found"));
}

#[test]
fn value_token_may_look_like_a_registered_name() {
    let mut parser = CliParser::new();
    assert!(parser.add_rule("a").is_ok());
    let list = args(&["prog", "+a", "a"]);
    let found = parser.parse(&list).expect("a plain token is a value");
    assert_eq!(found.get_opt("a"), Ok(Some("a")));
}

#[test]
fn plain_flag_leaves_next_token_to_be_a_flag() {
    let parser = sample_parser();
    let list = args(&["prog", "+b", "+a", "v"]);
    let found = parser.parse(&list).expect("the next token is read as a flag");
    assert_eq!(found.get_opt("b"), Ok(None));
    assert_eq!(found.get_opt("a"), Ok(Some("v")));
}

#[test]
fn plain_flag_does_not_take_a_following_plain_token() {
    let parser = sample_parser();
    let list = args(&["prog", "+b", "foo"]);
    assert_eq!(parser.parse(&list).err(), Some("The input contains no flag"));
}

#[test]
fn optional_value_at_end_of_input_is_absent() {
    let parser = sample_parser();
    let list = args(&["prog", "+m"]);
    let found = parser.parse(&list).expect("an optional value may be missing");
    assert_eq!(found.get_opt("m"), Ok(None));
}

#[test]
fn optional_value_before_a_flag_is_absent() {
    let parser = sample_parser();
    let list = args(&["prog", "+m", "+b"]);
    let found = parser.parse(&list).expect("an optional value may be missing");
    assert_eq!(found.get_opt("m"), Ok(None));
    assert_eq!(found.get_opt("b"), Ok(None));
}

#[test]
fn optional_value_is_taken_when_a_plain_token_follows() {
    let parser = sample_parser();
    let list = args(&["prog", "+m", "value", "+b"]);
    let found = parser.parse(&list).expect("an optional value may be given");
    assert_eq!(found.get_opt("m"), Ok(Some("value")));
    assert_eq!(found.get_opt("b"), Ok(None));
}

#[test]
fn later_occurrence_replaces_earlier_one() {
    let parser = sample_parser();
    let list = args(&["prog", "+a", "x", "+a", "y"]);
    let found = parser.parse(&list).expect("a flag may be repeated");
    assert_eq!(found.get_opt("a"), Ok(Some("y")));

    let list = args(&["prog", "+m", "x", "+m"]);
    let found = parser.parse(&list).expect("a flag may be repeated");
    assert_eq!(found.get_opt("m"), Ok(None));

    let list = args(&["prog", "+m", "+m", "x"]);
    let found = parser.parse(&list).expect("a flag may be repeated");
    assert_eq!(found.get_opt("m"), Ok(Some("x")));
}

#[test]
fn program_name_is_skipped_whatever_it_is() {
    let parser = sample_parser();
    let list = args(&["+z", "+b"]);
    let found = parser.parse(&list).expect("the first token is not read");
    assert_eq!(found.get_opt("b"), Ok(None));
    assert_eq!(found.get_opt("z"), Err("No argument found"));

    let list = args(&["", "+b"]);
    assert!(parser.parse(&list).is_ok());
}

#[test]
fn only_one_prefix_character_is_stripped() {
    let mut parser = CliParser::new();
    assert!(parser.add_rule_with_default("+b", RuleType::NoArg, "").is_ok());
    let list = args(&["prog", "++b"]);
    let found = parser.parse(&list).expect("the name keeps its own prefix character");
    assert_eq!(found.get_opt("+b"), Ok(None));
    assert_eq!(found.get_opt("b"), Err("No argument found"));

    let plain = sample_parser();
    assert_eq!(plain.parse(&list).err(), Some("Cannot recognize rule"));
}

#[test]
fn bare_prefix_names_the_empty_flag() {
    let parser = sample_parser();
    let list = args(&["prog", "+"]);
    assert_eq!(parser.parse(&list).err(), Some("Cannot recognize rule"));

    let mut with_empty = CliParser::new();
    assert!(with_empty.add_rule("").is_ok());
    let list = args(&["prog", "+", "v"]);
    let found = with_empty.parse(&list).expect("the empty name is registered");
    assert_eq!(found.get_opt(""), Ok(Some("v")));
}

#[test]
fn empty_token_is_no_flag() {
    let parser = sample_parser();
    let list = args(&["prog", ""]);
    assert_eq!(parser.parse(&list).err(), Some("The input contains no flag"));
}

#[test]
fn empty_token_can_be_a_value() {
    let parser = sample_parser();
    let list = args(&["prog", "+a", ""]);
    let found = parser.parse(&list).expect("the empty token does not start with the prefix");
    assert_eq!(found.get_opt("a"), Ok(Some("")));

    let list = args(&["prog", "+m", "", "+b"]);
    let found = parser.parse(&list).expect("the empty token does not start with the prefix");
    assert_eq!(found.get_opt("m"), Ok(Some("")));
}

#[test]
fn names_and_values_beyond_ascii() {
    let mut parser = CliParser::new();
    assert!(parser.add_rule("grüße").is_ok());
    assert!(parser.add_rule_with_default("日本", RuleType::Maybe, "").is_ok());
    let list = args(&["prog", "+grüße", "süß", "+日本", "東京", "+grüße", "é+"]);
    let found = parser.parse(&list).expect("names are compared character by character");
    assert_eq!(found.get_opt("grüße"), Ok(Some("é+")));
    assert_eq!(found.get_opt("日本"), Ok(Some("東京")));
    assert_eq!(found.get_opt("grü"), Err("No argument found"));
}

#[test]
fn prefix_inside_a_token_does_not_make_a_flag() {
    let parser = sample_parser();
    let list = args(&["prog", "+a", "x+y"]);
    let found = parser.parse(&list).expect("only the first character counts");
    assert_eq!(found.get_opt("a"), Ok(Some("x+y")));

    let list = args(&["prog", "a+"]);
    assert_eq!(parser.parse(&list).err(), Some("The input contains no flag"));
}

#[test]
fn names_are_matched_whole() {
    let parser = sample_parser();
    let list = args(&["prog", "+ab"]);
    assert_eq!(parser.parse(&list).err(), Some("Cannot recognize rule"));
    let list = args(&["prog", "+A", "x"]);
    assert_eq!(parser.parse(&list).err(), Some("Cannot recognize rule"));
}

#[test]
fn one_registry_serves_many_parses() {
    let parser = sample_parser();
    let first = args(&["prog", "+a", "1"]);
    let second = args(&["prog", "+a", "2", "+b"]);
    let found_first = parser.parse(&first).expect("first parse");
    let found_second = parser.parse(&second).expect("second parse");
    assert_eq!(found_first.get_opt("a"), Ok(Some("1")));
    assert_eq!(found_first.get_opt("b"), Err("No argument found"));
    assert_eq!(found_second.get_opt("a"), Ok(Some("2")));
    assert_eq!(found_second.get_opt("b"), Ok(None));
}

#[test]
fn parse_messages_are_pairwise_different() {
    let messages = [
        NOTHING_TO_PARSE,
        EXPECTED_FLAG,
        UNRECOGNIZED,
        VALUE_MISSING_AT_END,
        VALUE_LOOKS_LIKE_FLAG,
    ];
    for (i, first) in messages.iter().enumerate() {
        for second in messages.iter().skip(i + 1) {
            assert_ne!(first, second);
        }
    }
}
