use x3_counter::matcher::{count_open_parens, first_present, TokenMatcher};

const PATTERN: &str = r"(?:^|\s)(?:(x3+)|(:3+)|(uwu))\s*$";

fn groups(values: &[Option<&str>]) -> Vec<Option<String>> {
    values.iter().map(|v| v.map(|s| s.to_owned())).collect()
}

#[test]
fn parentheses_are_counted() {
    assert_eq!(count_open_parens(""), 0);
    assert_eq!(count_open_parens("abc"), 0);
    assert_eq!(count_open_parens("(a)(b)"), 2);
    assert_eq!(count_open_parens("((("), 3);
    assert_eq!(count_open_parens(")"), 0);
    assert_eq!(count_open_parens(PATTERN), 5);
    assert_eq!(count_open_parens(r"\(é("), 2);
}

#[test]
fn first_group_that_took_part_is_picked() {
    let found = groups(&[Some("all"), None, Some("second"), Some("third")]);
    assert_eq!(first_present(&found, 3), Some("second".to_owned()));
    assert_eq!(first_present(&found, 2), Some("second".to_owned()));
    assert_eq!(first_present(&found, 1), None);
    assert_eq!(first_present(&found, 0), None);
    assert_eq!(first_present(&found, 99), Some("second".to_owned()));
}

#[test]
fn whole_match_is_never_the_token() {
    assert_eq!(first_present(&groups(&[Some("all")]), 5), None);
    assert_eq!(first_present(&groups(&[Some("all"), None, None]), 5), None);
    assert_eq!(first_present(&groups(&[]), 5), None);
    assert_eq!(first_present(&groups(&[Some("all"), Some("")]), 1), Some(String::new()));
}

#[test]
fn token_is_found_at_the_end_of_a_message() {
    let matcher = TokenMatcher::new(PATTERN).unwrap();
    assert_eq!(matcher.find_token("hello x3"), Some("x3".to_owned()));
    assert_eq!(matcher.find_token("hello :333  "), Some(":333".to_owned()));
    assert_eq!(matcher.find_token("uwu"), Some("uwu".to_owned()));
    assert_eq!(matcher.find_token("x3 and more"), None);
    assert_eq!(matcher.find_token(""), None);
}

#[test]
fn message_is_matched_in_lower_case() {
    let matcher = TokenMatcher::new(PATTERN).unwrap();
    assert_eq!(matcher.find_token("hello X3"), Some("x3".to_owned()));
    assert_eq!(matcher.find_token("so cute UwU"), Some("uwu".to_owned()));
}

#[test]
fn groups_beyond_the_parentheses_are_not_looked_at() {
    let matcher = TokenMatcher::new("a|(b)").unwrap();
    assert_eq!(matcher.find_token("b"), Some("b".to_owned()));
    assert_eq!(matcher.find_token("a"), None);
    let plain = TokenMatcher::new("abc").unwrap();
    assert_eq!(plain.find_token("abc"), None);
}

#[test]
fn bad_pattern_is_refused_with_a_message() {
    match TokenMatcher::new("(unclosed") {
        Ok(_) => panic!("the pattern does not compile"),
        Err(error) => assert!(!error.message.is_empty()),
    }
}

#[test]
fn compiled_expression_becomes_a_matcher() {
    let matcher = match TokenMatcher::from_compiled("a|(b)", regex::Regex::new("a|(b)")) {
        Ok(matcher) => matcher,
        Err(error) => panic!("the pattern compiles: {}", error.message),
    };
    assert_eq!(matcher.find_token("B"), Some("b".to_owned()));
    assert_eq!(matcher.find_token("a"), None);
    let fewer = match TokenMatcher::from_compiled("b", regex::Regex::new("a|(b)")) {
        Ok(matcher) => matcher,
        Err(error) => panic!("the pattern compiles: {}", error.message),
    };
    assert_eq!(fewer.find_token("b"), None);
}

#[test]
fn refusal_is_handed_on_with_its_message() {
    let refused = regex::Regex::new("(unclosed");
    let expected = match &refused {
        Ok(_) => panic!("the pattern does not compile"),
        Err(error) => error.to_string(),
    };
    match TokenMatcher::from_compiled("(unclosed", refused) {
        Ok(_) => panic!("the pattern does not compile"),
        Err(error) => assert_eq!(error.message, expected),
    }
}

#[test]
fn new_succeeds_where_the_pattern_compiles() {
    for pattern in ["", "abc", "(a)(b)", r"(?:^|\s)(x3+)\s*$", "[", "a{2,1}", "(?P<n>a)", "*"] {
        assert_eq!(TokenMatcher::new(pattern).is_ok(), regex::Regex::new(pattern).is_ok());
    }
}
