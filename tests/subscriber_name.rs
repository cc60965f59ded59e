use emale::domain::SubscriberName;

#[test]
fn a_256_grapheme_long_name_is_valid() {
    let name = "a".repeat(256);
    assert!(SubscriberName::parse(name).is_ok());
}

#[test]
fn more_than_256_grapheme_long_name_is_invalid() {
    let name = "a".repeat(257);
    assert!(SubscriberName::parse(name).is_err());
}

#[test]
fn whitespace_only_name_is_invalid() {
    let name = " ".to_string();
    assert!(SubscriberName::parse(name).is_err());
}

#[test]
fn empty_string_is_invalid() {
    let name = "".to_string();
    assert!(SubscriberName::parse(name).is_err());
}

#[test]
fn names_containing_invalid_characters_are_rejected() {
    for name in &['/', '(', ')', '"', '<', '>', '\\', '{', '}'] {
        let name = name.to_string();
        assert!(SubscriberName::parse(name).is_err());
    }
}

#[test]
fn valid_names_accepted() {
    let name = "nc no cap".to_string();
    assert!(SubscriberName::parse(name).is_ok());
}

#[test]
fn a_name_counts_graphemes_not_chars() {
    // "e" followed by a combining acute accent is two chars but one grapheme
    let name = "e\u{301}".repeat(256);
    assert!(SubscriberName::parse(name).is_ok());
    let name = "e\u{301}".repeat(257);
    assert!(SubscriberName::parse(name).is_err());
}

#[test]
fn rejected_name_message_names_the_input() {
    let err = SubscriberName::parse("a/b".to_string()).unwrap_err();
    assert_eq!(err, "a/b, is not valid name");
}

#[test]
fn parse_counted_checks_the_given_count() {
    assert!(SubscriberName::parse_counted("ab".to_string(), 256).is_ok());
    assert!(SubscriberName::parse_counted("ab".to_string(), 257).is_err());
}

#[test]
fn names_with_unicode_spaces_only_are_invalid() {
    assert!(SubscriberName::parse("\u{3000}\t\n".to_string()).is_err());
    assert_eq!(SubscriberName::parse(" x ".to_string()).unwrap().as_str(), " x ");
}
