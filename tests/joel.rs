use bevy_cryotheum::joel::{Joel, JoelError};
use std::str::FromStr;

#[test]
fn joel_structs() {
    let control = Joel {
        arguments: vec![String::from("Screen-space Bloom"), String::from("true")],
        command: "config_set".into(),
        original_arguments: None,
    };

    //FromStr trait
    assert_eq!(control, Joel::from_str("config_set 'Screen-space Bloom' true").unwrap());
    assert_eq!(control, Joel::from_str("config_set Screen-space\\ Bloom true").unwrap());
    assert_eq!(control, Joel::from_str("config_set \"Screen-space Bloom\" \"true\"").unwrap());
    assert_eq!(control, Joel::from_str("config_set \"Screen-space\\ Bloom\" \"true\"").unwrap());

    //ToString trait
    assert_eq!(control.to_string(), String::from("config_set \"Screen-space Bloom\" true"));

    //PartialEq<&str> trait
    assert_eq!(control, "config_set");
}

#[test]
fn joel_keeps_the_arguments_text() {
    let j = Joel::from_str("  say   'a b'  c  ").unwrap();
    assert_eq!(j.command, "say");
    assert_eq!(j.arguments, vec![String::from("a b"), String::from("c")]);
    assert_eq!(j.original_arguments.as_deref(), Some("'a b'  c"));
    assert_eq!(j.arguments_string(), "'a b'  c");
    assert_eq!(j.len(), 2);
}

#[test]
fn joel_without_arguments() {
    let j = Joel::from_str("quit").unwrap();
    assert_eq!(j.command, "quit");
    assert!(j.arguments.is_empty());
    let mut n = Joel::new(String::from("give"));
    n.push(String::from("it's"));
    n.push(String::from("a\\b"));
    assert_eq!(n.arguments_string(), "it\\'s a\\\\b");
    assert_eq!(n.to_string(), "give it\\'s a\\\\b");
}

#[test]
fn joel_errors() {
    assert_eq!(Joel::from_str("   ").err(), Some(JoelError::EmptyCommand));
    assert_eq!(Joel::from_str("cmd 'a'b").err(), Some(JoelError::ExpectedWhitespace(0)));
    assert_eq!(Joel::from_str("cmd x a'b'").err(), Some(JoelError::MalformedDelimiter(1)));
    assert_eq!(Joel::from_str("cmd a\\").err(), Some(JoelError::UnfinishedEscape));
    assert_ne!(Joel::from_str("cmd a").unwrap(), Joel::from_str("cmd b").unwrap());
    assert_ne!(Joel::from_str("cmd a").unwrap(), "other");
}
