use plojo::{
    AttachedType, Command, DictParseError, Dictionary, Key, Modifier, ParseFailure, SpecialKey,
    StateAction, Stroke, Text, TextAction, Translation,
};

fn entry(value: &str) -> Translation {
    let raw = format!(r#"{{"S": {}}}"#, serde_json::to_string(value).unwrap());
    let dict = Dictionary::new(vec![raw]).unwrap();
    dict.lookup(&[Stroke::new("S")]).unwrap()
}

fn parse_error(value: &str) -> ParseFailure {
    let raw = format!(r#"{{"S": {}}}"#, serde_json::to_string(value).unwrap());
    Dictionary::new(vec![raw]).unwrap_err().reason
}

#[test]
fn dictionary_overwrite() {
    let raw_dict1 = r#"
        {
            "H-L": "hello",
            "WORLD": "world"
        }
    "#
    .to_string();
    let raw_dict2 = r#"
        {
            "WORLD": "something else"
        }
    "#
    .to_string();

    let dict = Dictionary::new(vec![raw_dict1, raw_dict2]).unwrap();
    assert_eq!(
        dict.lookup(&[Stroke::new("WORLD")]).unwrap(),
        Translation::Text(vec![Text::Lit("something else".to_string())])
    );
    assert_eq!(
        dict.lookup(&[Stroke::new("H-L")]).unwrap(),
        Translation::Text(vec![Text::Lit("hello".to_string())])
    );
    assert_eq!(dict.lookup(&[Stroke::new("H-L"), Stroke::new("WORLD")]), None);
}

#[test]
fn dictionary_keys_are_normalized() {
    let raw = r#"{"HL": "hello", "TKAOER/-S": "deers"}"#.to_string();
    let dict = Dictionary::new(vec![raw]).unwrap();
    assert_eq!(
        dict.lookup(&[Stroke::new("H-L")]).unwrap(),
        Translation::Text(vec![Text::Lit("hello".to_string())])
    );
    assert_eq!(
        dict.lookup(&[Stroke::new("TKAOER"), Stroke::new("-S")]).unwrap(),
        Translation::Text(vec![Text::Lit("deers".to_string())])
    );
}

#[test]
fn malformed_json_is_rejected() {
    let good = r#"{"A": "a"}"#.to_string();
    let bad = r#"{"A": "#.to_string();
    assert_eq!(
        Dictionary::new(vec![good, bad]).unwrap_err(),
        DictParseError {
            dict_index: 1,
            key: String::new(),
            reason: ParseFailure::MalformedJson,
        }
    );
}

#[test]
fn non_string_values_are_rejected() {
    let bad = r#"{"A": 3}"#.to_string();
    assert_eq!(
        Dictionary::new(vec![bad]).unwrap_err().reason,
        ParseFailure::MalformedJson
    );
}

#[test]
fn unclosed_brace_is_rejected() {
    assert_eq!(parse_error("{^ing"), ParseFailure::UnclosedBrace);
    assert_eq!(parse_error("{a{b}"), ParseFailure::UnclosedBrace);
}

#[test]
fn unknown_meta_is_rejected() {
    assert_eq!(parse_error("{MODE:CAPS}"), ParseFailure::UnknownCommand);
    assert_eq!(parse_error("{#NoSuchKey}"), ParseFailure::UnknownCommand);
    assert_eq!(parse_error("{PLOVER:}"), ParseFailure::UnknownCommand);
}

#[test]
fn error_names_the_key() {
    let raw = r#"{"A": "fine", "TP": "{oops"}"#.to_string();
    let e = Dictionary::new(vec![raw]).unwrap_err();
    assert_eq!(e.key, "TP");
    assert_eq!(e.dict_index, 0);
}

#[test]
fn plain_text_value() {
    assert_eq!(
        entry("hello there"),
        Translation::Text(vec![Text::Lit("hello there".to_string())])
    );
    assert_eq!(entry(""), Translation::Text(vec![]));
}

#[test]
fn attached_values() {
    let attached = |text: &str, next: bool, prev: AttachedType| Text::Attached {
        text: text.to_string(),
        joined_next: next,
        joined_prev: prev,
        carry_capitalization: false,
    };
    assert_eq!(
        entry("{^ing}"),
        Translation::Text(vec![attached("ing", false, AttachedType::ApplyOrthography)])
    );
    assert_eq!(
        entry("{re^}"),
        Translation::Text(vec![attached("re", true, AttachedType::DoNotAttach)])
    );
    assert_eq!(
        entry("{^-^}"),
        Translation::Text(vec![attached("-", true, AttachedType::ApplyOrthography)])
    );
    assert_eq!(
        entry("{^}"),
        Translation::Text(vec![attached("", true, AttachedType::AttachOnly)])
    );
}

#[test]
fn action_values() {
    assert_eq!(
        entry("{-|}"),
        Translation::Text(vec![Text::StateAction(StateAction::ForceCapitalize)])
    );
    assert_eq!(
        entry("{<}"),
        Translation::Text(vec![Text::StateAction(StateAction::SameCase(true))])
    );
    assert_eq!(
        entry("{>}"),
        Translation::Text(vec![Text::StateAction(StateAction::SameCase(false))])
    );
    assert_eq!(
        entry("{*-|}"),
        Translation::Text(vec![Text::TextAction(TextAction::CapitalizePrev)])
    );
    assert_eq!(
        entry("{*<}"),
        Translation::Text(vec![Text::TextAction(TextAction::SameCasePrev(true))])
    );
    assert_eq!(
        entry("{*>}"),
        Translation::Text(vec![Text::TextAction(TextAction::SameCasePrev(false))])
    );
    assert_eq!(
        entry("{*!}"),
        Translation::Text(vec![Text::TextAction(TextAction::SuppressSpacePrev)])
    );
    assert_eq!(entry("{&b}"), Translation::Text(vec![Text::Glued("b".to_string())]));
    assert_eq!(entry("{}"), Translation::Text(vec![]));
}

#[test]
fn punctuation_values() {
    let punct = |p: &str| Text::Attached {
        text: p.to_string(),
        joined_next: false,
        joined_prev: AttachedType::AttachOnly,
        carry_capitalization: false,
    };
    assert_eq!(
        entry("{.}"),
        Translation::Text(vec![punct("."), Text::StateAction(StateAction::ForceCapitalize)])
    );
    assert_eq!(entry("{,}"), Translation::Text(vec![punct(",")]));
}

#[test]
fn fragments_concatenate() {
    assert_eq!(
        entry("{^}pre{-|}"),
        Translation::Text(vec![
            Text::Attached {
                text: "".to_string(),
                joined_next: true,
                joined_prev: AttachedType::AttachOnly,
                carry_capitalization: false,
            },
            Text::Lit("pre".to_string()),
            Text::StateAction(StateAction::ForceCapitalize),
        ])
    );
}

#[test]
fn command_values() {
    assert_eq!(
        entry("{PLOVER:CLEAR_PREV_STROKES}"),
        Translation::Command {
            cmds: vec![Command::TranslatorCommand("clear_prev_strokes".to_string())],
            text_after: None,
            suppress_space_before: false,
        }
    );
    assert_eq!(
        entry("{#Return}"),
        Translation::Command {
            cmds: vec![Command::Keys(Key::Special(SpecialKey::Return), vec![])],
            text_after: None,
            suppress_space_before: false,
        }
    );
    assert_eq!(
        entry("{#control(shift(a))}"),
        Translation::Command {
            cmds: vec![Command::Keys(
                Key::Layout('a'),
                vec![Modifier::Control, Modifier::Shift]
            )],
            text_after: None,
            suppress_space_before: false,
        }
    );
}
