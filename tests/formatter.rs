use plojo::formatter::{
    find_last_word, find_last_word_space, parse_translation, perform_text_action,
    word_change_first_letter,
};
use plojo::{AttachedType, StateAction, Stroke, Text, TextAction};

fn translation_diff_space_after(t: Vec<Text>) -> String {
    parse_translation(t, false)
}

fn attach_next() -> Text {
    Text::Attached {
        text: "".to_string(),
        joined_next: true,
        joined_prev: AttachedType::AttachOnly,
        carry_capitalization: false,
    }
}

#[test]
fn test_parse_empty() {
    let translated = translation_diff_space_after(vec![]);

    assert_eq!(translated, "");
}

#[test]
fn test_parse_basic() {
    let translated = translation_diff_space_after(vec![
        Text::Lit("hello".to_string()),
        Text::Lit("hi".to_string()),
    ]);

    assert_eq!(translated, " hello hi");
}

#[test]
fn test_parse_text_actions() {
    let translated = translation_diff_space_after(vec![
        attach_next(),
        Text::StateAction(StateAction::ForceCapitalize),
        Text::Lit("hello".to_string()),
        Text::Lit("hi".to_string()),
        Text::StateAction(StateAction::ForceCapitalize),
        Text::Lit("FOo".to_string()),
        Text::Lit("bar".to_string()),
        Text::Lit("baZ".to_string()),
        attach_next(),
        Text::Lit("NICE".to_string()),
        attach_next(),
        Text::Lit("".to_string()),
        Text::Lit("well done".to_string()),
    ]);

    assert_eq!(translated, "Hello hi FOo bar baZNICE well done");
}

#[test]
fn test_parse_prev_word_text_actions() {
    let translated = translation_diff_space_after(vec![
        Text::Lit("hi".to_string()),
        Text::TextAction(TextAction::CapitalizePrev),
        Text::TextAction(TextAction::CapitalizePrev),
        Text::Lit("FOo".to_string()),
        Text::Lit("bar".to_string()),
        Text::TextAction(TextAction::SuppressSpacePrev),
        Text::TextAction(TextAction::CapitalizePrev),
        Text::Lit("hello".to_string()),
        Text::Lit("Hi a".to_string()),
        Text::TextAction(TextAction::CapitalizePrev),
        Text::StateAction(StateAction::ForceCapitalize),
        Text::Lit("nice".to_string()),
        Text::UnknownStroke(Stroke::new("TP-TDZ")),
        Text::TextAction(TextAction::SuppressSpacePrev),
        Text::Lit("nice".to_string()),
        attach_next(),
        Text::Lit("another".to_string()),
    ]);

    assert_eq!(translated, " Hi FOobar hello Hi A NiceTP-TDZ niceanother");
}

#[test]
fn test_parse_line_start() {
    let translated = translation_diff_space_after(vec![
        attach_next(),
        Text::StateAction(StateAction::ForceCapitalize),
        Text::Lit("hello".to_string()),
        Text::Lit("hi".to_string()),
    ]);

    assert_eq!(translated, "Hello hi");
}

#[test]
fn test_parse_glued() {
    let translated = translation_diff_space_after(vec![
        Text::Lit("hello".to_string()),
        Text::Glued("hi".to_string()),
        Text::Glued("hi".to_string()),
        Text::Lit("foo".to_string()),
        Text::Glued("two".to_string()),
        Text::Glued("three".to_string()),
    ]);

    assert_eq!(translated, " hello hihi foo twothree");
}

#[test]
fn test_word_change_first_letter() {
    assert_eq!(word_change_first_letter("hello".to_owned()), "Hello");
    assert_eq!(word_change_first_letter("".to_owned()), "");
    assert_eq!(word_change_first_letter("Hello".to_owned()), "Hello");
}

#[test]
fn test_unicode() {
    let translated = translation_diff_space_after(vec![
        Text::Lit("hi".to_string()),
        Text::Lit("hello".to_string()),
        Text::Lit("𐀀".to_string()),
        Text::TextAction(TextAction::SuppressSpacePrev),
        Text::Lit("©aa".to_string()),
        Text::TextAction(TextAction::CapitalizePrev),
        Text::TextAction(TextAction::SuppressSpacePrev),
    ]);

    assert_eq!(translated, " hi hello𐀀©Aa");
}

#[test]
fn test_double_space() {
    let translated = translation_diff_space_after(vec![
        Text::Lit("hello".to_string()),
        Text::Attached {
            text: " ".to_string(),
            joined_next: true,
            joined_prev: AttachedType::ApplyOrthography,
            carry_capitalization: false,
        },
        Text::Attached {
            text: " ".to_string(),
            joined_next: true,
            joined_prev: AttachedType::ApplyOrthography,
            carry_capitalization: false,
        },
    ]);

    assert_eq!(translated, " hello  ");
}

#[test]
fn test_find_last_word_space() {
    assert_eq!(find_last_word_space("hello world"), 6);
    assert_eq!(find_last_word_space(" world"), 1);
    assert_eq!(find_last_word_space("test "), 5);
    assert_eq!(find_last_word_space("nospace"), 0);
    assert_eq!(find_last_word_space(" there are many words"), 16);
}

#[test]
fn test_find_last_word() {
    assert_eq!(find_last_word("hello world"), 6);
    assert_eq!(find_last_word(" world"), 1);
    assert_eq!(find_last_word("test "), 5);
    assert_eq!(find_last_word("not:this-that"), 4);
    assert_eq!(find_last_word("THE Under_score"), 4);
}

#[test]
fn test_perform_text_action() {
    assert_eq!(
        perform_text_action("foo bar", TextAction::SuppressSpacePrev),
        "foobar"
    );
    assert_eq!(
        perform_text_action(" hello", TextAction::CapitalizePrev),
        " Hello"
    );
    assert_eq!(
        perform_text_action(" there are many words", TextAction::CapitalizePrev),
        " there are many Words"
    );
    assert_eq!(
        perform_text_action(" no previous word ", TextAction::CapitalizePrev),
        " no previous word "
    );
    assert_eq!(
        perform_text_action(" ∅∅byteboundary", TextAction::CapitalizePrev),
        " ∅∅Byteboundary"
    );
    assert_eq!(
        perform_text_action(" ßweird_char", TextAction::CapitalizePrev),
        " SSweird_char"
    );
    assert_eq!(
        perform_text_action(" (symbol", TextAction::CapitalizePrev),
        " (Symbol"
    );
    assert_eq!(
        perform_text_action(" !symbol-hyphen", TextAction::CapitalizePrev),
        " !Symbol-hyphen"
    );
}

#[test]
fn test_carry_capitalization() {
    let translated = translation_diff_space_after(vec![
        Text::Lit("fairy".to_string()),
        Text::StateAction(StateAction::ForceCapitalize),
        Text::Attached {
            text: "s".to_string(),
            joined_next: false,
            joined_prev: AttachedType::ApplyOrthography,
            carry_capitalization: true,
        },
        Text::Attached {
            text: "b".to_string(),
            joined_next: true,
            joined_prev: AttachedType::DoNotAttach,
            carry_capitalization: true,
        },
        Text::Lit("hi".to_string()),
    ]);

    assert_eq!(translated, " fairies bHi");
}

#[test]
fn test_space_after_basic() {
    let translated = parse_translation(
        vec![
            Text::Lit("hello".to_string()),
            Text::StateAction(StateAction::ForceCapitalize),
            Text::Attached {
                text: "a".to_string(),
                joined_next: false,
                joined_prev: AttachedType::AttachOnly,
                carry_capitalization: false,
            },
        ],
        true,
    );

    assert_eq!(translated, "helloA ");
}

#[test]
fn test_space_after_suppress_space() {
    let translated = parse_translation(
        vec![
            Text::Lit("hello".to_string()),
            Text::Lit("world".to_string()),
            Text::Attached {
                text: "".to_string(),
                joined_next: true,
                joined_prev: AttachedType::DoNotAttach,
                carry_capitalization: false,
            },
        ],
        true,
    );

    assert_eq!(translated, "hello world ");
}

#[test]
fn test_space_after_glued() {
    let translated = parse_translation(
        vec![
            Text::Glued("a".to_string()),
            Text::Glued("b".to_string()),
            Text::Glued("c".to_string()),
        ],
        true,
    );

    assert_eq!(translated, "abc ");
}

#[test]
fn test_space_after_empty() {
    let translated = parse_translation(vec![], true);

    assert_eq!(translated, "");
}

#[test]
fn test_alpha_orthograhy() {
    let translated = parse_translation(
        vec![
            Text::Attached {
                text: "©".to_string(),
                joined_next: true,
                joined_prev: AttachedType::DoNotAttach,
                carry_capitalization: false,
            },
            Text::Lit("model".to_string()),
            Text::Attached {
                text: "ed".to_string(),
                joined_next: false,
                joined_prev: AttachedType::ApplyOrthography,
                carry_capitalization: false,
            },
        ],
        false,
    );

    assert_eq!(translated, " ©modeled");
}

#[test]
fn test_force_same_case() {
    let translated = parse_translation(
        vec![
            Text::StateAction(StateAction::SameCase(true)),
            Text::StateAction(StateAction::ForceCapitalize),
            Text::Lit("hello".to_string()),
            Text::StateAction(StateAction::ForceCapitalize),
            Text::StateAction(StateAction::SameCase(false)),
            Text::Attached {
                text: "(".to_string(),
                joined_next: true,
                joined_prev: AttachedType::DoNotAttach,
                carry_capitalization: true,
            },
            Text::Lit("NASA".to_string()),
            Text::Lit("hi".to_string()),
            Text::TextAction(TextAction::CapitalizePrev),
            Text::TextAction(TextAction::SameCasePrev(true)),
            Text::Lit("aLL_cAPs".to_string()),
            Text::TextAction(TextAction::CapitalizePrev),
            Text::TextAction(TextAction::SameCasePrev(false)),
        ],
        false,
    );

    assert_eq!(translated, " HELLO (nasa HI all_caps");
}

#[test]
fn byte_offsets_count_utf8_bytes() {
    assert_eq!(find_last_word_space("∅ x"), 4);
    assert_eq!(find_last_word("a ßb"), 2);
    assert_eq!(find_last_word("∅∅word"), 6);
}

#[test]
fn orthography_rules() {
    let attach = |s: &str| Text::Attached {
        text: s.to_string(),
        joined_next: false,
        joined_prev: AttachedType::ApplyOrthography,
        carry_capitalization: false,
    };
    let render = |word: &str, suffix: &str| {
        parse_translation(vec![Text::Lit(word.to_string()), attach(suffix)], false)
    };
    assert_eq!(render("try", "ed"), " tried");
    assert_eq!(render("die", "ing"), " dying");
    assert_eq!(render("box", "s"), " boxes");
    assert_eq!(render("make", "ing"), " making");
    assert_eq!(render("stop", "ing"), " stopping");
    assert_eq!(render("fix", "ing"), " fixing");
    assert_eq!(render("hello", "s"), " hellos");
}

#[test]
fn numbers_glue_together() {
    let translated = parse_translation(
        vec![
            Text::Lit("12".to_string()),
            Text::UnknownStroke(Stroke::new("1-9")),
            Text::Lit("x".to_string()),
        ],
        false,
    );
    assert_eq!(translated, " 1219 x");
}
