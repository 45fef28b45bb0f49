use plojo::{translate_strokes, Command, Dictionary, Stroke, Text, Translation};

fn testing_dict() -> Dictionary {
    let raw = r#"
        {
            "H-L": "Hello",
            "A": "Wrong thing",
            "H-L/A": "He..llo",
            "WORLD": "World",
            "TPHO/WUPB": "no one",
            "H-L/A/WORLD": "hello a world",
            "KW/A/TP": "request an if",
            "KW/H-L/WORLD": "request a hello world",
            "TKAO*ER": "deer and printing hello{PLOVER:PRINT_HELLO}"
        }
    "#
    .to_string();
    Dictionary::new(vec![raw]).unwrap()
}

fn text(s: &str) -> Translation {
    Translation::Text(vec![Text::Lit(s.to_string())])
}

fn unknown(s: &str) -> Translation {
    Translation::Text(vec![Text::UnknownStroke(Stroke::new(s))])
}

#[test]
fn test_basic() {
    let dict = testing_dict();
    let strokes = vec![Stroke::new("H-L")];
    let translations = translate_strokes(&strokes, &dict);

    assert_eq!(translations, vec![text("Hello")]);
}

#[test]
fn test_multistroke() {
    let dict = testing_dict();
    let strokes = vec![Stroke::new("A"), Stroke::new("H-L")];
    let translations = translate_strokes(&strokes, &dict);

    assert_eq!(translations, vec![text("Wrong thing"), text("Hello")]);
}

#[test]
fn test_correction() {
    let dict = testing_dict();
    let strokes = vec![Stroke::new("H-L"), Stroke::new("A")];
    let translations = translate_strokes(&strokes, &dict);

    assert_eq!(translations, vec![text("He..llo")]);
}

#[test]
fn test_correction_with_history() {
    let dict = testing_dict();
    let strokes = vec![Stroke::new("WORLD"), Stroke::new("H-L"), Stroke::new("A")];
    let translations = translate_strokes(&strokes, &dict);

    assert_eq!(translations, vec![text("World"), text("He..llo")]);
}

#[test]
fn test_unknown_stroke() {
    let dict = testing_dict();
    let strokes = vec![Stroke::new("SKWR")];
    let translations = translate_strokes(&strokes, &dict);

    assert_eq!(translations, vec![unknown("SKWR")]);
}

#[test]
fn test_all_unknown_stroke() {
    let dict = testing_dict();
    let strokes = vec![
        Stroke::new("TPHO"),
        Stroke::new("TPHOU"),
        Stroke::new("TPHOUT"),
    ];

    let translations = translate_strokes(&strokes, &dict);

    assert_eq!(
        translations,
        vec![unknown("TPHO"), unknown("TPHOU"), unknown("TPHOUT")]
    );
}

#[test]
fn test_multi_unknown_stroke() {
    let dict = testing_dict();
    let strokes = vec![
        Stroke::new("TPHO"),
        Stroke::new("TPHOU"),
        Stroke::new("TPHO"),
        Stroke::new("WUPB"),
    ];

    let translations = translate_strokes(&strokes, &dict);

    assert_eq!(
        translations,
        vec![unknown("TPHO"), unknown("TPHOU"), text("no one")]
    );
}

#[test]
fn test_middle_unknown() {
    let dict = testing_dict();
    let strokes = vec![Stroke::new("H-L"), Stroke::new("A"), Stroke::new("WORLD")];

    let translations = translate_strokes(&strokes, &dict);

    assert_eq!(translations, vec![text("hello a world")]);
}

#[test]
fn test_around_unknown() {
    let dict = testing_dict();
    let strokes = vec![Stroke::new("KW"), Stroke::new("A"), Stroke::new("TP")];

    let translations = translate_strokes(&strokes, &dict);

    assert_eq!(translations, vec![text("request an if")]);
}

#[test]
fn test_beginning_unknown() {
    let dict = testing_dict();
    let strokes = vec![Stroke::new("KW"), Stroke::new("H-L"), Stroke::new("WORLD")];

    let translations = translate_strokes(&strokes, &dict);

    assert_eq!(translations, vec![text("request a hello world")]);
}

#[test]
fn test_multiple_translations() {
    let dict = testing_dict();
    let strokes = vec![Stroke::new("H-L"), Stroke::new("TKAO*ER")];

    let translations = translate_strokes(&strokes, &dict);

    assert_eq!(
        translations,
        vec![
            text("Hello"),
            Translation::Command {
                cmds: vec![Command::PrintHello],
                text_after: Some(vec![Text::Lit("deer and printing hello".to_string())]),
                suppress_space_before: false,
            },
        ]
    );
}

#[test]
fn lookup_spans_at_most_fifteen_strokes() {
    let key16 = vec!["S"; 16].join("/");
    let key15 = vec!["S"; 15].join("/");
    let raw = format!(r#"{{"{}": "sixteen", "{}": "fifteen"}}"#, key16, key15);
    let dict = Dictionary::new(vec![raw]).unwrap();
    let strokes: Vec<Stroke> = (0..16).map(|_| Stroke::new("S")).collect();

    let translations = translate_strokes(&strokes, &dict);

    assert_eq!(translations, vec![text("fifteen"), unknown("S")]);
}

#[test]
fn lookup_prefers_longest_match() {
    let raw = r#"{"H-L": "hello", "H-L/WORLD": "hello world", "WORLD": "world"}"#.to_string();
    let dict = Dictionary::new(vec![raw]).unwrap();
    let strokes = vec![Stroke::new("H-L"), Stroke::new("WORLD"), Stroke::new("WORLD")];

    let translations = translate_strokes(&strokes, &dict);

    assert_eq!(translations, vec![text("hello world"), text("world")]);
}

#[test]
fn lookup_of_nothing_is_empty() {
    let dict = testing_dict();
    assert_eq!(translate_strokes(&vec![], &dict), vec![]);
}

#[test]
fn dictionary_translate_matches_translate_strokes() {
    let dict = testing_dict();
    let strokes = vec![Stroke::new("KW"), Stroke::new("H-L"), Stroke::new("WORLD")];
    assert_eq!(dict.translate(&strokes), translate_strokes(&strokes, &dict));
}

#[test]
fn command_after_text_attaches_when_asked() {
    let old = vec![text("hello")];
    let new = vec![
        text("hello"),
        Translation::Command {
            cmds: vec![Command::PrintHello],
            text_after: Some(vec![Text::Lit("x".to_string())]),
            suppress_space_before: true,
        },
    ];
    assert_eq!(
        plojo::diff::translation_diff(&old, &new, false),
        vec![Command::Replace(0, "x".to_string()), Command::PrintHello]
    );
    let spaced = vec![
        text("hello"),
        Translation::Command {
            cmds: vec![Command::PrintHello],
            text_after: Some(vec![Text::Lit("x".to_string())]),
            suppress_space_before: false,
        },
    ];
    assert_eq!(
        plojo::diff::translation_diff(&old, &spaced, false),
        vec![Command::Replace(0, " x".to_string()), Command::PrintHello]
    );
    assert_eq!(
        plojo::diff::translation_diff(&new, &new, false),
        vec![Command::NoOp]
    );
}
