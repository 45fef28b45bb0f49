use plojo::{
    is_text, Command, StandardTranslator, StateAction, Stroke, Text, TextAction, Translation,
    Translator,
};

fn translator(dict: &str) -> StandardTranslator {
    StandardTranslator::new(vec![dict.to_string()], vec![], vec![], None, false).unwrap()
}

fn replace(n: usize, s: &str) -> Vec<Command> {
    vec![Command::Replace(n, s.to_string())]
}

fn history(t: &StandardTranslator) -> Vec<String> {
    t.history().iter().map(|s| s.as_str().to_string()).collect()
}

fn apply(buffer: &mut String, commands: &[Command]) {
    for c in commands {
        if let Command::Replace(n, s) = c {
            let keep = buffer.chars().count() - n;
            *buffer = buffer.chars().take(keep).collect::<String>() + s;
        }
    }
}

#[test]
fn test_is_text() {
    assert_eq!(
        is_text(Translation::Text(vec![Text::Lit("hello".to_owned())])),
        true
    );
    assert_eq!(
        is_text(Translation::Text(vec![Text::Glued("s".to_owned())])),
        true
    );
    assert_eq!(
        is_text(Translation::Text(vec![Text::StateAction(
            StateAction::ForceCapitalize
        )])),
        false
    );
    assert_eq!(
        is_text(Translation::Text(vec![Text::TextAction(
            TextAction::CapitalizePrev
        )])),
        false
    );
    assert_eq!(
        is_text(Translation::Command {
            cmds: vec![],
            text_after: None,
            suppress_space_before: false,
        }),
        false
    );
    assert_eq!(
        is_text(Translation::Command {
            cmds: vec![Command::NoOp],
            text_after: Some(vec![Text::StateAction(StateAction::ForceCapitalize)]),
            suppress_space_before: false,
        }),
        false
    );
    assert_eq!(
        is_text(Translation::Command {
            cmds: vec![Command::NoOp],
            text_after: Some(vec![]),
            suppress_space_before: false,
        }),
        false
    );
}

#[test]
fn two_words() {
    let mut t = translator(r#"{"H-L":"hello","WORLD":"world"}"#);
    let mut buffer = String::new();
    let c1 = t.translate(Stroke::new("H-L"));
    assert_eq!(c1, replace(0, " hello"));
    apply(&mut buffer, &c1);
    let c2 = t.translate(Stroke::new("WORLD"));
    assert_eq!(c2, replace(0, " world"));
    apply(&mut buffer, &c2);
    assert_eq!(buffer, " hello world");
}

#[test]
fn capitalize_next() {
    let mut t = translator(r#"{"H-L":"hello","KPA":"{-|}"}"#);
    assert_eq!(t.translate(Stroke::new("KPA")), vec![Command::NoOp]);
    assert_eq!(t.translate(Stroke::new("H-L")), replace(0, " Hello"));
}

#[test]
fn attach_suffix() {
    let mut t = translator(r#"{"H-L":"hello","-S":"{^s}"}"#);
    let mut buffer = String::new();
    let c1 = t.translate(Stroke::new("H-L"));
    assert_eq!(c1, replace(0, " hello"));
    apply(&mut buffer, &c1);
    let c2 = t.translate(Stroke::new("-S"));
    assert_eq!(c2, replace(0, "s"));
    apply(&mut buffer, &c2);
    assert_eq!(buffer, " hellos");
}

#[test]
fn capitalize_previous() {
    let mut t = translator(r#"{"TKAOER":"deer","AOE":"{*-|}"}"#);
    assert_eq!(t.translate(Stroke::new("TKAOER")), replace(0, " deer"));
    assert_eq!(t.translate(Stroke::new("AOE")), replace(4, "Deer"));
}

#[test]
fn glued_numbers() {
    let mut t = translator(r#"{"1-9":"{&1}","-7":"{&7}"}"#);
    let mut buffer = String::new();
    let c1 = t.translate(Stroke::new("1-9"));
    assert_eq!(c1, replace(0, " 1"));
    apply(&mut buffer, &c1);
    let c2 = t.translate(Stroke::new("-7"));
    assert_eq!(c2, replace(0, "7"));
    apply(&mut buffer, &c2);
    assert_eq!(buffer, " 17");
}

#[test]
fn retro_space() {
    let dict = r#"{"H-L":"hello","WORLD":"world","S-P":" "}"#.to_string();
    let mut t = StandardTranslator::new(
        vec![dict],
        vec![],
        vec![Stroke::new("A*")],
        Some(Stroke::new("S-P")),
        false,
    )
    .unwrap();
    let mut buffer = String::new();
    for s in ["H-L", "WORLD"] {
        let c = t.translate(Stroke::new(s));
        apply(&mut buffer, &c);
    }
    assert_eq!(buffer, " hello world");
    let c = t.translate(Stroke::new("A*"));
    assert_eq!(history(&t), vec!["H-L", "S-P", "WORLD"]);
    apply(&mut buffer, &c);
    assert_eq!(buffer, " hello   world");
    assert_eq!(c, replace(5, "  world"));
}

#[test]
fn retro_space_skips_strokes_without_text() {
    let dict = r#"{"H-L":"hello","KPA":"{-|}","S-P":"{^ ^}"}"#.to_string();
    let mut t = StandardTranslator::new(
        vec![dict],
        vec![],
        vec![Stroke::new("A*")],
        Some(Stroke::new("S-P")),
        false,
    )
    .unwrap();
    t.translate(Stroke::new("H-L"));
    t.translate(Stroke::new("KPA"));
    t.translate(Stroke::new("A*"));
    assert_eq!(history(&t), vec!["S-P", "H-L", "KPA"]);
}

#[test]
fn retro_space_with_no_text_inserts_at_front() {
    let dict = r#"{"KPA":"{-|}","S-P":" "}"#.to_string();
    let mut t = StandardTranslator::new(
        vec![dict],
        vec![],
        vec![Stroke::new("A*")],
        Some(Stroke::new("S-P")),
        false,
    )
    .unwrap();
    t.translate(Stroke::new("KPA"));
    t.translate(Stroke::new("A*"));
    assert_eq!(history(&t), vec!["S-P", "KPA"]);
}

#[test]
fn history_is_bounded() {
    let mut t = translator(r#"{"H-L":"hello"}"#);
    for _ in 0..120 {
        t.translate(Stroke::new("H-L"));
        assert!(t.history().len() <= 50);
    }
    assert_eq!(t.history().len(), 50);
}

#[test]
fn starting_strokes_are_kept() {
    let start: Vec<Stroke> = (0..60).map(|_| Stroke::new("H-L")).collect();
    let t = StandardTranslator::new(vec!["{}".to_string()], start, vec![], None, false).unwrap();
    assert_eq!(t.history().len(), 50);
}

#[test]
fn undo_removes_last_word() {
    let mut t = translator(r#"{"H-L":"hello","WORLD":"world"}"#);
    t.translate(Stroke::new("H-L"));
    t.translate(Stroke::new("WORLD"));
    assert_eq!(t.undo(), replace(6, ""));
    assert_eq!(history(&t), vec!["H-L"]);
}

#[test]
fn undo_skips_invisible_strokes() {
    let mut t = translator(r#"{"H-L":"hello","KPA":"{-|}"}"#);
    t.translate(Stroke::new("H-L"));
    t.translate(Stroke::new("KPA"));
    t.translate(Stroke::new("KPA"));
    assert_eq!(t.undo(), replace(6, ""));
    assert!(t.history().is_empty());
}

#[test]
fn undo_on_empty_history() {
    let mut t = translator(r#"{"H-L":"hello"}"#);
    assert_eq!(t.undo(), vec![Command::NoOp]);
    assert!(t.history().is_empty());
}

#[test]
fn undo_restores_previous_text() {
    let mut t = translator(r#"{"H-L":"hello","-S":"{^s}","WORLD":"world"}"#);
    let mut buffer = String::new();
    for s in ["H-L", "-S", "WORLD"] {
        let c = t.translate(Stroke::new(s));
        apply(&mut buffer, &c);
    }
    let before_last = String::from(" hellos");
    let c = t.undo();
    apply(&mut buffer, &c);
    assert_eq!(buffer, before_last);
    let c = t.undo();
    apply(&mut buffer, &c);
    assert_eq!(buffer, " hello");
}

#[test]
fn commands_track_rendering() {
    let dict = r#"{"H-L":"hello","H-L/WORLD":"hi there","WORLD":"world","KPA":"{-|}","-S":"{^s}"}"#;
    let strokes = ["KPA", "H-L", "WORLD", "-S", "H-L", "KPA", "WORLD"];
    let mut t = translator(dict);
    let mut buffer = String::new();
    for s in strokes {
        let c = t.translate(Stroke::new(s));
        apply(&mut buffer, &c);
    }
    assert_eq!(buffer, " Hi theres hello World");
}

#[test]
fn translate_is_deterministic() {
    let dict = r#"{"H-L":"hello","WORLD":"world"}"#;
    let mut a = translator(dict);
    let mut b = translator(dict);
    for s in ["H-L", "WORLD", "H-L"] {
        assert_eq!(a.translate(Stroke::new(s)), b.translate(Stroke::new(s)));
    }
}

#[test]
fn clear_twice_is_clear_once() {
    let mut t = translator(r#"{"H-L":"hello"}"#);
    for s in ["H-L", "WORLD", "-S"] {
        t.translate(Stroke::new(s));
    }
    t.handle_command("clear_prev_strokes".to_string());
    let once = history(&t);
    assert_eq!(once, vec!["-S"]);
    t.handle_command("clear_prev_strokes".to_string());
    assert_eq!(history(&t), once);
}

#[test]
fn toggle_space_after() {
    let mut t = translator(r#"{"H-L":"hello"}"#);
    assert!(!t.space_after());
    t.handle_command("toggle_space_after".to_string());
    assert!(t.space_after());
    assert_eq!(t.translate(Stroke::new("H-L")), replace(0, "hello "));
    t.handle_command("something_else".to_string());
    assert!(t.space_after());
}

#[test]
fn command_translation_is_emitted() {
    let mut t = translator(r#"{"H-L":"hello","KHRAOER":"{PLOVER:CLEAR_PREV_STROKES}"}"#);
    t.translate(Stroke::new("H-L"));
    assert_eq!(
        t.translate(Stroke::new("KHRAOER")),
        vec![
            Command::NoOp,
            Command::TranslatorCommand("clear_prev_strokes".to_string())
        ]
    );
}

#[test]
fn through_the_trait() {
    let mut t = translator(r#"{"H-L":"hello"}"#);
    let r: &mut dyn Translator = &mut t;
    assert_eq!(r.translate(Stroke::new("H-L")), replace(0, " hello"));
    assert_eq!(r.undo(), replace(6, ""));
}

#[test]
fn undo_does_not_repeat_commands() {
    let mut t = translator(r#"{"A":"{#a}","A/-B":"hello"}"#);
    t.translate(Stroke::new("A"));
    t.translate(Stroke::new("-B"));
    assert_eq!(t.undo(), replace(6, ""));
    assert_eq!(history(&t), vec!["A"]);
}

#[test]
fn undo_skips_command_strokes_without_text() {
    let mut t = translator(r#"{"H-L":"hello","TKPW":"{#Return}"}"#);
    t.translate(Stroke::new("H-L"));
    t.translate(Stroke::new("TKPW"));
    assert_eq!(t.undo(), replace(6, ""));
    assert!(t.history().is_empty());
}

#[test]
fn undo_with_only_invisible_strokes_empties_history() {
    let mut t = translator(r#"{"KPA":"{-|}","TKPW":"{#Return}"}"#);
    t.translate(Stroke::new("KPA"));
    t.translate(Stroke::new("TKPW"));
    assert_eq!(t.undo(), vec![Command::NoOp]);
    assert!(t.history().is_empty());
}

#[test]
fn only_the_last_ten_strokes_are_translated_again() {
    let mut t = translator(r#"{"TP/TP":"two"}"#);
    let mut buffer = String::new();
    for _ in 0..12 {
        let c = t.translate(Stroke::new("TP"));
        apply(&mut buffer, &c);
    }
    assert_eq!(buffer, " two two two two two TP TP");
}
