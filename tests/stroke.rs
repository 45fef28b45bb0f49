use plojo::diff::diff_strings;
use plojo::machine::parse_geminipr;
use plojo::MachineError;
use plojo::{Command, Config, InputMachineType, OutputDispatchType, Stroke};

#[test]
fn strokes_are_normalized() {
    assert_eq!(Stroke::new("HL").as_str(), "H-L");
    assert_eq!(Stroke::new("H-L").as_str(), "H-L");
    assert_eq!(Stroke::new("S").as_str(), "S");
    assert_eq!(Stroke::new("-S").as_str(), "-S");
    assert_eq!(Stroke::new("TKAO*ER").as_str(), "TKAO*ER");
    assert_eq!(Stroke::new("1-9").as_str(), "1-9");
    assert_eq!(Stroke::new("TS").as_str(), "T-S");
    assert_eq!(Stroke::new("A-E").as_str(), "A-E");
    assert_eq!(Stroke::new("EA").as_str(), "EA");
    assert_eq!(Stroke::new("AE").as_str(), "AE");
    assert_eq!(Stroke::new("not a stroke").as_str(), "not a stroke");
}

#[test]
fn stroke_predicates() {
    assert!(Stroke::new("*").is_undo());
    assert!(!Stroke::new("A*").is_undo());
    assert!(Stroke::new("1-9").is_number());
    assert!(!Stroke::new("1-9").is_digits());
    assert!(Stroke::new("12").is_digits());
    assert!(!Stroke::new("H-L").is_number());
}

#[test]
fn diff_of_strings() {
    assert_eq!(diff_strings("abc", "abc"), Command::NoOp);
    assert_eq!(
        diff_strings(" hello", " hellos"),
        Command::Replace(0, "s".to_string())
    );
    assert_eq!(
        diff_strings(" deer", " Deer"),
        Command::Replace(4, "Deer".to_string())
    );
    assert_eq!(diff_strings("∅ab", "∅"), Command::Replace(2, "".to_string()));
}

#[test]
fn add_and_replace_text() {
    assert_eq!(Command::add_text("hi"), Command::Replace(0, "hi".to_string()));
    assert_eq!(
        Command::replace_text(3, "hi"),
        Command::Replace(3, "hi".to_string())
    );
}

#[test]
fn config_strokes() {
    let config = Config {
        input_machine: InputMachineType::Stdin,
        output_dispatcher: OutputDispatchType::Stdout,
        dicts: vec![],
        retrospective_add_space_strokes: vec!["A*".to_string(), "HL".to_string()],
        space_stroke: Some("SP".to_string()),
        space_after: false,
        delay_output: false,
        disable_input_strokes: vec!["HL".to_string(), "H-L".to_string(), "A".to_string()],
        enable_input_shortcuts: vec![],
        disable_scan_keymap: false,
    };
    assert_eq!(
        config.get_retro_add_space(),
        vec![Stroke::new("A*"), Stroke::new("H-L")]
    );
    assert_eq!(config.get_space_stroke(), Some(Stroke::new("SP")));
    assert_eq!(config.get_space_stroke().unwrap().as_str(), "SP");
    assert_eq!(
        config.get_disable_input_strokes(),
        vec![Stroke::new("H-L"), Stroke::new("A")]
    );
}

#[test]
fn gemini_packets() {
    assert_eq!(
        parse_geminipr(&[0x80, 0x01, 0, 0, 0x10, 0]).unwrap().as_str(),
        "H-L"
    );
    assert_eq!(
        parse_geminipr(&[0xA0, 0x40, 0, 0, 0x04, 0]).unwrap().as_str(),
        "1-9"
    );
    assert!(parse_geminipr(&[0x80, 0, 0x08, 0, 0, 0]).unwrap().is_undo());
    assert_eq!(
        parse_geminipr(&[0x80, 0x08, 0x40, 0, 0, 0x01]).unwrap().as_str(),
        "KR-Z"
    );
    assert_eq!(
        parse_geminipr(&[0x00, 0x01, 0, 0, 0x10, 0]),
        Err(MachineError::MalformedPacket)
    );
    assert_eq!(
        parse_geminipr(&[0x80, 0x01, 0]),
        Err(MachineError::MalformedPacket)
    );
}

#[test]
fn whitespace_matches_std() {
    for u in 0..=0x10FFFFu32 {
        if let Some(c) = char::from_u32(u) {
            assert_eq!(plojo::chars::is_whitespace(c), c.is_whitespace(), "{:x}", u);
        }
    }
}
