//! Parses dictionary values written in Plover's syntax: plain text with `{...}` metas.
//!
//! | meta | meaning |
//! |---|---|
//! | `{^text}` / `{text^}` / `{^text^}` | text attached to the previous word (with orthography), to the next, or both |
//! | `{^}` | attach the previous and the next word |
//! | `{&text}` | glued text |
//! | `{-|}`, `{<}`, `{>}` | capitalize the next word, upper-case it, lower-case it |
//! | `{*-|}`, `{*<}`, `{*>}`, `{*!}` | the same for the previous word; remove the space before it |
//! | `{.}`, `{?}`, `{!}` | punctuation attached to the previous word, capitalizing the next |
//! | `{,}`, `{:}`, `{;}` | punctuation attached to the previous word |
//! | `{PLOVER:NAME}` | a command for the translator, named in lower case |
//! | `{#key}`, `{#shift(key)}` | a key press, with modifiers around it |
//! | `{}` | nothing |
use vstd::prelude::*;

use crate::chars::{chars_of, copy_chars, lower_of, same_chars, string_of, to_lower};
use crate::commands::{no_edits, Command, CommandV, Key, Modifier, SpecialKey};
use crate::translation::{
    plain_translation, AttachedType, StateAction, Text, TextAction, TextV, Translation,
    TranslationV,
};

verus! {

/// Why a dictionary could not be read.
#[derive(Debug, Clone, Copy, PartialEq, Eq, Structural)]
pub enum ParseFailure {
    /// The dictionary is not a JSON object of strings.
    MalformedJson,
    /// A `{` without its `}`, or a `{` inside braces.
    UnclosedBrace,
    /// A meta that is not known.
    UnknownCommand,
}

/// The names of special keys, lower case.
pub open spec fn special_key_names() -> Seq<(Seq<char>, SpecialKey)> {
    seq![
        ("backspace"@, SpecialKey::Backspace),
        ("caps_lock"@, SpecialKey::CapsLock),
        ("delete"@, SpecialKey::Delete),
        ("down"@, SpecialKey::DownArrow),
        ("end"@, SpecialKey::End),
        ("escape"@, SpecialKey::Escape),
        ("f1"@, SpecialKey::F1),
        ("f10"@, SpecialKey::F10),
        ("f11"@, SpecialKey::F11),
        ("f12"@, SpecialKey::F12),
        ("f2"@, SpecialKey::F2),
        ("f3"@, SpecialKey::F3),
        ("f4"@, SpecialKey::F4),
        ("f5"@, SpecialKey::F5),
        ("f6"@, SpecialKey::F6),
        ("f7"@, SpecialKey::F7),
        ("f8"@, SpecialKey::F8),
        ("f9"@, SpecialKey::F9),
        ("home"@, SpecialKey::Home),
        ("left"@, SpecialKey::LeftArrow),
        ("page_down"@, SpecialKey::PageDown),
        ("page_up"@, SpecialKey::PageUp),
        ("return"@, SpecialKey::Return),
        ("right"@, SpecialKey::RightArrow),
        ("space"@, SpecialKey::Space),
        ("tab"@, SpecialKey::Tab),
        ("up"@, SpecialKey::UpArrow),
    ]
}

/// The names of modifiers, lower case.
pub open spec fn modifier_names() -> Seq<(Seq<char>, Modifier)> {
    seq![
        ("alt"@, Modifier::Alt),
        ("control"@, Modifier::Control),
        ("super"@, Modifier::Meta),
        ("option"@, Modifier::Option),
        ("shift"@, Modifier::Shift),
    ]
}

/// The value of the first entry of `table` named `name`.
pub open spec fn named<K>(table: Seq<(Seq<char>, K)>, name: Seq<char>) -> Option<K>
    decreases table.len(),
{
    if table.len() == 0 {
        None
    } else if table[0].0 == name {
        Some(table[0].1)
    } else {
        named(table.drop_first(), name)
    }
}

/// Index of the first `c` in `s`, or `s.len()`.
pub open spec fn index_of(s: Seq<char>, c: char) -> nat
    decreases s.len(),
{
    if s.len() == 0 || s[0] == c {
        0
    } else {
        1 + index_of(s.drop_first(), c)
    }
}

/// A key combination: `name`, or `modifier(combination)`. Names are read in lower case.
pub open spec fn key_combo(s: Seq<char>) -> Option<(Key, Seq<Modifier>)>
    decreases s.len(),
{
    let p = index_of(s, '(') as int;
    if p < s.len() && s.len() >= 2 && s.last() == ')' {
        if p + 1 <= s.len() - 1 {
            match (named(modifier_names(), lower_of(s.take(p))), key_combo(
                s.subrange(p + 1, s.len() - 1),
            )) {
                (Some(m), Some((k, ms))) => Some((k, seq![m] + ms)),
                _ => None,
            }
        } else {
            None
        }
    } else if s.len() == 1 {
        Some((Key::Layout(s[0]), Seq::empty()))
    } else {
        match named(special_key_names(), lower_of(s)) {
            Some(k) => Some((Key::Special(k), Seq::empty())),
            None => None,
        }
    }
}

pub open spec fn one_atom(t: TextV) -> Result<(Seq<TextV>, Seq<CommandV>), ParseFailure> {
    Ok((seq![t], Seq::empty()))
}

pub open spec fn attached(text: Seq<char>, next: bool, prev: AttachedType) -> TextV {
    TextV::Attached { text, joined_next: next, joined_prev: prev, carry_capitalization: false }
}

/// The atoms and commands of the meta `{c}`.
pub open spec fn meta_atoms(c: Seq<char>) -> Result<(Seq<TextV>, Seq<CommandV>), ParseFailure> {
    if c == seq!['-', '|'] {
        one_atom(TextV::StateAction(StateAction::ForceCapitalize))
    } else if c == seq!['<'] {
        one_atom(TextV::StateAction(StateAction::SameCase(true)))
    } else if c == seq!['>'] {
        one_atom(TextV::StateAction(StateAction::SameCase(false)))
    } else if c == seq!['*', '-', '|'] {
        one_atom(TextV::TextAction(TextAction::CapitalizePrev))
    } else if c == seq!['*', '<'] {
        one_atom(TextV::TextAction(TextAction::SameCasePrev(true)))
    } else if c == seq!['*', '>'] {
        one_atom(TextV::TextAction(TextAction::SameCasePrev(false)))
    } else if c == seq!['*', '!'] {
        one_atom(TextV::TextAction(TextAction::SuppressSpacePrev))
    } else if c == seq!['.'] || c == seq!['?'] || c == seq!['!'] {
        Ok(
            (
                seq![
                    attached(c, false, AttachedType::AttachOnly),
                    TextV::StateAction(StateAction::ForceCapitalize),
                ],
                Seq::empty(),
            ),
        )
    } else if c == seq![','] || c == seq![':'] || c == seq![';'] {
        one_atom(attached(c, false, AttachedType::AttachOnly))
    } else if c == seq!['^'] {
        one_atom(attached(Seq::empty(), true, AttachedType::AttachOnly))
    } else if c.len() == 0 {
        Ok((Seq::empty(), Seq::empty()))
    } else if c[0] == '&' {
        one_atom(TextV::Glued(c.drop_first()))
    } else if c.len() >= 7 && c.take(7) == "PLOVER:"@ {
        let name = lower_of(c.skip(7));
        if name == "print_hello"@ {
            Ok((Seq::empty(), seq![CommandV::PrintHello]))
        } else if name.len() > 0 {
            Ok((Seq::empty(), seq![CommandV::TranslatorCommand(name)]))
        } else {
            Err(ParseFailure::UnknownCommand)
        }
    } else if c[0] == '#' {
        match key_combo(c.drop_first()) {
            Some((k, ms)) => Ok((Seq::empty(), seq![CommandV::Keys(k, ms)])),
            None => Err(ParseFailure::UnknownCommand),
        }
    } else if c[0] == '^' || c.last() == '^' {
        let prev = c[0] == '^';
        let next = c.last() == '^';
        let text = c.subrange(
            if prev {
                1
            } else {
                0
            },
            if next {
                c.len() - 1
            } else {
                c.len() as int
            },
        );
        one_atom(
            attached(
                text,
                next,
                if prev {
                    AttachedType::ApplyOrthography
                } else {
                    AttachedType::DoNotAttach
                },
            ),
        )
    } else {
        Err(ParseFailure::UnknownCommand)
    }
}

/// Where the parser stands after a prefix of the value.
pub struct ParseState {
    pub atoms: Seq<TextV>,
    pub cmds: Seq<CommandV>,
    /// Inside braces.
    pub inside: bool,
    /// The text read since the last brace.
    pub cur: Seq<char>,
    pub failure: Option<ParseFailure>,
}

/// The atoms with the pending text, if any, added as a literal.
pub open spec fn flushed(st: ParseState) -> Seq<TextV> {
    if st.cur.len() > 0 {
        st.atoms.push(TextV::Lit(st.cur))
    } else {
        st.atoms
    }
}

pub open spec fn parse_step(st: ParseState, c: char) -> ParseState {
    if st.failure is Some {
        st
    } else if !st.inside {
        if c == '{' {
            ParseState { atoms: flushed(st), cmds: st.cmds, inside: true, cur: Seq::empty(), failure: None }
        } else {
            ParseState { cur: st.cur.push(c), ..st }
        }
    } else if c == '}' {
        match meta_atoms(st.cur) {
            Ok((a, m)) => ParseState {
                atoms: st.atoms + a,
                cmds: st.cmds + m,
                inside: false,
                cur: Seq::empty(),
                failure: None,
            },
            Err(e) => ParseState { failure: Some(e), ..st },
        }
    } else if c == '{' {
        ParseState { failure: Some(ParseFailure::UnclosedBrace), ..st }
    } else {
        ParseState { cur: st.cur.push(c), ..st }
    }
}

pub open spec fn parse_fold(s: Seq<char>) -> ParseState
    decreases s.len(),
{
    if s.len() == 0 {
        ParseState { atoms: Seq::empty(), cmds: Seq::empty(), inside: false, cur: Seq::empty(), failure: None }
    } else {
        parse_step(parse_fold(s.drop_last()), s.last())
    }
}

/// The translation that a dictionary value stands for. Values with commands become command
/// translations, their text following the commands.
pub open spec fn parse_value(s: Seq<char>) -> Result<TranslationV, ParseFailure> {
    let st = parse_fold(s);
    if st.failure is Some {
        Err(st.failure->0)
    } else if st.inside {
        Err(ParseFailure::UnclosedBrace)
    } else if st.cmds.len() == 0 {
        Ok(TranslationV::Text(flushed(st)))
    } else {
        Ok(
            TranslationV::Command {
                cmds: st.cmds,
                text_after: if flushed(st).len() == 0 {
                    None
                } else {
                    Some(flushed(st))
                },
                suppress_space_before: false,
            },
        )
    }
}

} // verus!

verus! {

fn special_key_table() -> (r: Vec<(Vec<char>, SpecialKey)>)
    ensures
        r@.len() == special_key_names().len(),
        forall|i: int|
            0 <= i < r@.len() ==> (#[trigger] r@[i]).0@ == special_key_names()[i].0 && r@[i].1
                == special_key_names()[i].1,
{
    let mut r: Vec<(Vec<char>, SpecialKey)> = Vec::new();
    r.push((chars_of("backspace"), SpecialKey::Backspace));
    r.push((chars_of("caps_lock"), SpecialKey::CapsLock));
    r.push((chars_of("delete"), SpecialKey::Delete));
    r.push((chars_of("down"), SpecialKey::DownArrow));
    r.push((chars_of("end"), SpecialKey::End));
    r.push((chars_of("escape"), SpecialKey::Escape));
    r.push((chars_of("f1"), SpecialKey::F1));
    r.push((chars_of("f10"), SpecialKey::F10));
    r.push((chars_of("f11"), SpecialKey::F11));
    r.push((chars_of("f12"), SpecialKey::F12));
    r.push((chars_of("f2"), SpecialKey::F2));
    r.push((chars_of("f3"), SpecialKey::F3));
    r.push((chars_of("f4"), SpecialKey::F4));
    r.push((chars_of("f5"), SpecialKey::F5));
    r.push((chars_of("f6"), SpecialKey::F6));
    r.push((chars_of("f7"), SpecialKey::F7));
    r.push((chars_of("f8"), SpecialKey::F8));
    r.push((chars_of("f9"), SpecialKey::F9));
    r.push((chars_of("home"), SpecialKey::Home));
    r.push((chars_of("left"), SpecialKey::LeftArrow));
    r.push((chars_of("page_down"), SpecialKey::PageDown));
    r.push((chars_of("page_up"), SpecialKey::PageUp));
    r.push((chars_of("return"), SpecialKey::Return));
    r.push((chars_of("right"), SpecialKey::RightArrow));
    r.push((chars_of("space"), SpecialKey::Space));
    r.push((chars_of("tab"), SpecialKey::Tab));
    r.push((chars_of("up"), SpecialKey::UpArrow));
    r
}

fn modifier_table() -> (r: Vec<(Vec<char>, Modifier)>)
    ensures
        r@.len() == modifier_names().len(),
        forall|i: int|
            0 <= i < r@.len() ==> (#[trigger] r@[i]).0@ == modifier_names()[i].0 && r@[i].1
                == modifier_names()[i].1,
{
    let mut r: Vec<(Vec<char>, Modifier)> = Vec::new();
    r.push((chars_of("alt"), Modifier::Alt));
    r.push((chars_of("control"), Modifier::Control));
    r.push((chars_of("super"), Modifier::Meta));
    r.push((chars_of("option"), Modifier::Option));
    r.push((chars_of("shift"), Modifier::Shift));
    r
}

proof fn lemma_named_skip<K>(table: Seq<(Seq<char>, K)>, name: Seq<char>, i: int)
    requires
        0 <= i < table.len(),
    ensures
        named(table.skip(i), name) == if table[i].0 == name {
            Some(table[i].1)
        } else {
            named(table.skip(i + 1), name)
        },
{
    assert(table.skip(i).drop_first() =~= table.skip(i + 1));
}

fn find_special_key(name: &[char]) -> (r: Option<SpecialKey>)
    ensures
        r == named(special_key_names(), name@),
{
    let table = special_key_table();
    let ghost t = special_key_names();
    let mut i: usize = 0;
    proof {
        assert(t.skip(0) =~= t);
    }
    while i < table.len()
        invariant
            i <= table@.len(),
            t == special_key_names(),
            table@.len() == t.len(),
            forall|j: int|
                0 <= j < table@.len() ==> (#[trigger] table@[j]).0@ == t[j].0 && table@[j].1
                    == t[j].1,
            named(t, name@) == named(t.skip(i as int), name@),
        decreases table@.len() - i,
    {
        proof {
            lemma_named_skip(t, name@, i as int);
        }
        if same_chars(table[i].0.as_slice(), name) {
            return Some(table[i].1);
        }
        i = i + 1;
    }
    proof {
        assert(t.skip(i as int).len() == 0);
    }
    None
}

fn find_modifier(name: &[char]) -> (r: Option<Modifier>)
    ensures
        r == named(modifier_names(), name@),
{
    let table = modifier_table();
    let ghost t = modifier_names();
    let mut i: usize = 0;
    proof {
        assert(t.skip(0) =~= t);
    }
    while i < table.len()
        invariant
            i <= table@.len(),
            t == modifier_names(),
            table@.len() == t.len(),
            forall|j: int|
                0 <= j < table@.len() ==> (#[trigger] table@[j]).0@ == t[j].0 && table@[j].1
                    == t[j].1,
            named(t, name@) == named(t.skip(i as int), name@),
        decreases table@.len() - i,
    {
        proof {
            lemma_named_skip(t, name@, i as int);
        }
        if same_chars(table[i].0.as_slice(), name) {
            return Some(table[i].1);
        }
        i = i + 1;
    }
    proof {
        assert(t.skip(i as int).len() == 0);
    }
    None
}

fn find_char(s: &[char], c: char) -> (r: usize)
    ensures
        r == index_of(s@, c),
        r <= s@.len(),
{
    let mut i: usize = 0;
    proof {
        assert(s@.skip(0) =~= s@);
    }
    while i < s.len() && s[i] != c
        invariant
            i <= s@.len(),
            index_of(s@, c) == i + index_of(s@.skip(i as int), c),
        decreases s@.len() - i,
    {
        proof {
            assert(s@.skip(i as int).drop_first() =~= s@.skip(i + 1));
        }
        i = i + 1;
    }
    proof {
        if i < s@.len() {
            assert(s@.skip(i as int)[0] == s@[i as int]);
        }
    }
    i
}

fn parse_key_combo(s: &[char]) -> (r: Option<(Key, Vec<Modifier>)>)
    ensures
        match r {
            Some((k, ms)) => key_combo(s@) == Some((k, ms@)),
            None => key_combo(s@) is None,
        },
    decreases s@.len(),
{
    let n = s.len();
    let p = find_char(s, '(');
    if p < n && n >= 2 && s[n - 1] == ')' {
        if p + 1 <= n - 1 {
            let prefix = copy_chars(s, 0, p);
            let lowered = to_lower(prefix.as_slice());
            let m = find_modifier(lowered.as_slice());
            let inner = copy_chars(s, p + 1, n - 1);
            proof {
                assert(prefix@ =~= s@.take(p as int));
            }
            match m {
                Some(m) => match parse_key_combo(inner.as_slice()) {
                    Some((k, ms)) => {
                        let mut all: Vec<Modifier> = Vec::new();
                        all.push(m);
                        let mut rest = ms;
                        all.append(&mut rest);
                        proof {
                            assert(all@ =~= seq![m] + ms@);
                        }
                        Some((k, all))
                    },
                    None => None,
                },
                None => None,
            }
        } else {
            None
        }
    } else if n == 1 {
        let v: Vec<Modifier> = Vec::new();
        proof {
            assert(v@ =~= Seq::<Modifier>::empty());
        }
        Some((Key::Layout(s[0]), v))
    } else {
        let lowered = to_lower(s);
        match find_special_key(lowered.as_slice()) {
            Some(k) => {
                let v: Vec<Modifier> = Vec::new();
                proof {
                    assert(v@ =~= Seq::<Modifier>::empty());
                }
                Some((Key::Special(k), v))
            },
            None => None,
        }
    }
}

} // verus!

verus! {

fn is_one(c: &[char], a: char) -> (r: bool)
    ensures
        r == (c@ == seq![a]),
{
    let r = c.len() == 1 && c[0] == a;
    proof {
        if r {
            assert(c@ =~= seq![a]);
        }
    }
    r
}

fn is_two(c: &[char], a: char, b: char) -> (r: bool)
    ensures
        r == (c@ == seq![a, b]),
{
    let r = c.len() == 2 && c[0] == a && c[1] == b;
    proof {
        if r {
            assert(c@ =~= seq![a, b]);
        }
    }
    r
}

fn is_three(c: &[char], a: char, b: char, d: char) -> (r: bool)
    ensures
        r == (c@ == seq![a, b, d]),
{
    let r = c.len() == 3 && c[0] == a && c[1] == b && c[2] == d;
    proof {
        if r {
            assert(c@ =~= seq![a, b, d]);
        }
    }
    r
}

/// The meta's result as values.
pub open spec fn meta_view(r: Result<(Vec<Text>, Vec<Command>), ParseFailure>) -> Result<
    (Seq<TextV>, Seq<CommandV>),
    ParseFailure,
> {
    match r {
        Ok((a, m)) => Ok((a.deep_view(), m.deep_view())),
        Err(e) => Err(e),
    }
}

fn single_atom(t: Text) -> (r: Result<(Vec<Text>, Vec<Command>), ParseFailure>)
    ensures
        meta_view(r) == one_atom(t.deep_view()),
{
    let mut a: Vec<Text> = Vec::new();
    a.push(t);
    let m: Vec<Command> = Vec::new();
    proof {
        assert(a.deep_view() =~= seq![t.deep_view()]);
        assert(m.deep_view() =~= Seq::<CommandV>::empty());
    }
    Ok((a, m))
}

fn single_command(c: Command) -> (r: Result<(Vec<Text>, Vec<Command>), ParseFailure>)
    ensures
        meta_view(r) == Ok::<(Seq<TextV>, Seq<CommandV>), ParseFailure>(
            (Seq::empty(), seq![c.deep_view()]),
        ),
{
    let a: Vec<Text> = Vec::new();
    let mut m: Vec<Command> = Vec::new();
    m.push(c);
    proof {
        assert(a.deep_view() =~= Seq::<TextV>::empty());
        assert(m.deep_view() =~= seq![c.deep_view()]);
    }
    Ok((a, m))
}

fn attached_atom(text: &[char], next: bool, prev: AttachedType) -> (r: Text)
    ensures
        r.deep_view() == attached(text@, next, prev),
{
    Text::Attached {
        text: string_of(text),
        joined_next: next,
        joined_prev: prev,
        carry_capitalization: false,
    }
}

/// Reads the meta `{c}`.
fn parse_meta(c: &[char]) -> (r: Result<(Vec<Text>, Vec<Command>), ParseFailure>)
    ensures
        meta_view(r) == meta_atoms(c@),
        r matches Ok((_, m)) ==> no_edits(m.deep_view()),
{
    let n = c.len();
    if is_two(c, '-', '|') {
        single_atom(Text::StateAction(StateAction::ForceCapitalize))
    } else if is_one(c, '<') {
        single_atom(Text::StateAction(StateAction::SameCase(true)))
    } else if is_one(c, '>') {
        single_atom(Text::StateAction(StateAction::SameCase(false)))
    } else if is_three(c, '*', '-', '|') {
        single_atom(Text::TextAction(TextAction::CapitalizePrev))
    } else if is_two(c, '*', '<') {
        single_atom(Text::TextAction(TextAction::SameCasePrev(true)))
    } else if is_two(c, '*', '>') {
        single_atom(Text::TextAction(TextAction::SameCasePrev(false)))
    } else if is_two(c, '*', '!') {
        single_atom(Text::TextAction(TextAction::SuppressSpacePrev))
    } else if is_one(c, '.') || is_one(c, '?') || is_one(c, '!') {
        let mut a: Vec<Text> = Vec::new();
        a.push(attached_atom(c, false, AttachedType::AttachOnly));
        a.push(Text::StateAction(StateAction::ForceCapitalize));
        let m: Vec<Command> = Vec::new();
        proof {
            assert(a.deep_view() =~= seq![
                attached(c@, false, AttachedType::AttachOnly),
                TextV::StateAction(StateAction::ForceCapitalize),
            ]);
            assert(m.deep_view() =~= Seq::<CommandV>::empty());
        }
        Ok((a, m))
    } else if is_one(c, ',') || is_one(c, ':') || is_one(c, ';') {
        single_atom(attached_atom(c, false, AttachedType::AttachOnly))
    } else if is_one(c, '^') {
        let empty: Vec<char> = Vec::new();
        proof {
            assert(empty@ =~= Seq::<char>::empty());
        }
        single_atom(attached_atom(empty.as_slice(), true, AttachedType::AttachOnly))
    } else if n == 0 {
        let a: Vec<Text> = Vec::new();
        let m: Vec<Command> = Vec::new();
        proof {
            assert(a.deep_view() =~= Seq::<TextV>::empty());
            assert(m.deep_view() =~= Seq::<CommandV>::empty());
        }
        Ok((a, m))
    } else if c[0] == '&' {
        let rest = copy_chars(c, 1, n);
        proof {
            assert(rest@ =~= c@.drop_first());
        }
        single_atom(Text::Glued(string_of(rest.as_slice())))
    } else if n >= 7 && same_chars(copy_chars(c, 0, 7).as_slice(), chars_of("PLOVER:").as_slice()) {
        proof {
            assert(c@.subrange(0, 7) =~= c@.take(7));
        }
        let rest = copy_chars(c, 7, n);
        proof {
            assert(rest@ =~= c@.skip(7));
        }
        let name = to_lower(rest.as_slice());
        if same_chars(name.as_slice(), chars_of("print_hello").as_slice()) {
            single_command(Command::PrintHello)
        } else if name.len() > 0 {
            single_command(Command::TranslatorCommand(string_of(name.as_slice())))
        } else {
            Err(ParseFailure::UnknownCommand)
        }
    } else if c[0] == '#' {
        let rest = copy_chars(c, 1, n);
        proof {
            assert(rest@ =~= c@.drop_first());
        }
        match parse_key_combo(rest.as_slice()) {
            Some((k, ms)) => single_command(Command::Keys(k, ms)),
            None => Err(ParseFailure::UnknownCommand),
        }
    } else if c[0] == '^' || c[n - 1] == '^' {
        let prev = c[0] == '^';
        let next = c[n - 1] == '^';
        proof {
            if n == 1 {
                assert(c@ =~= seq![c@[0]]);
            }
        }
        let from: usize = if prev {
            1
        } else {
            0
        };
        let to: usize = if next {
            n - 1
        } else {
            n
        };
        let text = copy_chars(c, from, to);
        single_atom(
            attached_atom(
                text.as_slice(),
                next,
                if prev {
                    AttachedType::ApplyOrthography
                } else {
                    AttachedType::DoNotAttach
                },
            ),
        )
    } else {
        Err(ParseFailure::UnknownCommand)
    }
}

} // verus!

verus! {

pub open spec fn state_of(
    atoms: Seq<TextV>,
    cmds: Seq<CommandV>,
    inside: bool,
    cur: Seq<char>,
    failure: Option<ParseFailure>,
) -> ParseState {
    ParseState { atoms, cmds, inside, cur, failure }
}

fn flush(atoms: &mut Vec<Text>, cur: &Vec<char>)
    ensures
        final(atoms).deep_view() == flushed(
            state_of(old(atoms).deep_view(), Seq::empty(), false, cur@, None),
        ),
{
    if cur.len() > 0 {
        let ghost before = atoms.deep_view();
        atoms.push(Text::Lit(string_of(cur.as_slice())));
        proof {
            assert(atoms.deep_view() =~= before.push(TextV::Lit(cur@)));
        }
    }
}

/// Reads a dictionary value into a translation.
pub fn parse_entry_value(value: &str) -> (r: Result<Translation, ParseFailure>)
    ensures
        match r {
            Ok(t) => parse_value(value@) == Ok::<TranslationV, ParseFailure>(t.deep_view())
                && plain_translation(t.deep_view()),
            Err(e) => parse_value(value@) == Err::<TranslationV, ParseFailure>(e),
        },
{
    let s = chars_of(value);
    let mut atoms: Vec<Text> = Vec::new();
    let mut cmds: Vec<Command> = Vec::new();
    let mut inside = false;
    let mut cur: Vec<char> = Vec::new();
    let mut failure: Option<ParseFailure> = None;
    let mut i: usize = 0;
    proof {
        assert(s@.take(0) =~= Seq::<char>::empty());
        assert(atoms.deep_view() =~= Seq::<TextV>::empty());
        assert(cmds.deep_view() =~= Seq::<CommandV>::empty());
    }
    while i < s.len()
        invariant
            i <= s@.len(),
            state_of(atoms.deep_view(), cmds.deep_view(), inside, cur@, failure) == parse_fold(
                s@.take(i as int),
            ),
            no_edits(cmds.deep_view()),
        decreases s@.len() - i,
    {
        proof {
            assert(s@.take(i + 1).drop_last() =~= s@.take(i as int));
        }
        let c = s[i];
        if failure.is_none() {
            if !inside {
                if c == '{' {
                    flush(&mut atoms, &cur);
                    cur = Vec::new();
                    inside = true;
                    proof {
                        assert(cur@ =~= Seq::<char>::empty());
                    }
                } else {
                    cur.push(c);
                }
            } else if c == '}' {
                match parse_meta(cur.as_slice()) {
                    Ok((a, m)) => {
                        let ghost ab = atoms.deep_view();
                        let ghost cb = cmds.deep_view();
                        let ghost av = a.deep_view();
                        let ghost mv = m.deep_view();
                        let mut a = a;
                        let mut m = m;
                        atoms.append(&mut a);
                        cmds.append(&mut m);
                        proof {
                            assert(atoms.deep_view() =~= ab + av);
                            assert(cmds.deep_view() =~= cb + mv);
                        }
                        inside = false;
                        cur = Vec::new();
                        proof {
                            assert(cur@ =~= Seq::<char>::empty());
                        }
                    },
                    Err(e) => {
                        failure = Some(e);
                    },
                }
            } else if c == '{' {
                failure = Some(ParseFailure::UnclosedBrace);
            } else {
                cur.push(c);
            }
        }
        i = i + 1;
    }
    proof {
        assert(s@.take(i as int) =~= s@);
    }
    match failure {
        Some(e) => Err(e),
        None => {
            if inside {
                Err(ParseFailure::UnclosedBrace)
            } else {
                flush(&mut atoms, &cur);
                if cmds.len() == 0 {
                    proof {
                        assert(cmds.deep_view().len() == 0);
                    }
                    Ok(Translation::Text(atoms))
                } else {
                    let text_after = if atoms.len() == 0 {
                        None
                    } else {
                        Some(atoms)
                    };
                    Ok(Translation::Command { cmds, text_after, suppress_space_before: false })
                }
            }
        },
    }
}

} // verus!
