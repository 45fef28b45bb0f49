//! Renders a list of text atoms into a string: spacing, capitalization, glue and orthography.
use vstd::prelude::*;

use crate::chars::{
    alphabetic, alphanumeric, byte_len, byte_offset, chars_of, copy_chars, is_alphabetic,
    is_alphanumeric, is_whitespace, lower_of, push_all, string_of, to_lower, to_upper, upper_of,
    utf8_byte_len, whitespace,
};
use crate::orthography::{apply_orthography, orthography};
use crate::translation::{AttachedType, StateAction, Text, TextAction, TextV};

verus! {

/// What the formatter carries from one atom to the next.
#[derive(Debug, Clone, Copy, PartialEq, Eq, Structural)]
pub struct State {
    /// The next word is not preceded by a space.
    pub suppress_space: bool,
    /// The first letter of the next word is capitalized.
    pub force_capitalize: bool,
    /// The last atom was glued (or a number).
    pub prev_is_glued: bool,
    /// The next word is all upper (`Some(true)`) or all lower (`Some(false)`) case.
    pub force_same_case: Option<bool>,
}

pub open spec fn fresh_state() -> State {
    State { suppress_space: false, force_capitalize: false, prev_is_glued: false, force_same_case: None }
}

/// The state after a glued atom.
pub open spec fn glued_state() -> State {
    State { suppress_space: false, force_capitalize: false, prev_is_glued: true, force_same_case: None }
}

/// The state for a glued atom: no space after another glued atom.
pub open spec fn join_glued(st: State) -> State {
    if st.prev_is_glued {
        State { suppress_space: true, ..st }
    } else {
        st
    }
}

pub open spec fn is_digit(c: char) -> bool {
    '0' <= c <= '9'
}

/// A non-empty run of decimal digits.
pub open spec fn all_digits(s: Seq<char>) -> bool {
    s.len() > 0 && forall|i: int| 0 <= i < s.len() ==> is_digit(#[trigger] s[i])
}

/// A non-empty run of decimal digits and hyphens, as a number stroke is written.
pub open spec fn number_like(s: Seq<char>) -> bool {
    s.len() > 0 && forall|i: int| 0 <= i < s.len() ==> is_digit(#[trigger] s[i]) || s[i] == '-'
}

pub open spec fn without_hyphens(s: Seq<char>) -> Seq<char>
    decreases s.len(),
{
    if s.len() == 0 {
        s
    } else if s.last() == '-' {
        without_hyphens(s.drop_last())
    } else {
        without_hyphens(s.drop_last()).push(s.last())
    }
}

/// The word with its first character upper-cased.
pub open spec fn capitalize_first(w: Seq<char>) -> Seq<char> {
    if w.len() == 0 {
        w
    } else {
        upper_of(seq![w[0]]) + w.drop_first()
    }
}

/// A word as the state asks it to be cased.
pub open spec fn styled(word: Seq<char>, st: State) -> Seq<char> {
    let w = if st.force_capitalize {
        capitalize_first(word)
    } else {
        word
    };
    match st.force_same_case {
        Some(true) => upper_of(w),
        Some(false) => lower_of(w),
        None => w,
    }
}

/// Appends a word, with a space before it unless the state suppresses it.
pub open spec fn emit(buf: Seq<char>, st: State, word: Seq<char>) -> Seq<char> {
    (if st.suppress_space {
        buf
    } else {
        buf.push(' ')
    }) + styled(word, st)
}

/// The kinds of character that end a trailing run of text.
#[derive(Debug, Clone, Copy, PartialEq, Eq, Structural)]
pub enum Boundary {
    /// Whitespace: the run is the text after the last space.
    Space,
    /// Anything but alphanumerics, `-` and `_`: the run is the last word.
    WordEnd,
    /// Anything non-alphabetic: the run is the stem that a suffix attaches to.
    StemEnd,
}

/// Characters that belong to a word when a previous word is re-cased.
pub open spec fn is_word_char(c: char) -> bool {
    alphanumeric(c) || c == '-' || c == '_'
}

pub open spec fn is_boundary(b: Boundary, c: char) -> bool {
    match b {
        Boundary::Space => whitespace(c),
        Boundary::WordEnd => !is_word_char(c),
        Boundary::StemEnd => !alphabetic(c),
    }
}

/// The index just after the last boundary character of `s`; 0 if there is none.
pub open spec fn after_last(s: Seq<char>, b: Boundary) -> nat
    decreases s.len(),
{
    if s.len() == 0 {
        0
    } else if is_boundary(b, s.last()) {
        s.len()
    } else {
        after_last(s.drop_last(), b)
    }
}

/// Start of the text after the last whitespace.
pub open spec fn last_space_split(s: Seq<char>) -> nat {
    after_last(s, Boundary::Space)
}

/// Start of the last word, for re-casing it.
pub open spec fn last_word_split(s: Seq<char>) -> nat {
    after_last(s, Boundary::WordEnd)
}

/// Start of the trailing alphabetic stem, for orthography.
pub open spec fn stem_split(s: Seq<char>) -> nat {
    after_last(s, Boundary::StemEnd)
}

/// What a text action does to the text written so far.
pub open spec fn text_action_result(s: Seq<char>, a: TextAction) -> Seq<char> {
    match a {
        TextAction::SuppressSpacePrev => {
            let i = last_space_split(s) as int;
            if i > 0 && s[i - 1] == ' ' {
                s.take(i - 1) + s.skip(i)
            } else {
                s
            }
        },
        TextAction::CapitalizePrev => {
            let i = last_word_split(s) as int;
            s.take(i) + capitalize_first(s.skip(i))
        },
        TextAction::SameCasePrev(upper) => {
            let i = last_word_split(s) as int;
            s.take(i) + if upper {
                upper_of(s.skip(i))
            } else {
                lower_of(s.skip(i))
            }
        },
    }
}

/// Attaches text to the trailing stem of `buf` by the orthography rules.
pub open spec fn attach_orthography(buf: Seq<char>, text: Seq<char>) -> Seq<char> {
    let i = stem_split(buf) as int;
    if i < buf.len() {
        buf.take(i) + orthography(buf.skip(i), text)
    } else {
        buf + text
    }
}

/// One atom: the new text and the state for the next atom.
pub open spec fn step(buf: Seq<char>, st: State, t: TextV) -> (Seq<char>, State) {
    match t {
        TextV::Lit(text) => {
            if all_digits(text) {
                (emit(buf, join_glued(st), text), glued_state())
            } else {
                (emit(buf, st, text), fresh_state())
            }
        },
        TextV::UnknownStroke(raw) => {
            if number_like(raw) {
                (emit(buf, join_glued(st), without_hyphens(raw)), glued_state())
            } else {
                (emit(buf, st, raw), fresh_state())
            }
        },
        TextV::Attached { text, joined_next, joined_prev, carry_capitalization } => {
            let next = if carry_capitalization {
                State {
                    suppress_space: joined_next,
                    force_capitalize: st.force_capitalize,
                    prev_is_glued: false,
                    force_same_case: st.force_same_case,
                }
            } else {
                State { suppress_space: joined_next, ..fresh_state() }
            };
            // the casing moves on to the next atom; this one is written as it is
            let cur = if carry_capitalization {
                State { force_capitalize: false, force_same_case: None, ..st }
            } else {
                st
            };
            if cur.suppress_space {
                (emit(buf, cur, text), next)
            } else {
                match joined_prev {
                    AttachedType::DoNotAttach => (emit(buf, cur, text), next),
                    AttachedType::AttachOnly => (
                        emit(buf, State { suppress_space: true, ..cur }, text),
                        next,
                    ),
                    AttachedType::ApplyOrthography => (attach_orthography(buf, text), next),
                }
            }
        },
        TextV::Glued(text) => (emit(buf, join_glued(st), text), glued_state()),
        TextV::StateAction(a) => match a {
            StateAction::ForceCapitalize => (buf, State { force_capitalize: true, ..st }),
            StateAction::SameCase(upper) => (buf, State { force_same_case: Some(upper), ..st }),
            StateAction::Clear => (buf, fresh_state()),
        },
        TextV::TextAction(a) => (text_action_result(buf, a), st),
    }
}

/// The text and the final state after all atoms, from an empty buffer.
pub open spec fn fold_atoms(atoms: Seq<TextV>) -> (Seq<char>, State)
    decreases atoms.len(),
{
    if atoms.len() == 0 {
        (Seq::empty(), fresh_state())
    } else {
        let (buf, st) = fold_atoms(atoms.drop_last());
        step(buf, st, atoms.last())
    }
}

/// The rendered string. With `space_after`, spaces follow words instead of preceding them.
pub open spec fn format_atoms(atoms: Seq<TextV>, space_after: bool) -> Seq<char> {
    let (buf, st) = fold_atoms(atoms);
    if space_after && buf.len() > 0 {
        let trimmed = if buf[0] == ' ' {
            buf.drop_first()
        } else {
            buf
        };
        if st.suppress_space {
            trimmed
        } else {
            trimmed.push(' ')
        }
    } else {
        buf
    }
}

} // verus!

verus! {

proof fn lemma_after_last_bound(s: Seq<char>, b: Boundary)
    ensures
        after_last(s, b) <= s.len(),
    decreases s.len(),
{
    if s.len() > 0 {
        lemma_after_last_bound(s.drop_last(), b);
    }
}

fn is_boundary_char(b: Boundary, c: char) -> (r: bool)
    ensures
        r == is_boundary(b, c),
{
    match b {
        Boundary::Space => is_whitespace(c),
        Boundary::WordEnd => !(is_alphanumeric(c) || c == '-' || c == '_'),
        Boundary::StemEnd => !is_alphabetic(c),
    }
}

/// The character index just after the last boundary character; 0 if there is none.
pub fn split_after_last(s: &[char], b: Boundary) -> (r: usize)
    ensures
        r == after_last(s@, b),
        r <= s@.len(),
{
    let mut i: usize = s.len();
    proof {
        assert(s@.take(i as int) =~= s@);
    }
    while i > 0
        invariant
            i <= s@.len(),
            after_last(s@, b) == after_last(s@.take(i as int), b),
        decreases i,
    {
        proof {
            assert(s@.take(i as int).drop_last() =~= s@.take(i - 1));
        }
        if is_boundary_char(b, s[i - 1]) {
            return i;
        }
        i = i - 1;
    }
    i
}

/// Byte index of the text after the last whitespace: 0 if there is none, the length if the
/// text ends in whitespace.
pub fn find_last_word_space(text: &str) -> (r: usize)
    ensures
        r == byte_len(text@.take(last_space_split(text@) as int)),
{
    // the whole text's byte length fits in usize, and so does any prefix's
    let _total = utf8_byte_len(text);
    let v = chars_of(text);
    let i = split_after_last(v.as_slice(), Boundary::Space);
    byte_offset(v.as_slice(), i)
}

/// Byte index of the last word, a trailing run of alphanumerics, `-` and `_`.
pub fn find_last_word(text: &str) -> (r: usize)
    ensures
        r == byte_len(text@.take(last_word_split(text@) as int)),
{
    // the whole text's byte length fits in usize, and so does any prefix's
    let _total = utf8_byte_len(text);
    let v = chars_of(text);
    let i = split_after_last(v.as_slice(), Boundary::WordEnd);
    byte_offset(v.as_slice(), i)
}

fn capitalize_chars(w: &[char]) -> (r: Vec<char>)
    ensures
        r@ == capitalize_first(w@),
{
    if w.len() == 0 {
        return Vec::new();
    }
    let first = copy_chars(w, 0, 1);
    let mut r = to_upper(first.as_slice());
    let rest = copy_chars(w, 1, w.len());
    push_all(&mut r, rest.as_slice());
    proof {
        assert(first@ =~= seq![w@[0]]);
        assert(rest@ =~= w@.drop_first());
    }
    r
}

/// Forces the first letter of a string to be upper case.
pub fn word_change_first_letter(text: String) -> (r: String)
    ensures
        r@ == capitalize_first(text@),
{
    let v = chars_of(text.as_str());
    let c = capitalize_chars(v.as_slice());
    string_of(c.as_slice())
}

fn text_action_chars(s: &Vec<char>, action: TextAction) -> (r: Vec<char>)
    ensures
        r@ == text_action_result(s@, action),
{
    match action {
        TextAction::SuppressSpacePrev => {
            let i = split_after_last(s.as_slice(), Boundary::Space);
            if i > 0 && s[i - 1] == ' ' {
                let mut r = copy_chars(s.as_slice(), 0, i - 1);
                let rest = copy_chars(s.as_slice(), i, s.len());
                push_all(&mut r, rest.as_slice());
                r
            } else {
                copy_chars(s.as_slice(), 0, s.len())
            }
        },
        TextAction::CapitalizePrev => {
            let i = split_after_last(s.as_slice(), Boundary::WordEnd);
            let mut r = copy_chars(s.as_slice(), 0, i);
            let word = copy_chars(s.as_slice(), i, s.len());
            let c = capitalize_chars(word.as_slice());
            push_all(&mut r, c.as_slice());
            r
        },
        TextAction::SameCasePrev(upper) => {
            let i = split_after_last(s.as_slice(), Boundary::WordEnd);
            let mut r = copy_chars(s.as_slice(), 0, i);
            let word = copy_chars(s.as_slice(), i, s.len());
            let c = if upper {
                to_upper(word.as_slice())
            } else {
                to_lower(word.as_slice())
            };
            push_all(&mut r, c.as_slice());
            r
        },
    }
}

/// Applies a text action to the text written so far.
pub fn perform_text_action(text: &str, action: TextAction) -> (r: String)
    ensures
        r@ == text_action_result(text@, action),
{
    let v = chars_of(text);
    let r = text_action_chars(&v, action);
    string_of(r.as_slice())
}

} // verus!

verus! {

fn digits_only(s: &[char]) -> (r: bool)
    ensures
        r == all_digits(s@),
{
    if s.len() == 0 {
        return false;
    }
    let mut i: usize = 0;
    while i < s.len()
        invariant
            i <= s@.len(),
            forall|k: int| 0 <= k < i ==> is_digit(#[trigger] s@[k]),
        decreases s@.len() - i,
    {
        if !('0' <= s[i] && s[i] <= '9') {
            return false;
        }
        i = i + 1;
    }
    true
}

fn is_number_like(s: &[char]) -> (r: bool)
    ensures
        r == number_like(s@),
{
    if s.len() == 0 {
        return false;
    }
    let mut i: usize = 0;
    while i < s.len()
        invariant
            i <= s@.len(),
            forall|k: int| 0 <= k < i ==> is_digit(#[trigger] s@[k]) || s@[k] == '-',
        decreases s@.len() - i,
    {
        if !(('0' <= s[i] && s[i] <= '9') || s[i] == '-') {
            return false;
        }
        i = i + 1;
    }
    true
}

fn strip_hyphens(s: &[char]) -> (r: Vec<char>)
    ensures
        r@ == without_hyphens(s@),
{
    let mut r: Vec<char> = Vec::new();
    let mut i: usize = 0;
    proof {
        assert(s@.take(0) =~= Seq::<char>::empty());
    }
    while i < s.len()
        invariant
            i <= s@.len(),
            r@ == without_hyphens(s@.take(i as int)),
        decreases s@.len() - i,
    {
        proof {
            assert(s@.take(i + 1).drop_last() =~= s@.take(i as int));
        }
        if s[i] != '-' {
            r.push(s[i]);
        }
        i = i + 1;
    }
    proof {
        assert(s@.take(i as int) =~= s@);
    }
    r
}

/// Appends a word as `st` asks: a space first unless suppressed, then the word cased.
fn emit_word(buf: &mut Vec<char>, st: State, word: &[char])
    ensures
        final(buf)@ == emit(old(buf)@, st, word@),
{
    if !st.suppress_space {
        buf.push(' ');
    }
    let w = if st.force_capitalize {
        capitalize_chars(word)
    } else {
        copy_chars(word, 0, word.len())
    };
    proof {
        assert(word@.subrange(0, word@.len() as int) =~= word@);
    }
    let styled_word = match st.force_same_case {
        Some(true) => to_upper(w.as_slice()),
        Some(false) => to_lower(w.as_slice()),
        None => w,
    };
    push_all(buf, styled_word.as_slice());
}

fn attach_with_orthography(buf: &mut Vec<char>, text: &[char])
    ensures
        final(buf)@ == attach_orthography(old(buf)@, text@),
{
    let i = split_after_last(buf.as_slice(), Boundary::StemEnd);
    if i < buf.len() {
        let stem = copy_chars(buf.as_slice(), i, buf.len());
        let word = apply_orthography(stem.as_slice(), text);
        buf.truncate(i);
        push_all(buf, word.as_slice());
        proof {
            assert(stem@ =~= old(buf)@.skip(i as int));
        }
    } else {
        push_all(buf, text);
    }
}

/// Renders one atom onto `buf`; returns the state for the next atom.
fn render_atom(buf: &mut Vec<char>, st: State, t: &Text) -> (r: State)
    ensures
        (final(buf)@, r) == step(old(buf)@, st, t.deep_view()),
{
    match t {
        Text::Lit(text) => {
            let word = chars_of(text.as_str());
            if digits_only(word.as_slice()) {
                let cur = if st.prev_is_glued {
                    State { suppress_space: true, ..st }
                } else {
                    st
                };
                emit_word(buf, cur, word.as_slice());
                State { suppress_space: false, force_capitalize: false, prev_is_glued: true, force_same_case: None }
            } else {
                emit_word(buf, st, word.as_slice());
                State { suppress_space: false, force_capitalize: false, prev_is_glued: false, force_same_case: None }
            }
        },
        Text::UnknownStroke(stroke) => {
            let raw = chars_of(stroke.as_str());
            if is_number_like(raw.as_slice()) {
                let word = strip_hyphens(raw.as_slice());
                let cur = if st.prev_is_glued {
                    State { suppress_space: true, ..st }
                } else {
                    st
                };
                emit_word(buf, cur, word.as_slice());
                State { suppress_space: false, force_capitalize: false, prev_is_glued: true, force_same_case: None }
            } else {
                emit_word(buf, st, raw.as_slice());
                State { suppress_space: false, force_capitalize: false, prev_is_glued: false, force_same_case: None }
            }
        },
        Text::Attached { text, joined_next, joined_prev, carry_capitalization } => {
            let word = chars_of(text.as_str());
            let next = if *carry_capitalization {
                State {
                    suppress_space: *joined_next,
                    force_capitalize: st.force_capitalize,
                    prev_is_glued: false,
                    force_same_case: st.force_same_case,
                }
            } else {
                State { suppress_space: *joined_next, force_capitalize: false, prev_is_glued: false, force_same_case: None }
            };
            let cur = if *carry_capitalization {
                State { force_capitalize: false, force_same_case: None, ..st }
            } else {
                st
            };
            if cur.suppress_space {
                emit_word(buf, cur, word.as_slice());
            } else {
                match joined_prev {
                    AttachedType::DoNotAttach => emit_word(buf, cur, word.as_slice()),
                    AttachedType::AttachOnly => emit_word(
                        buf,
                        State { suppress_space: true, ..cur },
                        word.as_slice(),
                    ),
                    AttachedType::ApplyOrthography => attach_with_orthography(buf, word.as_slice()),
                }
            }
            next
        },
        Text::Glued(text) => {
            let word = chars_of(text.as_str());
            let cur = if st.prev_is_glued {
                State { suppress_space: true, ..st }
            } else {
                st
            };
            emit_word(buf, cur, word.as_slice());
            State { suppress_space: false, force_capitalize: false, prev_is_glued: true, force_same_case: None }
        },
        Text::StateAction(action) => match action {
            StateAction::ForceCapitalize => State { force_capitalize: true, ..st },
            StateAction::SameCase(upper) => State { force_same_case: Some(*upper), ..st },
            StateAction::Clear => State { suppress_space: false, force_capitalize: false, prev_is_glued: false, force_same_case: None },
        },
        Text::TextAction(action) => {
            let r = text_action_chars(buf, *action);
            *buf = r;
            st
        },
    }
}

/// Renders atoms into characters, returning also the final state.
fn render_chars(atoms: &Vec<Text>) -> (r: (Vec<char>, State))
    ensures
        (r.0@, r.1) == fold_atoms(atoms.deep_view()),
{
    let mut buf: Vec<char> = Vec::new();
    let mut st = State { suppress_space: false, force_capitalize: false, prev_is_glued: false, force_same_case: None };
    let mut i: usize = 0;
    proof {
        assert(atoms.deep_view().take(0) =~= Seq::<TextV>::empty());
    }
    while i < atoms.len()
        invariant
            i <= atoms@.len(),
            (buf@, st) == fold_atoms(atoms.deep_view().take(i as int)),
        decreases atoms@.len() - i,
    {
        proof {
            assert(atoms.deep_view().take(i + 1).drop_last() =~= atoms.deep_view().take(i as int));
        }
        st = render_atom(&mut buf, st, &atoms[i]);
        i = i + 1;
    }
    proof {
        assert(atoms.deep_view().take(i as int) =~= atoms.deep_view());
    }
    (buf, st)
}

/// Renders atoms into characters; `space_after` puts spaces after words instead of before.
pub fn format_chars(atoms: &Vec<Text>, space_after: bool) -> (r: Vec<char>)
    ensures
        r@ == format_atoms(atoms.deep_view(), space_after),
{
    let (buf, st) = render_chars(atoms);
    if space_after && buf.len() > 0 {
        let mut trimmed = if buf[0] == ' ' {
            copy_chars(buf.as_slice(), 1, buf.len())
        } else {
            buf
        };
        proof {
            assert(buf@.subrange(1, buf@.len() as int) =~= buf@.drop_first());
        }
        if !st.suppress_space {
            trimmed.push(' ');
        }
        trimmed
    } else {
        buf
    }
}

/// Converts atoms into their string form: spaces between words, text actions applied, and a
/// formatting state carried from one atom to the next. With `space_after`, spaces follow words
/// instead of preceding them.
pub fn parse_translation(translations: Vec<Text>, space_after: bool) -> (r: String)
    ensures
        r@ == format_atoms(translations.deep_view(), space_after),
{
    let v = format_chars(&translations, space_after);
    string_of(v.as_slice())
}

} // verus!
