//! Dictionary translations and the text atoms they are made of.
use vstd::prelude::*;

use crate::chars::same_string;

use crate::commands::{copy_commands, no_edits, same_commands, Command, CommandV};
use crate::stroke::Stroke;

verus! {

/// A dictionary entry. A command is passed on to the controller; text is formatted here.
#[derive(Debug, PartialEq, Eq, Hash)]
pub enum Translation {
    Text(Vec<Text>),
    Command { cmds: Vec<Command>, text_after: Option<Vec<Text>>, suppress_space_before: bool },
}

/// One piece of text, or an action on the text around it.
#[derive(Debug, PartialEq, Eq, Hash)]
pub enum Text {
    /// A literal that can be upper- or lower-cased.
    Lit(String),
    /// A stroke with no entry, written out in capitals.
    UnknownStroke(Stroke),
    /// Text that can be attached to the previous and/or next word.
    Attached {
        text: String,
        /// Whether to attach to the next word.
        joined_next: bool,
        /// Whether to attach to the previous word, and whether to apply orthography then.
        joined_prev: AttachedType,
        /// Whether to carry the capitalization state on to the word after this one.
        carry_capitalization: bool,
    },
    /// Text that attaches only to other glued text.
    Glued(String),
    /// Changes how the next word is spaced or cased.
    StateAction(StateAction),
    /// Changes the text already written.
    TextAction(TextAction),
}

#[derive(Debug, Clone, Copy, PartialEq, Eq, Hash, Structural)]
pub enum AttachedType {
    ApplyOrthography,
    AttachOnly,
    DoNotAttach,
}

#[derive(Debug, Clone, Copy, PartialEq, Eq, Hash, Structural)]
pub enum StateAction {
    ForceCapitalize,
    /// All upper case (`true`) or all lower case (`false`).
    SameCase(bool),
    Clear,
}

#[derive(Debug, Clone, Copy, PartialEq, Eq, Hash, Structural)]
pub enum TextAction {
    CapitalizePrev,
    SuppressSpacePrev,
    /// All upper case (`true`) or all lower case (`false`).
    SameCasePrev(bool),
}

/// The mathematical value of a text atom.
pub enum TextV {
    Lit(Seq<char>),
    UnknownStroke(Seq<char>),
    Attached {
        text: Seq<char>,
        joined_next: bool,
        joined_prev: AttachedType,
        carry_capitalization: bool,
    },
    Glued(Seq<char>),
    StateAction(StateAction),
    TextAction(TextAction),
}

/// The mathematical value of a translation.
pub enum TranslationV {
    Text(Seq<TextV>),
    Command { cmds: Seq<CommandV>, text_after: Option<Seq<TextV>>, suppress_space_before: bool },
}

impl DeepView for Text {
    type V = TextV;

    open spec fn deep_view(&self) -> TextV {
        match self {
            Text::Lit(s) => TextV::Lit(s@),
            Text::UnknownStroke(s) => TextV::UnknownStroke(s@),
            Text::Attached { text, joined_next, joined_prev, carry_capitalization } => {
                TextV::Attached {
                    text: text@,
                    joined_next: *joined_next,
                    joined_prev: *joined_prev,
                    carry_capitalization: *carry_capitalization,
                }
            },
            Text::Glued(s) => TextV::Glued(s@),
            Text::StateAction(a) => TextV::StateAction(*a),
            Text::TextAction(a) => TextV::TextAction(*a),
        }
    }
}

impl DeepView for Translation {
    type V = TranslationV;

    open spec fn deep_view(&self) -> TranslationV {
        match self {
            Translation::Text(v) => TranslationV::Text(v.deep_view()),
            Translation::Command { cmds, text_after, suppress_space_before } => {
                TranslationV::Command {
                    cmds: cmds.deep_view(),
                    text_after: text_after.deep_view(),
                    suppress_space_before: *suppress_space_before,
                }
            },
        }
    }
}

impl Clone for Text {
    fn clone(&self) -> (r: Self)
        ensures
            r.deep_view() == self.deep_view(),
    {
        match self {
            Text::Lit(s) => Text::Lit(s.clone()),
            Text::UnknownStroke(s) => Text::UnknownStroke(s.clone()),
            Text::Attached { text, joined_next, joined_prev, carry_capitalization } => {
                Text::Attached {
                    text: text.clone(),
                    joined_next: *joined_next,
                    joined_prev: *joined_prev,
                    carry_capitalization: *carry_capitalization,
                }
            },
            Text::Glued(s) => Text::Glued(s.clone()),
            Text::StateAction(a) => Text::StateAction(*a),
            Text::TextAction(a) => Text::TextAction(*a),
        }
    }
}

/// Clones a list of text atoms.
pub fn copy_texts(v: &Vec<Text>) -> (r: Vec<Text>)
    ensures
        r.deep_view() == v.deep_view(),
{
    let mut r: Vec<Text> = Vec::new();
    let mut i: usize = 0;
    while i < v.len()
        invariant
            i <= v@.len(),
            r@.len() == i,
            forall|k: int| 0 <= k < i ==> r@[k].deep_view() == v@[k].deep_view(),
        decreases v@.len() - i,
    {
        r.push(v[i].clone());
        i = i + 1;
    }
    proof {
        assert(r.deep_view() =~= v.deep_view());
    }
    r
}

impl Clone for Translation {
    fn clone(&self) -> (r: Self)
        ensures
            r.deep_view() == self.deep_view(),
    {
        match self {
            Translation::Text(v) => Translation::Text(copy_texts(v)),
            Translation::Command { cmds, text_after, suppress_space_before } => {
                let t = match text_after {
                    Some(v) => Some(copy_texts(v)),
                    None => None,
                };
                Translation::Command {
                    cmds: copy_commands(cmds),
                    text_after: t,
                    suppress_space_before: *suppress_space_before,
                }
            },
        }
    }
}

impl Text {
    /// Whether two atoms have the same value.
    pub fn same_as(&self, other: &Text) -> (r: bool)
        ensures
            r == (self.deep_view() == other.deep_view()),
    {
        match (self, other) {
            (Text::Lit(a), Text::Lit(b)) => same_string(a, b),
            (Text::UnknownStroke(a), Text::UnknownStroke(b)) => a.same_as(b),
            (
                Text::Attached { text: a, joined_next: n1, joined_prev: p1, carry_capitalization: c1 },
                Text::Attached { text: b, joined_next: n2, joined_prev: p2, carry_capitalization: c2 },
            ) => same_string(a, b) && *n1 == *n2 && *p1 == *p2 && *c1 == *c2,
            (Text::Glued(a), Text::Glued(b)) => same_string(a, b),
            (Text::StateAction(a), Text::StateAction(b)) => *a == *b,
            (Text::TextAction(a), Text::TextAction(b)) => *a == *b,
            _ => false,
        }
    }
}

/// Whether two atom lists have the same value.
pub fn same_texts(a: &Vec<Text>, b: &Vec<Text>) -> (r: bool)
    ensures
        r == (a.deep_view() == b.deep_view()),
{
    if a.len() != b.len() {
        proof {
            assert(a.deep_view().len() != b.deep_view().len());
        }
        return false;
    }
    let mut i: usize = 0;
    while i < a.len()
        invariant
            a@.len() == b@.len(),
            i <= a@.len(),
            forall|k: int| 0 <= k < i ==> a@[k].deep_view() == b@[k].deep_view(),
        decreases a@.len() - i,
    {
        if !a[i].same_as(&b[i]) {
            proof {
                assert(a.deep_view()[i as int] != b.deep_view()[i as int]);
            }
            return false;
        }
        i = i + 1;
    }
    proof {
        assert(a.deep_view() =~= b.deep_view());
    }
    true
}

/// Whether an atom shows any text.
pub open spec fn atom_is_text(t: TextV) -> bool {
    match t {
        TextV::UnknownStroke(_) => true,
        TextV::Lit(s) => s.len() > 0,
        TextV::Glued(s) => s.len() > 0,
        TextV::Attached { text, .. } => text.len() > 0,
        TextV::StateAction(_) => false,
        TextV::TextAction(_) => false,
    }
}

/// Whether some atom of the list shows text.
pub open spec fn atoms_have_text(v: Seq<TextV>) -> bool {
    exists|i: int| 0 <= i < v.len() && atom_is_text(#[trigger] v[i])
}

/// Whether a translation shows any text.
pub open spec fn translation_is_text(t: TranslationV) -> bool {
    match t {
        TranslationV::Text(v) => atoms_have_text(v),
        TranslationV::Command { text_after, .. } => match text_after {
            Some(v) => atoms_have_text(v),
            None => false,
        },
    }
}

/// A translation whose commands do not edit text: edits come from the formatter alone.
pub open spec fn plain_translation(t: TranslationV) -> bool {
    match t {
        TranslationV::Command { cmds, .. } => no_edits(cmds),
        TranslationV::Text(_) => true,
    }
}

/// The atoms of a translation, ignoring its commands.
pub open spec fn translation_atoms(t: TranslationV) -> Seq<TextV> {
    match t {
        TranslationV::Text(v) => v,
        TranslationV::Command { text_after, .. } => match text_after {
            Some(v) => v,
            None => Seq::empty(),
        },
    }
}

fn texts_have_text(v: &Vec<Text>) -> (r: bool)
    ensures
        r == atoms_have_text(v.deep_view()),
{
    let mut i: usize = 0;
    while i < v.len()
        invariant
            i <= v@.len(),
            forall|k: int| 0 <= k < i ==> !atom_is_text(#[trigger] v.deep_view()[k]),
        decreases v@.len() - i,
    {
        let found = match &v[i] {
            Text::UnknownStroke(_) => true,
            Text::Attached { text, .. } => !text.as_str().is_empty(),
            Text::Glued(text) => !text.as_str().is_empty(),
            Text::Lit(text) => !text.as_str().is_empty(),
            Text::TextAction(_) => false,
            Text::StateAction(_) => false,
        };
        if found {
            proof {
                assert(atom_is_text(v.deep_view()[i as int]));
            }
            return true;
        }
        i = i + 1;
    }
    false
}

/// Whether the translation shows text. Used to decide where a space is inserted retroactively.
pub fn is_text(translation: Translation) -> (r: bool)
    ensures
        r == translation_is_text(translation.deep_view()),
{
    match translation {
        Translation::Command { text_after, .. } => {
            match text_after {
                Some(v) => texts_have_text(&v),
                None => false,
            }
        },
        Translation::Text(texts) => texts_have_text(&texts),
    }
}

impl Translation {
    /// The translation as text, ignoring commands.
    pub fn as_text(&self) -> (r: Vec<Text>)
        ensures
            r.deep_view() == translation_atoms(self.deep_view()),
    {
        match self {
            Translation::Text(text) => copy_texts(text),
            Translation::Command { text_after, .. } => match text_after {
                Some(v) => copy_texts(v),
                None => Vec::new(),
            },
        }
    }

    /// Whether two translations have the same value.
    pub fn same_as(&self, other: &Translation) -> (r: bool)
        ensures
            r == (self.deep_view() == other.deep_view()),
    {
        match (self, other) {
            (Translation::Text(a), Translation::Text(b)) => same_texts(a, b),
            (
                Translation::Command { cmds: c1, text_after: t1, suppress_space_before: s1 },
                Translation::Command { cmds: c2, text_after: t2, suppress_space_before: s2 },
            ) => {
                let same_after = match (t1, t2) {
                    (Some(a), Some(b)) => same_texts(a, b),
                    (None, None) => true,
                    _ => false,
                };
                *s1 == *s2 && same_after && same_commands(c1, c2)
            },
            _ => false,
        }
    }
}

} // verus!
