//! The edit and key commands that the translator hands to a controller.
use vstd::prelude::*;

use crate::chars::same_string;

verus! {

/// What action should be taken.
#[derive(Debug, PartialEq, Eq, Hash)]
pub enum Command {
    /// Press backspace a certain number of times, then type the string.
    Replace(usize, String),
    PrintHello,
    NoOp,
    /// Press a key with some modifier keys.
    Keys(Key, Vec<Modifier>),
    /// Send a raw keystroke by key code.
    Raw(u16),
    /// Run a program with arguments.
    Shell(String, Vec<String>),
    /// A command for the translator itself, routed back to it by the controller.
    TranslatorCommand(String),
}

#[derive(Debug, Clone, Copy, PartialEq, Eq, Hash, Structural)]
pub enum Key {
    Special(SpecialKey),
    /// A literal key such as `a` or `b`.
    Layout(char),
}

#[derive(Debug, Clone, Copy, PartialEq, Eq, Hash, Structural)]
pub enum SpecialKey {
    Backspace,
    CapsLock,
    Delete,
    DownArrow,
    End,
    Escape,
    F1,
    F10,
    F11,
    F12,
    F2,
    F3,
    F4,
    F5,
    F6,
    F7,
    F8,
    F9,
    Home,
    LeftArrow,
    PageDown,
    PageUp,
    Return,
    RightArrow,
    Space,
    Tab,
    UpArrow,
}

#[derive(Debug, Clone, Copy, PartialEq, Eq, Hash, Structural)]
pub enum Modifier {
    Alt,
    Control,
    Meta,
    /// The option key of macOS.
    Option,
    Shift,
}

/// The mathematical value of a command.
pub enum CommandV {
    Replace(nat, Seq<char>),
    PrintHello,
    NoOp,
    Keys(Key, Seq<Modifier>),
    Raw(u16),
    Shell(Seq<char>, Seq<Seq<char>>),
    TranslatorCommand(Seq<char>),
}

impl DeepView for Command {
    type V = CommandV;

    open spec fn deep_view(&self) -> CommandV {
        match self {
            Command::Replace(n, s) => CommandV::Replace(*n as nat, s@),
            Command::PrintHello => CommandV::PrintHello,
            Command::NoOp => CommandV::NoOp,
            Command::Keys(k, m) => CommandV::Keys(*k, m@),
            Command::Raw(c) => CommandV::Raw(*c),
            Command::Shell(c, a) => CommandV::Shell(c@, a.deep_view()),
            Command::TranslatorCommand(s) => CommandV::TranslatorCommand(s@),
        }
    }
}

fn copy_strings(v: &Vec<String>) -> (r: Vec<String>)
    ensures
        r.deep_view() == v.deep_view(),
{
    let mut r: Vec<String> = Vec::new();
    let mut i: usize = 0;
    while i < v.len()
        invariant
            i <= v@.len(),
            r@.len() == i,
            forall|k: int| 0 <= k < i ==> r@[k].deep_view() == v@[k].deep_view(),
        decreases v@.len() - i,
    {
        r.push(v[i].clone());
        i = i + 1;
    }
    proof {
        assert(r.deep_view() =~= v.deep_view());
    }
    r
}

fn copy_modifiers(v: &Vec<Modifier>) -> (r: Vec<Modifier>)
    ensures
        r@ == v@,
{
    let mut r: Vec<Modifier> = Vec::new();
    let mut i: usize = 0;
    while i < v.len()
        invariant
            i <= v@.len(),
            r@ == v@.take(i as int),
        decreases v@.len() - i,
    {
        r.push(v[i]);
        i = i + 1;
        proof {
            assert(r@ =~= v@.take(i as int));
        }
    }
    proof {
        assert(v@.take(i as int) =~= v@);
    }
    r
}

impl Clone for Command {
    fn clone(&self) -> (r: Self)
        ensures
            r.deep_view() == self.deep_view(),
    {
        match self {
            Command::Replace(n, s) => Command::Replace(*n, s.clone()),
            Command::PrintHello => Command::PrintHello,
            Command::NoOp => Command::NoOp,
            Command::Keys(k, m) => Command::Keys(*k, copy_modifiers(m)),
            Command::Raw(c) => Command::Raw(*c),
            Command::Shell(c, a) => Command::Shell(c.clone(), copy_strings(a)),
            Command::TranslatorCommand(s) => Command::TranslatorCommand(s.clone()),
        }
    }
}

impl Command {
    /// Types `output` without deleting anything first.
    pub fn add_text(output: &str) -> (r: Self)
        ensures
            r.deep_view() == CommandV::Replace(0, output@),
    {
        Self::replace_text(0, output)
    }

    /// Deletes `backspace_num` characters, then types `replace_str`.
    pub fn replace_text(backspace_num: usize, replace_str: &str) -> (r: Self)
        ensures
            r.deep_view() == CommandV::Replace(backspace_num as nat, replace_str@),
    {
        Self::Replace(backspace_num, replace_str.to_owned())
    }

    /// Whether this is the command that does nothing.
    pub fn is_no_op(&self) -> (r: bool)
        ensures
            r == (self.deep_view() is NoOp),
    {
        match self {
            Command::NoOp => true,
            _ => false,
        }
    }
}

/// None of the commands edits text.
pub open spec fn no_edits(cs: Seq<CommandV>) -> bool {
    forall|i: int| 0 <= i < cs.len() ==> !(#[trigger] cs[i] is Replace)
}

/// Clones a list of commands.
pub fn copy_commands(v: &Vec<Command>) -> (r: Vec<Command>)
    ensures
        r.deep_view() == v.deep_view(),
{
    let mut r: Vec<Command> = Vec::new();
    let mut i: usize = 0;
    while i < v.len()
        invariant
            i <= v@.len(),
            r@.len() == i,
            forall|k: int| 0 <= k < i ==> r@[k].deep_view() == v@[k].deep_view(),
        decreases v@.len() - i,
    {
        r.push(v[i].clone());
        i = i + 1;
    }
    proof {
        assert(r.deep_view() =~= v.deep_view());
    }
    r
}

} // verus!

verus! {

fn same_modifiers(a: &Vec<Modifier>, b: &Vec<Modifier>) -> (r: bool)
    ensures
        r == (a@ == b@),
{
    if a.len() != b.len() {
        return false;
    }
    let mut i: usize = 0;
    while i < a.len()
        invariant
            a@.len() == b@.len(),
            i <= a@.len(),
            forall|k: int| 0 <= k < i ==> a@[k] == b@[k],
        decreases a@.len() - i,
    {
        if a[i] != b[i] {
            return false;
        }
        i = i + 1;
    }
    proof {
        assert(a@ =~= b@);
    }
    true
}

fn same_strings(a: &Vec<String>, b: &Vec<String>) -> (r: bool)
    ensures
        r == (a.deep_view() == b.deep_view()),
{
    if a.len() != b.len() {
        proof {
            assert(a.deep_view().len() != b.deep_view().len());
        }
        return false;
    }
    let mut i: usize = 0;
    while i < a.len()
        invariant
            a@.len() == b@.len(),
            i <= a@.len(),
            forall|k: int| 0 <= k < i ==> a@[k]@ == b@[k]@,
        decreases a@.len() - i,
    {
        if !same_string(&a[i], &b[i]) {
            proof {
                assert(a.deep_view()[i as int] != b.deep_view()[i as int]);
            }
            return false;
        }
        i = i + 1;
    }
    proof {
        assert(a.deep_view() =~= b.deep_view());
    }
    true
}

impl Command {
    /// Whether two commands have the same value.
    pub fn same_as(&self, other: &Command) -> (r: bool)
        ensures
            r == (self.deep_view() == other.deep_view()),
    {
        match (self, other) {
            (Command::Replace(n, s), Command::Replace(m, t)) => *n == *m && same_string(s, t),
            (Command::PrintHello, Command::PrintHello) => true,
            (Command::NoOp, Command::NoOp) => true,
            (Command::Keys(k, a), Command::Keys(l, b)) => *k == *l && same_modifiers(a, b),
            (Command::Raw(x), Command::Raw(y)) => *x == *y,
            (Command::Shell(c, a), Command::Shell(d, b)) => same_string(c, d) && same_strings(a, b),
            (Command::TranslatorCommand(s), Command::TranslatorCommand(t)) => same_string(s, t),
            _ => false,
        }
    }
}

/// Whether two command lists have the same value.
pub fn same_commands(a: &Vec<Command>, b: &Vec<Command>) -> (r: bool)
    ensures
        r == (a.deep_view() == b.deep_view()),
{
    if a.len() != b.len() {
        proof {
            assert(a.deep_view().len() != b.deep_view().len());
        }
        return false;
    }
    let mut i: usize = 0;
    while i < a.len()
        invariant
            a@.len() == b@.len(),
            i <= a@.len(),
            forall|k: int| 0 <= k < i ==> a@[k].deep_view() == b@[k].deep_view(),
        decreases a@.len() - i,
    {
        if !a[i].same_as(&b[i]) {
            proof {
                assert(a.deep_view()[i as int] != b.deep_view()[i as int]);
            }
            return false;
        }
        i = i + 1;
    }
    proof {
        assert(a.deep_view() =~= b.deep_view());
    }
    true
}

} // verus!
