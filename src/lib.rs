//! A stenography translation engine: strokes go in, text edits come out.
//!
//! - [`stroke`]: strokes in canonical steno order.
//! - [`meta`] and [`dictionary`]: dictionaries in Plover's JSON format, later ones overriding
//!   earlier ones.
//! - [`lookup`]: greedy longest-match translation of a stroke sequence.
//! - [`formatter`] and [`orthography`]: rendering translations into text.
//! - [`diff`]: the single edit between two renderings.
//! - [`translator`]: the stroke history, undo, retroactive spaces and translator commands.
//! - [`machine`] and [`config`]: the stroke source and the program's settings, as plain values.
//!
//! Every function is verified against a contract stated over spec functions; the laws that
//! relate several functions are proof functions beside them.
use vstd::prelude::*;

pub mod chars;
pub mod commands;
pub mod config;
pub mod dictionary;
pub mod diff;
pub mod formatter;
pub mod lookup;
pub mod machine;
pub mod meta;
pub mod orthography;
pub mod stroke;
pub mod translation;
pub mod translator;

pub use commands::{Command, CommandV, Key, Modifier, SpecialKey};
pub use config::{Config, InputMachineType, OutputDispatchType};
pub use dictionary::{DictParseError, Dictionary};
pub use lookup::translate_strokes;
pub use machine::{Machine, MachineError};
pub use meta::ParseFailure;
pub use stroke::Stroke;
pub use translator::{Controller, StandardTranslator, Translator};
pub use translation::{
    is_text, AttachedType, StateAction, Text, TextAction, TextV, Translation, TranslationV,
};
