//! The standard translator: it keeps the recent strokes and turns each new stroke into edits.
use vstd::prelude::*;
use vstd::slice::slice_subrange;

use crate::chars::{chars_of, same_chars};
use crate::commands::{Command, CommandV};
use crate::diff::{
    diff_chars, render_translations,
    all_atoms, all_commands, apply_edits, common_prefix, diff_command,
    lemma_all_commands_plain, lemma_apply_concat, lemma_common_prefix_bound, lemma_apply_no_edits, lemma_diff_applies,
    lemma_diff_same, lemma_no_op_diff, lemma_prefix_diff, render, translation_diff,
    translation_diff_spec,
};
use crate::formatter::fold_atoms;
use crate::dictionary::{
    entries_map, error_view, load_dicts, plain_dict, stroke_views, DictParseError, Dictionary,
};
use crate::meta::ParseFailure;
use crate::lookup::{greedy, lemma_greedy_plain, translate_slice};
use crate::stroke::Stroke;
use crate::translation::{
    is_text, plain_translation, translation_is_text, TextV, Translation, TranslationV,
};

verus! {

/// Most strokes kept in the history; this also limits how far back undo reaches.
pub const MAX_STROKE_BUFFER: usize = 50;

/// Only this many of the latest strokes are translated again for each new stroke.
pub const TRANSLATION_WINDOW: usize = 10;

/// Turns strokes into commands.
pub trait Translator {
    fn translate(&mut self, stroke: Stroke) -> Vec<Command>;

    fn undo(&mut self) -> Vec<Command>;

    fn handle_command(&mut self, command: String);
}

/// A controller that performs commands.
pub trait Controller {
    fn new(disable_scan_keymap: bool) -> Self where Self: Sized;

    fn dispatch(&mut self, command: Command);
}

/// The mathematical value of a translator.
pub struct TranslatorV {
    /// The previous strokes, oldest first.
    pub history: Seq<Seq<char>>,
    pub dict: Map<Seq<char>, TranslationV>,
    /// The strokes that insert a space retroactively.
    pub retro: Seq<Seq<char>>,
    /// The stroke that such a stroke inserts.
    pub insert: Option<Seq<char>>,
    pub space_after: bool,
}

/// The standard translator, close in features to Plover and other CAT software.
///
/// It looks strokes up in a dictionary, keeping a history of strokes and preferring the
/// longest sequence that has an entry. A stroke in `retrospective_add_space` inserts the
/// `add_space_insert` stroke before the latest stroke that shows text.
#[derive(Debug)]
pub struct StandardTranslator {
    prev_strokes: Vec<Stroke>,
    dict: Dictionary,
    retrospective_add_space: Vec<Stroke>,
    add_space_insert: Option<Stroke>,
    space_after: bool,
}

impl View for StandardTranslator {
    type V = TranslatorV;

    closed spec fn view(&self) -> TranslatorV {
        TranslatorV {
            history: stroke_views(self.prev_strokes@),
            dict: self.dict@,
            retro: stroke_views(self.retrospective_add_space@),
            insert: match self.add_space_insert {
                Some(s) => Some(s@),
                None => None,
            },
            space_after: self.space_after,
        }
    }
}

/// What holds of every translator: a bounded history, a stroke to insert whenever
/// retroactive spacing is on, and dictionary commands that leave text to the formatter.
pub open spec fn translator_inv(t: TranslatorV) -> bool {
    &&& t.history.len() <= MAX_STROKE_BUFFER
    &&& (t.retro.len() > 0 ==> t.insert is Some)
    &&& plain_dict(t.dict)
}

/// Whether some translation of the list shows text.
pub open spec fn shows_text(ts: Seq<TranslationV>) -> bool {
    exists|i: int| 0 <= i < ts.len() && translation_is_text(#[trigger] ts[i])
}

/// Where a retroactive space goes: before the latest stroke that shows text on its own, or at
/// the front if there is none.
pub open spec fn retro_index(d: Map<Seq<char>, TranslationV>, h: Seq<Seq<char>>) -> nat
    decreases h.len(),
{
    if h.len() == 0 {
        0
    } else if shows_text(greedy(d, seq![h.last()])) {
        (h.len() - 1) as nat
    } else {
        retro_index(d, h.drop_last())
    }
}

/// The history with room made for one more stroke.
pub open spec fn trimmed(h: Seq<Seq<char>>) -> Seq<Seq<char>> {
    if h.len() >= MAX_STROKE_BUFFER {
        h.drop_first()
    } else {
        h
    }
}

/// Where the translated window starts in a history of `len` strokes.
pub open spec fn window_start(len: nat) -> nat {
    if len > TRANSLATION_WINDOW {
        (len - TRANSLATION_WINDOW) as nat
    } else {
        0
    }
}

/// The history after a stroke.
pub open spec fn next_history(t: TranslatorV, stroke: Seq<char>) -> Seq<Seq<char>> {
    let h = trimmed(t.history);
    if t.retro.contains(stroke) {
        match t.insert {
            Some(x) => h.insert(retro_index(t.dict, h) as int, x),
            None => h,
        }
    } else {
        h.push(stroke)
    }
}

/// The translator after a stroke.
pub open spec fn after_stroke(t: TranslatorV, stroke: Seq<char>) -> TranslatorV {
    TranslatorV { history: next_history(t, stroke), ..t }
}

/// The commands for a stroke: the translations of the window before and after it, diffed.
pub open spec fn stroke_commands(t: TranslatorV, stroke: Seq<char>) -> Seq<CommandV> {
    let h = trimmed(t.history);
    let start = window_start(h.len()) as int;
    translation_diff_spec(
        greedy(t.dict, h.skip(start)),
        greedy(t.dict, next_history(t, stroke).skip(start)),
        t.space_after,
    )
}

/// Undo from history `h`, when the text on screen is `old`: strokes are removed from the end
/// until the rendered text differs from `old`. Gives the history left and the single edit from
/// `old` to its text; `NoOp` with an empty history when no prefix renders differently.
pub open spec fn undo_from(
    d: Map<Seq<char>, TranslationV>,
    old: Seq<char>,
    h: Seq<Seq<char>>,
    space_after: bool,
) -> (Seq<Seq<char>>, Seq<CommandV>)
    decreases h.len(),
{
    if h.len() == 0 {
        (h, seq![CommandV::NoOp])
    } else {
        let c = diff_command(old, render(greedy(d, h.drop_last()), space_after));
        if !(c is NoOp) {
            (h.drop_last(), seq![c])
        } else {
            undo_from(d, old, h.drop_last(), space_after)
        }
    }
}

/// The history and commands of an undo.
pub open spec fn undo_result(t: TranslatorV) -> (Seq<Seq<char>>, Seq<CommandV>) {
    undo_from(t.dict, render(greedy(t.dict, t.history), t.space_after), t.history, t.space_after)
}

/// The translator with another history.
pub open spec fn with_history(t: TranslatorV, h: Seq<Seq<char>>) -> TranslatorV {
    TranslatorV { history: h, ..t }
}

/// The translator after an undo.
pub open spec fn after_undo(t: TranslatorV) -> TranslatorV {
    TranslatorV { history: undo_result(t).0, ..t }
}

/// The commands of an undo.
pub open spec fn undo_commands(t: TranslatorV) -> Seq<CommandV> {
    undo_result(t).1
}

/// The translator after a command: `clear_prev_strokes` keeps only the last stroke,
/// `toggle_space_after` flips the spacing mode, anything else changes nothing.
pub open spec fn after_command(t: TranslatorV, command: Seq<char>) -> TranslatorV {
    if command == "clear_prev_strokes"@ {
        TranslatorV {
            history: if t.history.len() > 0 {
                seq![t.history.last()]
            } else {
                Seq::empty()
            },
            ..t
        }
    } else if command == "toggle_space_after"@ {
        TranslatorV { space_after: !t.space_after, ..t }
    } else {
        t
    }
}

fn contains_stroke(v: &Vec<Stroke>, s: &Stroke) -> (r: bool)
    ensures
        r == stroke_views(v@).contains(s@),
{
    let mut i: usize = 0;
    while i < v.len()
        invariant
            i <= v@.len(),
            forall|k: int| 0 <= k < i ==> v@[k]@ != s@,
        decreases v@.len() - i,
    {
        if v[i].same_as(s) {
            proof {
                assert(stroke_views(v@)[i as int] == s@);
            }
            return true;
        }
        i = i + 1;
    }
    proof {
        if stroke_views(v@).contains(s@) {
            let k = choose|k: int| 0 <= k < stroke_views(v@).len() && stroke_views(v@)[k] == s@;
            assert(v@[k]@ == s@);
        }
    }
    false
}

fn any_text(ts: &Vec<Translation>) -> (r: bool)
    ensures
        r == shows_text(ts@.map_values(|t: Translation| t.deep_view())),
{
    let ghost tv = ts@.map_values(|t: Translation| t.deep_view());
    let mut i: usize = 0;
    while i < ts.len()
        invariant
            i <= ts@.len(),
            tv == ts@.map_values(|t: Translation| t.deep_view()),
            forall|k: int| 0 <= k < i ==> !translation_is_text(#[trigger] tv[k]),
        decreases ts@.len() - i,
    {
        let c = ts[i].clone();
        if is_text(c) {
            proof {
                assert(translation_is_text(tv[i as int]));
            }
            return true;
        }
        i = i + 1;
    }
    false
}

/// The index before which a retroactive space goes in `h`.
fn find_retro_index(h: &Vec<Stroke>, dict: &Dictionary) -> (r: usize)
    ensures
        r == retro_index(dict@, stroke_views(h@)),
        r <= h@.len(),
{
    let ghost hv = stroke_views(h@);
    let mut i: usize = h.len();
    proof {
        assert(hv.take(i as int) =~= hv);
    }
    while i > 0
        invariant
            i <= h@.len(),
            hv == stroke_views(h@),
            retro_index(dict@, hv) == retro_index(dict@, hv.take(i as int)),
        decreases i,
    {
        let one = slice_subrange(h.as_slice(), i - 1, i);
        let ts = translate_slice(one, dict);
        proof {
            assert(stroke_views(one@) =~= seq![hv.take(i as int).last()]);
            assert(hv.take(i as int).drop_last() =~= hv.take(i - 1));
        }
        if any_text(&ts) {
            return i - 1;
        }
        i = i - 1;
    }
    0
}

impl StandardTranslator {
    #[verifier::type_invariant]
    spec fn inv(&self) -> bool {
        translator_inv(self@)
    }

    /// A translator over this dictionary. Of `starting_strokes` the newest 50 are kept as its
    /// history.
    pub fn with_dictionary(
        dict: Dictionary,
        starting_strokes: Vec<Stroke>,
        retrospective_add_space: Vec<Stroke>,
        add_space_insert: Option<Stroke>,
        space_after: bool,
    ) -> (r: Self)
        requires
            retrospective_add_space@.len() > 0 ==> add_space_insert is Some,
            plain_dict(dict@),
        ensures
            r@.history == stroke_views(starting_strokes@).skip(
                window_start_of(starting_strokes@.len()) as int,
            ),
            r@.dict == dict@,
            r@.retro == stroke_views(retrospective_add_space@),
            r@.insert == match add_space_insert {
                Some(s) => Some(s@),
                None => None::<Seq<char>>,
            },
            r@.space_after == space_after,
    {
        let mut prev_strokes = starting_strokes;
        if prev_strokes.len() > MAX_STROKE_BUFFER {
            let keep = prev_strokes.split_off(prev_strokes.len() - MAX_STROKE_BUFFER);
            prev_strokes = keep;
        }
        proof {
            assert(stroke_views(prev_strokes@) =~= stroke_views(starting_strokes@).skip(
                window_start_of(starting_strokes@.len()) as int,
            ));
        }
        StandardTranslator {
            prev_strokes,
            dict,
            retrospective_add_space,
            add_space_insert,
            space_after,
        }
    }

    /// A translator over the raw JSON dictionaries, later ones overriding earlier ones. Of
    /// `starting_strokes` the newest 50 are kept as its history. A stroke of
    /// `retrospective_add_space` inserts `add_space_insert`, which must then be given.
    pub fn new(
        raw_dicts: Vec<String>,
        starting_strokes: Vec<Stroke>,
        retrospective_add_space: Vec<Stroke>,
        add_space_insert: Option<Stroke>,
        space_after: bool,
    ) -> (r: Result<Self, DictParseError>)
        requires
            retrospective_add_space@.len() > 0 ==> add_space_insert is Some,
        ensures
            load_dicts(raw_dicts.deep_view()) is Ok <==> r is Ok,
            match r {
                Ok(t) => {
                    &&& t@.dict == entries_map(load_dicts(raw_dicts.deep_view())->Ok_0)
                    &&& t@.history == stroke_views(starting_strokes@).skip(
                        window_start_of(starting_strokes@.len()) as int,
                    )
                    &&& t@.retro == stroke_views(retrospective_add_space@)
                    &&& t@.insert == match add_space_insert {
                        Some(s) => Some(s@),
                        None => None::<Seq<char>>,
                    }
                    &&& t@.space_after == space_after
                },
                Err(e) => load_dicts(raw_dicts.deep_view()) == Err::<
                    Seq<(Seq<char>, TranslationV)>,
                    (nat, Seq<char>, ParseFailure),
                >(error_view(e)),
            },
    {
        match Dictionary::new(raw_dicts) {
            Ok(dict) => Ok(
                StandardTranslator::with_dictionary(
                    dict,
                    starting_strokes,
                    retrospective_add_space,
                    add_space_insert,
                    space_after,
                ),
            ),
            Err(e) => Err(e),
        }
    }

    /// The previous strokes, oldest first.
    pub fn history(&self) -> (r: &[Stroke])
        ensures
            stroke_views(r@) == self@.history,
    {
        self.prev_strokes.as_slice()
    }

    /// Whether spaces follow words instead of preceding them.
    pub fn space_after(&self) -> (r: bool)
        ensures
            r == self@.space_after,
    {
        self.space_after
    }

    /// The edits for a new stroke; the history is updated.
    pub fn translate(&mut self, stroke: Stroke) -> (r: Vec<Command>)
        ensures
            final(self)@ == after_stroke(old(self)@, stroke@),
            r.deep_view() == stroke_commands(old(self)@, stroke@),
    {
        proof {
            use_type_invariant(&*self);
        }
        let ghost t = self@;
        let mut h: Vec<Stroke> = Vec::new();
        std::mem::swap(&mut h, &mut self.prev_strokes);
        if h.len() >= MAX_STROKE_BUFFER {
            h.remove(0);
        }
        proof {
            assert(stroke_views(h@) =~= trimmed(t.history));
        }
        let len = h.len();
        let start = if len > TRANSLATION_WINDOW {
            len - TRANSLATION_WINDOW
        } else {
            0
        };
        let old_ts = translate_slice(slice_subrange(h.as_slice(), start, len), &self.dict);
        proof {
            assert(stroke_views(h@.subrange(start as int, len as int)) =~= trimmed(t.history).skip(
                start as int,
            ));
        }
        let ghost h1 = stroke_views(h@);
        if contains_stroke(&self.retrospective_add_space, &stroke) {
            let index = find_retro_index(&h, &self.dict);
            match &self.add_space_insert {
                Some(space) => {
                    h.insert(index, space.clone());
                    proof {
                        assert(stroke_views(h@) =~= h1.insert(index as int, space@));
                    }
                },
                None => {},
            }
        } else {
            h.push(stroke);
            proof {
                assert(stroke_views(h@) =~= h1.push(stroke@));
            }
        }
        let new_len = h.len();
        let new_ts = translate_slice(slice_subrange(h.as_slice(), start, new_len), &self.dict);
        proof {
            assert(stroke_views(h@.subrange(start as int, new_len as int)) =~= next_history(
                t,
                stroke@,
            ).skip(start as int));
        }
        self.prev_strokes = h;
        proof {
            assert(self@ =~= after_stroke(t, stroke@));
        }
        translation_diff(old_ts.as_slice(), new_ts.as_slice(), self.space_after)
    }
}

impl StandardTranslator {
    /// Undoes the last visible change: strokes are removed from the end until the rendered
    /// text changes, and the single edit back to that text is returned. With no visible change
    /// left, the history is emptied and `NoOp` returned.
    pub fn undo(&mut self) -> (r: Vec<Command>)
        ensures
            final(self)@ == after_undo(old(self)@),
            r.deep_view() == undo_commands(old(self)@),
    {
        proof {
            use_type_invariant(&*self);
        }
        let ghost t = self@;
        let mut h: Vec<Stroke> = Vec::new();
        std::mem::swap(&mut h, &mut self.prev_strokes);
        proof {
            assert(stroke_views(self.prev_strokes@) =~= Seq::<Seq<char>>::empty());
        }
        let old_ts = translate_slice(h.as_slice(), &self.dict);
        let old_text = render_translations(old_ts.as_slice(), self.space_after);
        while h.len() > 0
            invariant
                t.dict == self.dict@,
                t.space_after == self.space_after,
                old_text@ == render(greedy(t.dict, t.history), t.space_after),
                h@.len() <= t.history.len(),
                undo_result(t) == undo_from(t.dict, old_text@, stroke_views(h@), t.space_after),
                translator_inv(t),
                t == old(self)@,
                self@ == with_history(t, Seq::empty()),
            decreases h@.len(),
        {
            let ghost hv = stroke_views(h@);
            h.pop();
            proof {
                assert(stroke_views(h@) =~= hv.drop_last());
            }
            let new_ts = translate_slice(h.as_slice(), &self.dict);
            let new_text = render_translations(new_ts.as_slice(), self.space_after);
            let edit = diff_chars(old_text.as_slice(), new_text.as_slice());
            if !edit.is_no_op() {
                self.prev_strokes = h;
                let mut r: Vec<Command> = Vec::new();
                r.push(edit);
                proof {
                    assert(self@ =~= after_undo(t));
                    assert(r.deep_view() =~= undo_commands(t));
                }
                return r;
            }
        }
        let mut r: Vec<Command> = Vec::new();
        r.push(Command::NoOp);
        proof {
            assert(stroke_views(h@) =~= Seq::<Seq<char>>::empty());
            assert(self@ =~= after_undo(t));
            assert(r.deep_view() =~= seq![CommandV::NoOp]);
        }
        r
    }

    /// Handles a command for the translator: `clear_prev_strokes` keeps only the last stroke
    /// (it triggered the command and may carry text), `toggle_space_after` switches between
    /// spaces after and spaces before words. Other commands change nothing.
    pub fn handle_command(&mut self, command: String)
        ensures
            final(self)@ == after_command(old(self)@, command@),
    {
        proof {
            use_type_invariant(&*self);
        }
        let ghost t = self@;
        let c = chars_of(command.as_str());
        let clear = chars_of("clear_prev_strokes");
        let toggle = chars_of("toggle_space_after");
        if same_chars(c.as_slice(), clear.as_slice()) {
            let mut h: Vec<Stroke> = Vec::new();
            std::mem::swap(&mut h, &mut self.prev_strokes);
            let mut kept: Vec<Stroke> = Vec::new();
            let ghost hv = stroke_views(h@);
            match h.pop() {
                Some(last) => {
                    kept.push(last);
                    proof {
                        assert(stroke_views(kept@) =~= seq![hv.last()]);
                    }
                },
                None => {
                    proof {
                        assert(stroke_views(kept@) =~= Seq::<Seq<char>>::empty());
                    }
                },
            }
            self.prev_strokes = kept;
            proof {
                assert(self@ =~= after_command(t, command@));
            }
        } else if same_chars(c.as_slice(), toggle.as_slice()) {
            self.space_after = !self.space_after;
            proof {
                assert(self@ =~= after_command(t, command@));
            }
        }
    }
}

impl Translator for StandardTranslator {
    fn translate(&mut self, stroke: Stroke) -> Vec<Command> {
        StandardTranslator::translate(self, stroke)
    }

    fn undo(&mut self) -> Vec<Command> {
        StandardTranslator::undo(self)
    }

    fn handle_command(&mut self, command: String) {
        StandardTranslator::handle_command(self, command)
    }
}

/// How many strokes are dropped from the front to keep at most 50.
pub open spec fn window_start_of(len: nat) -> nat {
    if len > MAX_STROKE_BUFFER {
        (len - MAX_STROKE_BUFFER) as nat
    } else {
        0
    }
}

} // verus!

verus! {

/// The translator after each stroke of `strokes` in turn, and the text that its commands
/// have typed into an empty buffer.
pub open spec fn run(t: TranslatorV, strokes: Seq<Seq<char>>) -> (TranslatorV, Seq<char>)
    decreases strokes.len(),
{
    if strokes.len() == 0 {
        (t, Seq::empty())
    } else {
        let (before, text) = run(t, strokes.drop_last());
        (
            after_stroke(before, strokes.last()),
            apply_edits(text, stroke_commands(before, strokes.last())),
        )
    }
}

/// What a stroke gives depends on nothing but the dictionary, the previous strokes, the
/// stroke, the spacing mode and the retroactive-space settings: equal inputs, equal outputs.
pub proof fn lemma_translate_deterministic(t1: TranslatorV, t2: TranslatorV, stroke: Seq<char>)
    requires
        t1.dict == t2.dict,
        t1.history == t2.history,
        t1.space_after == t2.space_after,
        t1.retro == t2.retro,
        t1.insert == t2.insert,
    ensures
        after_stroke(t1, stroke) == after_stroke(t2, stroke),
        stroke_commands(t1, stroke) == stroke_commands(t2, stroke),
{
    assert(t1 == t2);
}

/// Clearing the history twice leaves the same state as clearing it once, with at most one
/// stroke kept.
pub proof fn lemma_clear_idempotent(t: TranslatorV)
    ensures
        after_command(after_command(t, "clear_prev_strokes"@), "clear_prev_strokes"@)
            == after_command(t, "clear_prev_strokes"@),
        after_command(t, "clear_prev_strokes"@).history.len() <= 1,
{
    let once = after_command(t, "clear_prev_strokes"@);
    let twice = after_command(once, "clear_prev_strokes"@);
    if t.history.len() > 0 {
        assert(once.history =~= seq![t.history.last()]);
        assert(twice.history =~= seq![once.history.last()]);
    }
    assert(twice.history =~= once.history);
}

proof fn lemma_retro_index_bound(d: Map<Seq<char>, TranslationV>, h: Seq<Seq<char>>)
    ensures
        retro_index(d, h) <= h.len(),
        h.len() > 0 ==> retro_index(d, h) < h.len(),
    decreases h.len(),
{
    if h.len() > 0 {
        lemma_retro_index_bound(d, h.drop_last());
    }
}

/// A stroke keeps the history at 50 strokes at most.
pub proof fn lemma_stroke_keeps_bound(t: TranslatorV, stroke: Seq<char>)
    requires
        translator_inv(t),
    ensures
        translator_inv(after_stroke(t, stroke)),
{
    lemma_retro_index_bound(t.dict, trimmed(t.history));
}

/// However many strokes come, the history holds at most 50.
pub proof fn lemma_history_bounded(t: TranslatorV, strokes: Seq<Seq<char>>)
    requires
        translator_inv(t),
    ensures
        translator_inv(run(t, strokes).0),
        run(t, strokes).0.history.len() <= MAX_STROKE_BUFFER,
    decreases strokes.len(),
{
    if strokes.len() > 0 {
        lemma_history_bounded(t, strokes.drop_last());
        lemma_stroke_keeps_bound(run(t, strokes.drop_last()).0, strokes.last());
    }
}

/// Whether the stroke shows text when translated on its own.
pub open spec fn textual(d: Map<Seq<char>, TranslationV>, s: Seq<char>) -> bool {
    shows_text(greedy(d, seq![s]))
}

proof fn lemma_retro_index_place(d: Map<Seq<char>, TranslationV>, h: Seq<Seq<char>>)
    ensures
        forall|j: int| retro_index(d, h) < j < h.len() ==> !textual(d, #[trigger] h[j]),
        (retro_index(d, h) < h.len() && textual(d, h[retro_index(d, h) as int])) || (
        retro_index(d, h) == 0 && forall|j: int| 0 <= j < h.len() ==> !textual(d, #[trigger] h[j])),
    decreases h.len(),
{
    if h.len() > 0 && !textual(d, h.last()) {
        lemma_retro_index_place(d, h.drop_last());
        assert forall|j: int| retro_index(d, h) < j < h.len() implies !textual(d, #[trigger] h[j]) by {
            if j < h.len() - 1 {
                assert(h[j] == h.drop_last()[j]);
            }
        }
        if retro_index(d, h) < h.len() - 1 && textual(d, h.drop_last()[retro_index(d, h) as int]) {
        } else {
            assert forall|j: int| 0 <= j < h.len() implies !textual(d, #[trigger] h[j]) by {
                if j < h.len() - 1 {
                    assert(h[j] == h.drop_last()[j]);
                }
            }
        }
    }
}

/// A retroactive-space stroke is not added to the history. The space stroke goes in just
/// before the newest stroke that shows text on its own, or at the front when none does.
pub proof fn lemma_retro_space(t: TranslatorV, stroke: Seq<char>)
    requires
        translator_inv(t),
        t.retro.contains(stroke),
    ensures
        ({
            let h = trimmed(t.history);
            let i = retro_index(t.dict, h) as int;
            let h2 = after_stroke(t, stroke).history;
            &&& h2 == h.insert(i, t.insert->0)
            &&& h2.len() == h.len() + 1
            &&& forall|j: int| i < j < h.len() ==> !textual(t.dict, #[trigger] h[j])
            &&& (i < h.len() && textual(t.dict, h[i])) || (i == 0 && forall|j: int|
                0 <= j < h.len() ==> !textual(t.dict, #[trigger] h[j]))
        }),
{
    lemma_retro_index_bound(t.dict, trimmed(t.history));
    lemma_retro_index_place(t.dict, trimmed(t.history));
}

} // verus!

verus! {

proof fn lemma_run_keeps_settings(t: TranslatorV, strokes: Seq<Seq<char>>)
    ensures
        run(t, strokes).0.dict == t.dict,
        run(t, strokes).0.space_after == t.space_after,
        run(t, strokes).0.retro == t.retro,
        run(t, strokes).0.insert == t.insert,
    decreases strokes.len(),
{
    if strokes.len() > 0 {
        lemma_run_keeps_settings(t, strokes.drop_last());
    }
}

/// From an empty history, as long as every stroke stays in the translated window (at most 10)
/// and none inserts a space retroactively, the commands typed into an empty buffer give the
/// rendering of the translations of all strokes, and the history holds those strokes.
pub proof fn lemma_commands_track_text(t: TranslatorV, strokes: Seq<Seq<char>>)
    requires
        translator_inv(t),
        t.history.len() == 0,
        strokes.len() <= TRANSLATION_WINDOW,
        forall|i: int| 0 <= i < strokes.len() ==> !t.retro.contains(#[trigger] strokes[i]),
    ensures
        run(t, strokes).0.history == strokes,
        run(t, strokes).1 == render(greedy(t.dict, strokes), t.space_after),
    decreases strokes.len(),
{
    lemma_run_keeps_settings(t, strokes);
    if strokes.len() == 0 {
        assert(greedy(t.dict, strokes) =~= Seq::<TranslationV>::empty());
        assert(all_atoms(Seq::<TranslationV>::empty()) =~= Seq::<TextV>::empty());
        assert(fold_atoms(Seq::<TextV>::empty()).0 =~= Seq::<char>::empty());
    } else {
        let prefix = strokes.drop_last();
        let last = strokes.last();
        assert forall|i: int| 0 <= i < prefix.len() implies !t.retro.contains(
            #[trigger] prefix[i],
        ) by {
            assert(prefix[i] == strokes[i]);
        }
        lemma_commands_track_text(t, prefix);
        lemma_run_keeps_settings(t, prefix);
        let (before, text) = run(t, prefix);
        assert(!t.retro.contains(strokes[strokes.len() - 1]));
        let h = before.history;
        assert(trimmed(h) == h);
        assert(window_start(h.len()) == 0);
        assert(h.skip(0) =~= h);
        assert(next_history(before, last) == h.push(last));
        assert(h.push(last) =~= strokes);
        assert(strokes.skip(0) =~= strokes);
        let old_ts = greedy(t.dict, h);
        let new_ts = greedy(t.dict, strokes);
        let old_text = render(old_ts, t.space_after);
        let new_text = render(new_ts, t.space_after);
        let edit = seq![diff_command(old_text, new_text)];
        let tail = new_ts.skip(common_prefix(old_ts, new_ts) as int);
        let rest = all_commands(tail);
        assert(stroke_commands(before, last) == edit + rest);
        // the edit turns the old text into the new one
        assert(text == old_text);
        assert(edit.drop_last() =~= Seq::<CommandV>::empty());
        assert(apply_edits(text, edit.drop_last()) == text);
        lemma_diff_applies(old_text, new_text);
        assert(apply_edits(text, edit) == new_text);
        // the commands of the new translations leave the text alone
        lemma_greedy_plain(t.dict, strokes);
        lemma_common_prefix_bound(old_ts, new_ts);
        assert forall|i: int| 0 <= i < tail.len() implies plain_translation(#[trigger] tail[i]) by {
            assert(tail[i] == new_ts[i + common_prefix(old_ts, new_ts)]);
        }
        lemma_all_commands_plain(tail);
        lemma_apply_no_edits(new_text, rest);
        lemma_apply_concat(text, edit, rest);
    }
}

proof fn lemma_undo_from(
    d: Map<Seq<char>, TranslationV>,
    old: Seq<char>,
    h: Seq<Seq<char>>,
    full: Seq<Seq<char>>,
    space_after: bool,
)
    requires
        h.len() <= full.len(),
        h == full.take(h.len() as int),
        forall|m: int|
            h.len() <= m <= full.len() ==> render(greedy(d, #[trigger] full.take(m)), space_after)
                == old,
    ensures
        ({
            let (h2, c) = undo_from(d, old, h, space_after);
            &&& h2.len() <= h.len()
            &&& (h.len() > 0 ==> h2.len() < h.len())
            &&& h2 == full.take(h2.len() as int)
            &&& forall|m: int|
                h2.len() < m <= full.len() ==> render(greedy(d, #[trigger] full.take(m)), space_after)
                    == old
            &&& c == seq![diff_command(old, render(greedy(d, h2), space_after))]
            &&& (c[0] is NoOp ==> h2.len() == 0)
        }),
    decreases h.len(),
{
    if h.len() == 0 {
        assert(full.take(0) =~= h);
        lemma_diff_same(old);
    } else {
        let h1 = h.drop_last();
        assert(h1 =~= full.take(h1.len() as int));
        let c = diff_command(old, render(greedy(d, h1), space_after));
        if c is NoOp {
            lemma_no_op_diff(old, render(greedy(d, h1), space_after));
            assert forall|m: int| h1.len() <= m <= full.len() implies render(
                greedy(d, #[trigger] full.take(m)),
                space_after,
            ) == old by {
                if m == h1.len() {
                    assert(full.take(m) == h1);
                }
            }
            lemma_undo_from(d, old, h1, full, space_after);
        }
    }
}

/// Undo removes strokes from the end until the rendered text changes, and emits the one edit
/// back to it. What is left is a proper prefix of the history; the strokes removed besides the
/// last changed nothing on screen; the edit turns the old text into the text of what is left.
/// When that text is a shorter prefix of the old one, the edit only deletes:
/// `Replace(k, "")`, k being the characters that the undone strokes added. The result is
/// `NoOp` exactly when no prefix of the history renders differently, and the history is then
/// emptied.
pub proof fn lemma_undo(t: TranslatorV)
    requires
        t.history.len() > 0,
    ensures
        ({
            let old = render(greedy(t.dict, t.history), t.space_after);
            let (h2, c) = undo_result(t);
            let new = render(greedy(t.dict, h2), t.space_after);
            &&& h2.len() < t.history.len()
            &&& h2 == t.history.take(h2.len() as int)
            &&& forall|m: int|
                h2.len() < m <= t.history.len() ==> render(
                    greedy(t.dict, #[trigger] t.history.take(m)),
                    t.space_after,
                ) == old
            &&& c == seq![diff_command(old, new)]
            &&& apply_edits(old, c) == new
            &&& (new.len() < old.len() && new == old.take(new.len() as int)) ==> c == seq![
                CommandV::Replace((old.len() - new.len()) as nat, Seq::empty()),
            ]
            &&& (c == seq![CommandV::NoOp]) == (forall|m: int|
                0 <= m <= t.history.len() ==> render(
                    greedy(t.dict, #[trigger] t.history.take(m)),
                    t.space_after,
                ) == old)
            &&& (c == seq![CommandV::NoOp] ==> h2.len() == 0)
        }),
{
    let h = t.history;
    let old = render(greedy(t.dict, h), t.space_after);
    assert forall|m: int| h.len() <= m <= h.len() implies render(
        greedy(t.dict, #[trigger] h.take(m)),
        t.space_after,
    ) == old by {
        assert(h.take(m) =~= h);
    }
    assert(h.take(h.len() as int) =~= h);
    lemma_undo_from(t.dict, old, h, h, t.space_after);
    let (h2, c) = undo_result(t);
    let new = render(greedy(t.dict, h2), t.space_after);
    lemma_diff_applies(old, new);
    assert(c.drop_last() =~= Seq::<CommandV>::empty());
    assert(apply_edits(old, c.drop_last()) == old);
    if new.len() < old.len() && new == old.take(new.len() as int) {
        lemma_prefix_diff(old, new);
    }
    if c == seq![CommandV::NoOp] {
        lemma_no_op_diff(old, new);
        assert forall|m: int| 0 <= m <= h.len() implies render(
            greedy(t.dict, #[trigger] h.take(m)),
            t.space_after,
        ) == old by {
            if m == 0 {
                assert(h.take(m) == h2);
            }
        }
    }
    if forall|m: int|
        0 <= m <= h.len() ==> render(greedy(t.dict, #[trigger] h.take(m)), t.space_after) == old {
        assert(render(greedy(t.dict, h.take(h2.len() as int)), t.space_after) == old);
        lemma_diff_same(old);
    }
}

} // verus!
