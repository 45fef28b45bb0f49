//! Turns the text before a stroke and the text after it into one edit command.
use vstd::prelude::*;

use crate::chars::{chars_of, copy_chars, string_of};
use crate::commands::{copy_commands, no_edits, Command, CommandV};
use crate::formatter::{format_atoms, format_chars};
use crate::translation::{
    copy_texts, plain_translation, AttachedType, Text, TextV, Translation, TranslationV,
};

verus! {

/// Length of the longest common prefix of two sequences.
pub open spec fn common_prefix<A>(a: Seq<A>, b: Seq<A>) -> nat
    decreases a.len(),
{
    if a.len() == 0 || b.len() == 0 || a[0] != b[0] {
        0
    } else {
        1 + common_prefix(a.drop_first(), b.drop_first())
    }
}

/// The edit from `old` to `new`: delete what follows their common prefix, type the rest of `new`.
pub open spec fn diff_command(old: Seq<char>, new: Seq<char>) -> CommandV {
    let k = common_prefix(old, new);
    if old.len() == k && new.len() == k {
        CommandV::NoOp
    } else {
        CommandV::Replace((old.len() - k) as nat, new.skip(k as int))
    }
}

/// What a command does to a text buffer; commands other than `Replace` leave it as it is.
pub open spec fn apply_edit(buf: Seq<char>, c: CommandV) -> Seq<char> {
    match c {
        CommandV::Replace(n, s) => buf.take(buf.len() - n) + s,
        _ => buf,
    }
}

/// The commands applied one after the other.
pub open spec fn apply_edits(buf: Seq<char>, cs: Seq<CommandV>) -> Seq<char>
    decreases cs.len(),
{
    if cs.len() == 0 {
        buf
    } else {
        apply_edit(apply_edits(buf, cs.drop_last()), cs.last())
    }
}

pub proof fn lemma_common_prefix(a: Seq<char>, b: Seq<char>)
    ensures
        common_prefix(a, b) <= a.len(),
        common_prefix(a, b) <= b.len(),
        a.take(common_prefix(a, b) as int) == b.take(common_prefix(a, b) as int),
        common_prefix(a, b) < a.len() && common_prefix(a, b) < b.len() ==> a[common_prefix(
            a,
            b,
        ) as int] != b[common_prefix(a, b) as int],
    decreases a.len(),
{
    if a.len() == 0 || b.len() == 0 || a[0] != b[0] {
        assert(a.take(0) =~= b.take(0));
    } else {
        let k = common_prefix(a.drop_first(), b.drop_first()) as int;
        lemma_common_prefix(a.drop_first(), b.drop_first());
        assert(a.take(k + 1) =~= seq![a[0]] + a.drop_first().take(k));
        assert(b.take(k + 1) =~= seq![b[0]] + b.drop_first().take(k));
    }
}

/// Applying the diff of two texts to the first gives the second.
pub proof fn lemma_diff_applies(old: Seq<char>, new: Seq<char>)
    ensures
        apply_edit(old, diff_command(old, new)) == new,
{
    lemma_common_prefix(old, new);
    let k = common_prefix(old, new) as int;
    if old.len() == k && new.len() == k {
        assert(old =~= old.take(k));
        assert(new =~= new.take(k));
    } else {
        assert(new =~= new.take(k) + new.skip(k));
    }
}

fn common_prefix_len(a: &[char], b: &[char]) -> (r: usize)
    ensures
        r == common_prefix(a@, b@),
{
    let mut i: usize = 0;
    proof {
        assert(a@.skip(0) =~= a@);
        assert(b@.skip(0) =~= b@);
    }
    while i < a.len() && i < b.len() && a[i] == b[i]
        invariant
            i <= a@.len(),
            i <= b@.len(),
            common_prefix(a@, b@) == i + common_prefix(a@.skip(i as int), b@.skip(i as int)),
        decreases a@.len() - i,
    {
        proof {
            assert(a@.skip(i as int).drop_first() =~= a@.skip(i + 1));
            assert(b@.skip(i as int).drop_first() =~= b@.skip(i + 1));
        }
        i = i + 1;
    }
    proof {
        if i < a@.len() && i < b@.len() {
            assert(a@.skip(i as int)[0] == a@[i as int]);
            assert(b@.skip(i as int)[0] == b@[i as int]);
        }
    }
    i
}

/// The single edit that turns `old` into `new`, counted in characters.
pub fn diff_chars(old: &[char], new: &[char]) -> (r: Command)
    ensures
        r.deep_view() == diff_command(old@, new@),
{
    let k = common_prefix_len(old, new);
    proof {
        lemma_common_prefix(old@, new@);
    }
    if old.len() == k && new.len() == k {
        Command::NoOp
    } else {
        let tail = copy_chars(new, k, new.len());
        Command::Replace(old.len() - k, string_of(tail.as_slice()))
    }
}

/// The single edit that turns the text `old` into the text `new`.
pub fn diff_strings(old: &str, new: &str) -> (r: Command)
    ensures
        r.deep_view() == diff_command(old@, new@),
{
    let a = chars_of(old);
    let b = chars_of(new);
    diff_chars(a.as_slice(), b.as_slice())
}

/// The atom that a command translation which suppresses the space before it contributes.
pub open spec fn attach_marker() -> TextV {
    TextV::Attached {
        text: Seq::empty(),
        joined_next: true,
        joined_prev: AttachedType::AttachOnly,
        carry_capitalization: false,
    }
}

/// The atoms that the formatter sees for one translation.
pub open spec fn rendered_atoms(t: TranslationV) -> Seq<TextV> {
    match t {
        TranslationV::Text(v) => v,
        TranslationV::Command { text_after, suppress_space_before, .. } => {
            (if suppress_space_before {
                seq![attach_marker()]
            } else {
                Seq::empty()
            }) + match text_after {
                Some(v) => v,
                None => Seq::empty(),
            }
        },
    }
}

/// The atoms of all translations, in order.
pub open spec fn all_atoms(ts: Seq<TranslationV>) -> Seq<TextV>
    decreases ts.len(),
{
    if ts.len() == 0 {
        Seq::empty()
    } else {
        all_atoms(ts.drop_last()) + rendered_atoms(ts.last())
    }
}

/// The commands of all command translations, in order.
pub open spec fn all_commands(ts: Seq<TranslationV>) -> Seq<CommandV>
    decreases ts.len(),
{
    if ts.len() == 0 {
        Seq::empty()
    } else {
        all_commands(ts.drop_last()) + match ts.last() {
            TranslationV::Command { cmds, .. } => cmds,
            TranslationV::Text(_) => Seq::empty(),
        }
    }
}

/// The rendered text of a list of translations.
pub open spec fn render(ts: Seq<TranslationV>, space_after: bool) -> Seq<char> {
    format_atoms(all_atoms(ts), space_after)
}

/// The commands for a change from the translations `old` to `new`: the text edit, then the
/// commands of the translations of `new` that come after what the two lists share.
pub open spec fn translation_diff_spec(
    old: Seq<TranslationV>,
    new: Seq<TranslationV>,
    space_after: bool,
) -> Seq<CommandV> {
    seq![diff_command(render(old, space_after), render(new, space_after))] + all_commands(
        new.skip(common_prefix(old, new) as int),
    )
}

fn collect_atoms(ts: &[Translation]) -> (r: Vec<Text>)
    ensures
        r.deep_view() == all_atoms(ts@.map_values(|t: Translation| t.deep_view())),
{
    let ghost tv = ts@.map_values(|t: Translation| t.deep_view());
    let mut r: Vec<Text> = Vec::new();
    let mut i: usize = 0;
    proof {
        assert(tv.take(0) =~= Seq::<TranslationV>::empty());
    }
    while i < ts.len()
        invariant
            i <= ts@.len(),
            tv == ts@.map_values(|t: Translation| t.deep_view()),
            r.deep_view() == all_atoms(tv.take(i as int)),
        decreases ts@.len() - i,
    {
        proof {
            assert(tv.take(i + 1).drop_last() =~= tv.take(i as int));
        }
        let ghost before = r.deep_view();
        match &ts[i] {
            Translation::Text(v) => {
                let mut c = copy_texts(v);
                r.append(&mut c);
                proof {
                    assert(r.deep_view() =~= before + v.deep_view());
                }
            },
            Translation::Command { text_after, suppress_space_before, .. } => {
                if *suppress_space_before {
                    r.push(
                        Text::Attached {
                            text: String::new(),
                            joined_next: true,
                            joined_prev: AttachedType::AttachOnly,
                            carry_capitalization: false,
                        },
                    );
                }
                let ghost mid = r.deep_view();
                proof {
                    assert(mid =~= before + if *suppress_space_before {
                        seq![attach_marker()]
                    } else {
                        Seq::empty()
                    });
                }
                match text_after {
                    Some(v) => {
                        let mut c = copy_texts(v);
                        r.append(&mut c);
                        proof {
                            assert(r.deep_view() =~= mid + v.deep_view());
                        }
                    },
                    None => {
                        proof {
                            assert(r.deep_view() =~= mid + Seq::<TextV>::empty());
                        }
                    },
                }
            },
        }
        i = i + 1;
    }
    proof {
        assert(tv.take(i as int) =~= tv);
    }
    r
}

fn collect_commands(ts: &[Translation], from: usize) -> (r: Vec<Command>)
    requires
        from <= ts@.len(),
    ensures
        r.deep_view() == all_commands(ts@.map_values(|t: Translation| t.deep_view()).skip(from as int)),
{
    let ghost tv = ts@.map_values(|t: Translation| t.deep_view()).skip(from as int);
    let mut r: Vec<Command> = Vec::new();
    let mut i: usize = from;
    proof {
        assert(tv.take(0) =~= Seq::<TranslationV>::empty());
    }
    while i < ts.len()
        invariant
            from <= i <= ts@.len(),
            tv == ts@.map_values(|t: Translation| t.deep_view()).skip(from as int),
            r.deep_view() == all_commands(tv.take(i - from)),
        decreases ts@.len() - i,
    {
        proof {
            assert(tv.take(i - from + 1).drop_last() =~= tv.take(i - from));
        }
        let ghost before = r.deep_view();
        match &ts[i] {
            Translation::Command { cmds, .. } => {
                let mut c = copy_commands(cmds);
                r.append(&mut c);
                proof {
                    assert(r.deep_view() =~= before + cmds.deep_view());
                }
            },
            Translation::Text(_) => {
                proof {
                    assert(r.deep_view() =~= before + Seq::<CommandV>::empty());
                }
            },
        }
        i = i + 1;
    }
    proof {
        assert(tv.take(i - from) =~= tv);
    }
    r
}

fn common_translations(a: &[Translation], b: &[Translation]) -> (r: usize)
    ensures
        r == common_prefix(
            a@.map_values(|t: Translation| t.deep_view()),
            b@.map_values(|t: Translation| t.deep_view()),
        ),
        r <= a@.len(),
        r <= b@.len(),
{
    let ghost av = a@.map_values(|t: Translation| t.deep_view());
    let ghost bv = b@.map_values(|t: Translation| t.deep_view());
    let mut i: usize = 0;
    proof {
        assert(av.skip(0) =~= av);
        assert(bv.skip(0) =~= bv);
    }
    while i < a.len() && i < b.len() && a[i].same_as(&b[i])
        invariant
            i <= a@.len(),
            i <= b@.len(),
            av == a@.map_values(|t: Translation| t.deep_view()),
            bv == b@.map_values(|t: Translation| t.deep_view()),
            common_prefix(av, bv) == i + common_prefix(av.skip(i as int), bv.skip(i as int)),
        decreases a@.len() - i,
    {
        proof {
            assert(av.skip(i as int).drop_first() =~= av.skip(i + 1));
            assert(bv.skip(i as int).drop_first() =~= bv.skip(i + 1));
        }
        i = i + 1;
    }
    i
}

/// The rendered text of a list of translations, as characters.
pub fn render_translations(ts: &[Translation], space_after: bool) -> (r: Vec<char>)
    ensures
        r@ == render(ts@.map_values(|t: Translation| t.deep_view()), space_after),
{
    let atoms = collect_atoms(ts);
    format_chars(&atoms, space_after)
}

/// The commands for a change of the translations from `old` to `new`: one `Replace` (or
/// `NoOp`) for the text, then the commands of the translations that are new.
pub fn translation_diff(old: &[Translation], new: &[Translation], space_after: bool) -> (r: Vec<
    Command,
>)
    ensures
        r.deep_view() == translation_diff_spec(
            old@.map_values(|t: Translation| t.deep_view()),
            new@.map_values(|t: Translation| t.deep_view()),
            space_after,
        ),
{
    let old_atoms = collect_atoms(old);
    let new_atoms = collect_atoms(new);
    let old_text = format_chars(&old_atoms, space_after);
    let new_text = format_chars(&new_atoms, space_after);
    let edit = diff_chars(old_text.as_slice(), new_text.as_slice());
    let p = common_translations(old, new);
    let mut rest = collect_commands(new, p);
    let mut r: Vec<Command> = Vec::new();
    r.push(edit);
    r.append(&mut rest);
    proof {
        assert(r.deep_view() =~= translation_diff_spec(
            old@.map_values(|t: Translation| t.deep_view()),
            new@.map_values(|t: Translation| t.deep_view()),
            space_after,
        ));
    }
    r
}

} // verus!

verus! {

/// Commands that do not edit text leave the buffer as it is.
pub proof fn lemma_apply_no_edits(buf: Seq<char>, cs: Seq<CommandV>)
    requires
        no_edits(cs),
    ensures
        apply_edits(buf, cs) == buf,
    decreases cs.len(),
{
    if cs.len() > 0 {
        assert(!(cs[cs.len() - 1] is Replace));
        lemma_apply_no_edits(buf, cs.drop_last());
    }
}

pub proof fn lemma_apply_concat(buf: Seq<char>, a: Seq<CommandV>, b: Seq<CommandV>)
    ensures
        apply_edits(buf, a + b) == apply_edits(apply_edits(buf, a), b),
    decreases b.len(),
{
    if b.len() == 0 {
        assert(a + b =~= a);
    } else {
        assert((a + b).drop_last() =~= a + b.drop_last());
        lemma_apply_concat(buf, a, b.drop_last());
    }
}

/// The commands of translations whose commands do not edit text do not edit text.
pub proof fn lemma_all_commands_plain(ts: Seq<TranslationV>)
    requires
        forall|i: int| 0 <= i < ts.len() ==> plain_translation(#[trigger] ts[i]),
    ensures
        no_edits(all_commands(ts)),
    decreases ts.len(),
{
    if ts.len() > 0 {
        assert(plain_translation(ts[ts.len() - 1]));
        lemma_all_commands_plain(ts.drop_last());
        let tail = match ts.last() {
            TranslationV::Command { cmds, .. } => cmds,
            TranslationV::Text(_) => Seq::empty(),
        };
        let all = all_commands(ts);
        let head = all_commands(ts.drop_last());
        assert(all == head + tail);
        assert forall|i: int| 0 <= i < all.len() implies !(#[trigger] all[i] is Replace) by {
            if i < head.len() {
                assert(all[i] == head[i]);
            } else {
                assert(all[i] == tail[i - head.len()]);
            }
        }
    }
}

/// The diff of a text with itself changes nothing.
pub proof fn lemma_diff_same(s: Seq<char>)
    ensures
        diff_command(s, s) == CommandV::NoOp,
{
    lemma_common_prefix(s, s);
}

/// A diff that changes nothing comes from two equal texts.
pub proof fn lemma_no_op_diff(old: Seq<char>, new: Seq<char>)
    requires
        diff_command(old, new) is NoOp,
    ensures
        old == new,
{
    lemma_common_prefix(old, new);
    let k = common_prefix(old, new) as int;
    assert(old =~= old.take(k));
    assert(new =~= new.take(k));
}

/// When the new text is a shorter prefix of the old one, the diff only deletes.
pub proof fn lemma_prefix_diff(old: Seq<char>, new: Seq<char>)
    requires
        new.len() < old.len(),
        new == old.take(new.len() as int),
    ensures
        diff_command(old, new) == CommandV::Replace((old.len() - new.len()) as nat, Seq::empty()),
{
    lemma_common_prefix(old, new);
    let k = common_prefix(old, new) as int;
    if k < new.len() {
        assert(old[k] == new[k]);
    }
    assert(new.skip(k) =~= Seq::<char>::empty());
}

} // verus!

verus! {

pub proof fn lemma_common_prefix_bound<A>(a: Seq<A>, b: Seq<A>)
    ensures
        common_prefix(a, b) <= a.len(),
        common_prefix(a, b) <= b.len(),
    decreases a.len(),
{
    if !(a.len() == 0 || b.len() == 0 || a[0] != b[0]) {
        lemma_common_prefix_bound(a.drop_first(), b.drop_first());
    }
}

} // verus!
