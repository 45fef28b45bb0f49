//! Greedy multi-stroke lookup: from the oldest stroke on, the longest sequence with an entry wins.
use vstd::prelude::*;

use crate::dictionary::{dict_lookup, plain_dict, stroke_views, Dictionary};
use crate::stroke::Stroke;
use crate::translation::{plain_translation, Text, TextV, Translation, TranslationV};

verus! {

/// The most strokes that one lookup considers.
pub const MAX_TRANSLATION_STROKE_LEN: usize = 15;

/// How many strokes the first lookup may span.
pub open spec fn window(s: Seq<Seq<char>>) -> nat {
    if s.len() < MAX_TRANSLATION_STROKE_LEN {
        s.len()
    } else {
        MAX_TRANSLATION_STROKE_LEN as nat
    }
}

/// The length of the longest prefix of `s`, of at most `n` strokes, that has an entry; 0 if none.
pub open spec fn match_len(d: Map<Seq<char>, TranslationV>, s: Seq<Seq<char>>, n: nat) -> nat
    decreases n,
{
    if n == 0 {
        0
    } else if dict_lookup(d, s.take(n as int)) is Some {
        n
    } else {
        match_len(d, s, (n - 1) as nat)
    }
}

/// The translation shown for a stroke that has no entry.
pub open spec fn unknown_translation(s: Seq<char>) -> TranslationV {
    TranslationV::Text(seq![TextV::UnknownStroke(s)])
}

/// The translations of a stroke sequence, by greedy longest match from the front.
pub open spec fn greedy(d: Map<Seq<char>, TranslationV>, s: Seq<Seq<char>>) -> Seq<TranslationV>
    decreases s.len(),
    via greedy_decreases
{
    if s.len() == 0 {
        Seq::empty()
    } else {
        let n = match_len(d, s, window(s));
        if n > 0 {
            seq![dict_lookup(d, s.take(n as int))->0] + greedy(d, s.skip(n as int))
        } else {
            seq![unknown_translation(s[0])] + greedy(d, s.skip(1))
        }
    }
}

#[via_fn]
proof fn greedy_decreases(d: Map<Seq<char>, TranslationV>, s: Seq<Seq<char>>) {
    if s.len() > 0 {
        lemma_match_len_bound(d, s, window(s));
    }
}

proof fn lemma_match_len_bound(d: Map<Seq<char>, TranslationV>, s: Seq<Seq<char>>, n: nat)
    ensures
        match_len(d, s, n) <= n,
    decreases n,
{
    if n > 0 {
        lemma_match_len_bound(d, s, (n - 1) as nat);
    }
}

/// Looks strokes up in the dictionary. Since several strokes may make up one entry, the
/// longest sequence (of at most 15 strokes) that has an entry is taken, from the oldest stroke on.
pub fn translate_strokes(strokes: &Vec<Stroke>, dict: &Dictionary) -> (r: Vec<Translation>)
    ensures
        r@.map_values(|t: Translation| t.deep_view()) == greedy(dict@, stroke_views(strokes@)),
{
    translate_slice(strokes.as_slice(), dict)
}

/// `translate_strokes` on a slice.
pub fn translate_slice(strokes: &[Stroke], dict: &Dictionary) -> (r: Vec<Translation>)
    ensures
        r@.map_values(|t: Translation| t.deep_view()) == greedy(dict@, stroke_views(strokes@)),
{
    let ghost sv = stroke_views(strokes@);
    let len = strokes.len();
    let mut all: Vec<Translation> = Vec::new();
    let mut start: usize = 0;
    proof {
        assert(sv.skip(0) =~= sv);
    }
    while start < strokes.len()
        invariant
            start <= strokes@.len(),
            len == strokes@.len(),
            sv == stroke_views(strokes@),
            greedy(dict@, sv) == all@.map_values(|t: Translation| t.deep_view()) + greedy(
                dict@,
                sv.skip(start as int),
            ),
        decreases strokes@.len() - start,
    {
        let ghost rest = sv.skip(start as int);
        let limit: usize = if strokes.len() - start < MAX_TRANSLATION_STROKE_LEN {
            strokes.len() - start
        } else {
            MAX_TRANSLATION_STROKE_LEN
        };
        assert(limit == window(rest));
        let mut n: usize = limit;
        let mut found: Option<Translation> = None;
        while n > 0 && found.is_none()
            invariant
                start < strokes@.len(),
                len == strokes@.len(),
                n <= limit,
                limit == window(rest),
                limit <= strokes@.len() - start,
                sv == stroke_views(strokes@),
                rest == sv.skip(start as int),
                found is None ==> match_len(dict@, rest, limit as nat) == match_len(
                    dict@,
                    rest,
                    n as nat,
                ),
                found is Some ==> n > 0 && found.deep_view() == dict_lookup(
                    dict@,
                    rest.take(n as int),
                ) && match_len(dict@, rest, limit as nat) == n,
            decreases n + if found is None { 1int } else { 0int },
        {
            let t = dict.lookup_range(strokes, start, start + n);
            proof {
                assert(sv.subrange(start as int, start + n) =~= rest.take(n as int));
            }
            if t.is_none() {
                n = n - 1;
            } else {
                found = t;
            }
        }
        proof {
            lemma_match_len_bound(dict@, rest, limit as nat);
        }
        let ghost before = all@.map_values(|t: Translation| t.deep_view());
        match found {
            Some(t) => {
                proof {
                    assert(n > 0);
                    assert(match_len(dict@, rest, n as nat) == n);
                    assert(rest.skip(n as int) =~= sv.skip(start + n));
                }
                all.push(t);
                start = start + n;
                proof {
                    assert(all@.map_values(|t: Translation| t.deep_view()) =~= before.push(
                        dict_lookup(dict@, rest.take(n as int))->0,
                    ));
                    assert(before.push(dict_lookup(dict@, rest.take(n as int))->0) + greedy(
                        dict@,
                        sv.skip(start as int),
                    ) =~= before + (seq![dict_lookup(dict@, rest.take(n as int))->0] + greedy(
                        dict@,
                        sv.skip(start as int),
                    )));
                }
            },
            None => {
                let mut atoms: Vec<Text> = Vec::new();
                atoms.push(Text::UnknownStroke(strokes[start].clone()));
                let t = Translation::Text(atoms);
                proof {
                    assert(match_len(dict@, rest, limit as nat) == 0);
                    assert(rest.skip(1) =~= sv.skip(start + 1));
                    assert(rest[0] == strokes@[start as int]@);
                    assert(t.deep_view() == unknown_translation(rest[0])) by {
                        assert(atoms.deep_view() =~= seq![TextV::UnknownStroke(rest[0])]);
                    }
                }
                all.push(t);
                start = start + 1;
                proof {
                    assert(all@.map_values(|t: Translation| t.deep_view()) =~= before.push(
                        unknown_translation(rest[0]),
                    ));
                    assert(before.push(unknown_translation(rest[0])) + greedy(
                        dict@,
                        sv.skip(start as int),
                    ) =~= before + (seq![unknown_translation(rest[0])] + greedy(
                        dict@,
                        sv.skip(start as int),
                    )));
                }
            },
        }
    }
    proof {
        assert(sv.skip(start as int) =~= Seq::<Seq<char>>::empty());
        assert(all@.map_values(|t: Translation| t.deep_view()) + Seq::<TranslationV>::empty()
            =~= all@.map_values(|t: Translation| t.deep_view()));
    }
    all
}

} // verus!

verus! {

/// A lookup never spans more than 15 strokes: the first translation of a stroke sequence comes
/// from an entry for at most its first 15 strokes, or is the first stroke shown as unknown.
pub proof fn lemma_lookup_window(d: Map<Seq<char>, TranslationV>, s: Seq<Seq<char>>)
    requires
        s.len() > 0,
    ensures
        match_len(d, s, window(s)) <= MAX_TRANSLATION_STROKE_LEN,
        match_len(d, s, window(s)) > 0 ==> greedy(d, s)[0] == dict_lookup(
            d,
            s.take(match_len(d, s, window(s)) as int),
        )->0,
        match_len(d, s, window(s)) == 0 ==> greedy(d, s)[0] == unknown_translation(s[0]),
{
    lemma_match_len_bound(d, s, window(s));
}

} // verus!

verus! {

proof fn lemma_match_found(d: Map<Seq<char>, TranslationV>, s: Seq<Seq<char>>, n: nat)
    ensures
        match_len(d, s, n) > 0 ==> dict_lookup(d, s.take(match_len(d, s, n) as int)) is Some,
    decreases n,
{
    if n > 0 {
        lemma_match_len_bound(d, s, (n - 1) as nat);
        lemma_match_found(d, s, (n - 1) as nat);
    }
}

/// Every translation of a lookup is an entry of the dictionary or an unknown stroke, so its
/// commands edit text only if the dictionary's do.
pub proof fn lemma_greedy_plain(d: Map<Seq<char>, TranslationV>, s: Seq<Seq<char>>)
    requires
        plain_dict(d),
    ensures
        forall|i: int| 0 <= i < greedy(d, s).len() ==> plain_translation(#[trigger] greedy(d, s)[i]),
    decreases s.len(),
{
    if s.len() > 0 {
        let n = match_len(d, s, window(s));
        lemma_match_len_bound(d, s, window(s));
        lemma_match_found(d, s, window(s));
        let first = if n > 0 {
            dict_lookup(d, s.take(n as int))->0
        } else {
            unknown_translation(s[0])
        };
        let rest = if n > 0 {
            s.skip(n as int)
        } else {
            s.skip(1)
        };
        lemma_greedy_plain(d, rest);
        assert(greedy(d, s) == seq![first] + greedy(d, rest));
        assert(plain_translation(first));
        assert forall|i: int| 0 <= i < greedy(d, s).len() implies plain_translation(
            #[trigger] greedy(d, s)[i],
        ) by {
            if i > 0 {
                assert(greedy(d, s)[i] == greedy(d, rest)[i - 1]);
            }
        }
    }
}

} // verus!

verus! {

/// Where a translation of a lookup comes from: the entry for the `n` strokes from `a` on, with
/// `n` at most 15, or the stroke at `a` shown as unknown.
pub open spec fn from_window(
    d: Map<Seq<char>, TranslationV>,
    s: Seq<Seq<char>>,
    t: TranslationV,
    a: int,
    n: int,
) -> bool {
    &&& 0 <= a
    &&& 1 <= n <= MAX_TRANSLATION_STROKE_LEN
    &&& a + n <= s.len()
    &&& (dict_lookup(d, s.subrange(a, a + n)) == Some(t) || (n == 1 && t == unknown_translation(
        s[a],
    )))
}

proof fn lemma_greedy_window_at(d: Map<Seq<char>, TranslationV>, s: Seq<Seq<char>>, i: int) -> (w:
    (int, int))
    requires
        0 <= i < greedy(d, s).len(),
    ensures
        from_window(d, s, greedy(d, s)[i], w.0, w.1),
    decreases s.len(),
{
    let m = match_len(d, s, window(s));
    lemma_match_len_bound(d, s, window(s));
    lemma_match_found(d, s, window(s));
    let k: int = if m > 0 {
        m as int
    } else {
        1
    };
    let rest = s.skip(k);
    let g = greedy(d, s);
    let gr = greedy(d, rest);
    assert(g == seq![g[0]] + gr);
    if i == 0 {
        assert(s.subrange(0, k) =~= s.take(k));
        (0, k)
    } else {
        assert(g[i] == gr[i - 1]);
        let (a, n) = lemma_greedy_window_at(d, rest, i - 1);
        assert(rest.subrange(a, a + n) =~= s.subrange(a + k, a + k + n));
        if n == 1 {
            assert(rest[a] == s[a + k]);
        }
        (a + k, n)
    }
}

/// The translation is the entry for at most 15 consecutive strokes of `s`, or one stroke of
/// `s` shown as unknown.
pub open spec fn within_window(d: Map<Seq<char>, TranslationV>, s: Seq<Seq<char>>, t: TranslationV) -> bool {
    exists|a: int, n: int| #[trigger] from_window(d, s, t, a, n)
}

/// No translation of a lookup covers more than 15 strokes: each is the entry for at most 15
/// consecutive strokes of the sequence, or a single stroke shown as unknown.
pub proof fn lemma_greedy_windows(d: Map<Seq<char>, TranslationV>, s: Seq<Seq<char>>)
    ensures
        forall|i: int| 0 <= i < greedy(d, s).len() ==> within_window(d, s, #[trigger] greedy(d, s)[i]),
{
    assert forall|i: int| 0 <= i < greedy(d, s).len() implies within_window(
        d,
        s,
        #[trigger] greedy(d, s)[i],
    ) by {
        let w = lemma_greedy_window_at(d, s, i);
        assert(from_window(d, s, greedy(d, s)[i], w.0, w.1));
    }
}

} // verus!
