//! English spelling changes when a suffix is attached to a word.
//!
//! The rules are tried in order and the first one that applies wins:
//! `die + ing = dying`, `fairy + s = fairies`, `try + ed = tried`, `box + s = boxes`,
//! `make + ing = making`, `stop + ing = stopping`. Otherwise stem and suffix are joined as they are.
use vstd::prelude::*;

use crate::chars::push_all;

verus! {

pub open spec fn is_vowel(c: char) -> bool {
    c == 'a' || c == 'e' || c == 'i' || c == 'o' || c == 'u'
}

pub open spec fn is_consonant(c: char) -> bool {
    'a' <= c <= 'z' && !is_vowel(c)
}

/// `ie` followed by `ing` becomes `ying`.
pub open spec fn ie_ing(stem: Seq<char>, suffix: Seq<char>) -> bool {
    stem.len() >= 2 && stem[stem.len() - 2] == 'i' && stem.last() == 'e' && suffix == seq![
        'i',
        'n',
        'g',
    ]
}

/// A consonant followed by `y`.
pub open spec fn consonant_y(stem: Seq<char>) -> bool {
    stem.len() >= 2 && is_consonant(stem[stem.len() - 2]) && stem.last() == 'y'
}

/// A stem that takes `es` for a plural.
pub open spec fn sibilant_end(stem: Seq<char>) -> bool {
    stem.len() >= 1 && (stem.last() == 's' || stem.last() == 'x' || stem.last() == 'z' || (
    stem.len() >= 2 && (stem[stem.len() - 2] == 'c' || stem[stem.len() - 2] == 's')
        && stem.last() == 'h'))
}

/// A consonant followed by a silent `e`.
pub open spec fn silent_e(stem: Seq<char>) -> bool {
    stem.len() >= 2 && is_consonant(stem[stem.len() - 2]) && stem.last() == 'e'
}

/// One syllable of consonants, one vowel and a final consonant that doubles (not w, x or y).
pub open spec fn short_syllable(stem: Seq<char>) -> bool {
    &&& stem.len() >= 3
    &&& is_consonant(stem.last())
    &&& stem.last() != 'w' && stem.last() != 'x' && stem.last() != 'y'
    &&& is_vowel(stem[stem.len() - 2])
    &&& forall|i: int| 0 <= i < stem.len() - 2 ==> is_consonant(#[trigger] stem[i])
}

pub open spec fn starts_with_vowel(s: Seq<char>) -> bool {
    s.len() > 0 && (is_vowel(s[0]) || s[0] == 'y')
}

/// The word that results from attaching `suffix` to `stem`.
pub open spec fn orthography(stem: Seq<char>, suffix: Seq<char>) -> Seq<char> {
    if ie_ing(stem, suffix) {
        stem.take(stem.len() - 2) + seq!['y', 'i', 'n', 'g']
    } else if consonant_y(stem) && suffix == seq!['s'] {
        stem.drop_last() + seq!['i', 'e', 's']
    } else if consonant_y(stem) && suffix.len() > 0 && suffix[0] == 'e' {
        stem.drop_last() + seq!['i'] + suffix
    } else if sibilant_end(stem) && suffix == seq!['s'] {
        stem + seq!['e', 's']
    } else if silent_e(stem) && starts_with_vowel(suffix) {
        stem.drop_last() + suffix
    } else if short_syllable(stem) && starts_with_vowel(suffix) && suffix[0] != 'y' {
        stem.push(stem.last()) + suffix
    } else {
        stem + suffix
    }
}

fn vowel(c: char) -> (r: bool)
    ensures
        r == is_vowel(c),
{
    c == 'a' || c == 'e' || c == 'i' || c == 'o' || c == 'u'
}

fn consonant(c: char) -> (r: bool)
    ensures
        r == is_consonant(c),
{
    'a' <= c && c <= 'z' && !vowel(c)
}

fn is_short_syllable(stem: &[char]) -> (r: bool)
    ensures
        r == short_syllable(stem@),
{
    let n = stem.len();
    if n < 3 {
        return false;
    }
    let last = stem[n - 1];
    if !consonant(last) || last == 'w' || last == 'x' || last == 'y' || !vowel(stem[n - 2]) {
        return false;
    }
    let mut i: usize = 0;
    while i < n - 2
        invariant
            n == stem@.len(),
            n >= 3,
            i <= n - 2,
            forall|k: int| 0 <= k < i ==> is_consonant(#[trigger] stem@[k]),
        decreases n - 2 - i,
    {
        if !consonant(stem[i]) {
            return false;
        }
        i = i + 1;
    }
    true
}

/// Attaches `suffix` to `stem`, applying the spelling rules above.
pub fn apply_orthography(stem: &[char], suffix: &[char]) -> (r: Vec<char>)
    ensures
        r@ == orthography(stem@, suffix@),
{
    let n = stem.len();
    let m = suffix.len();
    let mut r: Vec<char> = Vec::new();
    let ends_ie = n >= 2 && stem[n - 2] == 'i' && stem[n - 1] == 'e';
    let suffix_ing = m == 3 && suffix[0] == 'i' && suffix[1] == 'n' && suffix[2] == 'g';
    let suffix_s = m == 1 && suffix[0] == 's';
    let cons_y = n >= 2 && consonant(stem[n - 2]) && stem[n - 1] == 'y';
    let sibilant = n >= 1 && (stem[n - 1] == 's' || stem[n - 1] == 'x' || stem[n - 1] == 'z' || (
    n >= 2 && (stem[n - 2] == 'c' || stem[n - 2] == 's') && stem[n - 1] == 'h'));
    let silent = n >= 2 && consonant(stem[n - 2]) && stem[n - 1] == 'e';
    let vowel_start = m > 0 && (vowel(suffix[0]) || suffix[0] == 'y');
    proof {
        assert(suffix_ing == (suffix@ == seq!['i', 'n', 'g'])) by {
            if m == 3 {
                if suffix_ing {
                    assert(suffix@ =~= seq!['i', 'n', 'g']);
                }
            }
        }
        assert(suffix_s == (suffix@ == seq!['s'])) by {
            if m == 1 && suffix_s {
                assert(suffix@ =~= seq!['s']);
            }
        }
    }
    if ends_ie && suffix_ing {
        let mut i: usize = 0;
        while i < n - 2
            invariant
                n == stem@.len(),
                n >= 2,
                i <= n - 2,
                r@ == stem@.take(i as int),
            decreases n - 2 - i,
        {
            r.push(stem[i]);
            i = i + 1;
            proof {
                assert(r@ =~= stem@.take(i as int));
            }
        }
        r.push('y');
        r.push('i');
        r.push('n');
        r.push('g');
        proof {
            assert(r@ =~= stem@.take(n - 2) + seq!['y', 'i', 'n', 'g']);
        }
    } else if cons_y && (suffix_s || (m > 0 && suffix[0] == 'e')) {
        push_all(&mut r, stem);
        r.pop();
        if suffix_s {
            r.push('i');
            r.push('e');
            r.push('s');
            proof {
                assert(r@ =~= stem@.drop_last() + seq!['i', 'e', 's']);
            }
        } else {
            r.push('i');
            push_all(&mut r, suffix);
            proof {
                assert(r@ =~= stem@.drop_last() + seq!['i'] + suffix@);
            }
        }
    } else if sibilant && suffix_s {
        push_all(&mut r, stem);
        r.push('e');
        r.push('s');
        proof {
            assert(r@ =~= stem@ + seq!['e', 's']);
        }
    } else if silent && vowel_start {
        push_all(&mut r, stem);
        r.pop();
        push_all(&mut r, suffix);
        proof {
            assert(r@ =~= stem@.drop_last() + suffix@);
        }
    } else if vowel_start && suffix[0] != 'y' && is_short_syllable(stem) {
        push_all(&mut r, stem);
        r.push(stem[n - 1]);
        push_all(&mut r, suffix);
    } else {
        push_all(&mut r, stem);
        push_all(&mut r, suffix);
    }
    r
}

} // verus!
