//! A stroke: the keys of one chord, in the steno keyboard's canonical order.
use vstd::prelude::*;

use crate::chars::{chars_of, push_all, string_of};
use crate::formatter::{all_digits, is_digit, number_like};

verus! {

#[derive(Debug, PartialEq, Eq, Hash, PartialOrd, Ord)]
pub struct Stroke {
    raw: String,
}

impl View for Stroke {
    type V = Seq<char>;

    closed spec fn view(&self) -> Seq<char> {
        self.raw@
    }
}

impl DeepView for Stroke {
    type V = Seq<char>;

    closed spec fn deep_view(&self) -> Seq<char> {
        self.raw@
    }
}

impl Clone for Stroke {
    fn clone(&self) -> (r: Self)
        ensures
            r == *self,
    {
        Stroke { raw: self.raw.clone() }
    }
}

impl Stroke {
    /// A stroke from its written form, normalized: keys in steno order, a hyphen between
    /// the banks when no vowel or star separates them. Text that is not a stroke is kept as
    /// it is.
    pub fn new(raw: &str) -> (r: Self)
        ensures
            r@ == canonical(raw@),
    {
        let v = chars_of(raw);
        let c = canonical_chars(v.as_slice());
        Stroke { raw: string_of(c.as_slice()) }
    }

    /// Whether this is the undo stroke, the star alone.
    pub fn is_undo(&self) -> (r: bool)
        ensures
            r == (self@ == seq!['*']),
    {
        let v = chars_of(self.raw.as_str());
        let r = v.len() == 1 && v[0] == '*';
        proof {
            if r {
                assert(v@ =~= seq!['*']);
            }
        }
        r
    }

    /// Whether the stroke is written with digits and the hyphen only.
    pub fn is_number(&self) -> (r: bool)
        ensures
            r == number_like(self@),
    {
        let v = chars_of(self.raw.as_str());
        let mut i: usize = 0;
        while i < v.len()
            invariant
                i <= v@.len(),
                v@ == self@,
                forall|k: int| 0 <= k < i ==> is_digit(#[trigger] v@[k]) || v@[k] == '-',
            decreases v@.len() - i,
        {
            if !(('0' <= v[i] && v[i] <= '9') || v[i] == '-') {
                proof {
                    assert(!(is_digit(v@[i as int]) || v@[i as int] == '-'));
                }
                return false;
            }
            i = i + 1;
        }
        v.len() > 0
    }

    /// Whether the stroke is written with digits only.
    pub fn is_digits(&self) -> (r: bool)
        ensures
            r == all_digits(self@),
    {
        let v = chars_of(self.raw.as_str());
        let mut i: usize = 0;
        while i < v.len()
            invariant
                i <= v@.len(),
                v@ == self@,
                forall|k: int| 0 <= k < i ==> is_digit(#[trigger] v@[k]),
            decreases v@.len() - i,
        {
            if !('0' <= v[i] && v[i] <= '9') {
                proof {
                    assert(!is_digit(v@[i as int]));
                }
                return false;
            }
            i = i + 1;
        }
        v.len() > 0
    }

    /// The canonical text of the stroke.
    pub fn to_raw(self) -> (r: String)
        ensures
            r@ == self@,
    {
        self.raw
    }

    /// The canonical text of the stroke, borrowed.
    pub fn as_str(&self) -> (r: &str)
        ensures
            r@ == self@,
    {
        self.raw.as_str()
    }
}

} // verus!

verus! {

impl Stroke {
    /// Whether two strokes have the same text.
    pub fn same_as(&self, other: &Stroke) -> (r: bool)
        ensures
            r == (self@ == other@),
    {
        self.raw == other.raw
    }
}

} // verus!

verus! {

} // verus!

verus! {

/// The keys of a steno keyboard in order: left bank, vowels and star, right bank.
pub open spec fn steno_order() -> Seq<char> {
    seq![
        '#', 'S', 'T', 'K', 'P', 'W', 'H', 'R', 'A', 'O', '*', 'E', 'U', 'F', 'R', 'P', 'B', 'L',
        'G', 'T', 'S', 'D', 'Z',
    ]
}

/// Number of keys.
pub const KEY_COUNT: usize = 23;

/// First key of the vowel group and first key of the right bank.
pub const VOWELS_START: usize = 8;

pub const RIGHT_START: usize = 13;

/// The key that a digit stands for, or -1 for a character that is not a digit.
pub open spec fn digit_slot(c: char) -> int {
    if c == '1' {
        1
    } else if c == '2' {
        2
    } else if c == '3' {
        4
    } else if c == '4' {
        6
    } else if c == '5' {
        8
    } else if c == '0' {
        9
    } else if c == '6' {
        13
    } else if c == '7' {
        15
    } else if c == '8' {
        17
    } else if c == '9' {
        19
    } else {
        -1
    }
}

/// The first key at or after `from` that `c` can stand for; -1 if there is none.
pub open spec fn slot_from(c: char, from: int) -> int
    decreases KEY_COUNT - from,
{
    if from < 0 || from >= KEY_COUNT {
        -1
    } else if steno_order()[from] == c || digit_slot(c) == from {
        from
    } else {
        slot_from(c, from + 1)
    }
}

/// Reading a stroke: the character shown for each key (a space where the key is up), the
/// first key the next character may stand for, and whether all went well.
pub open spec fn key_step(st: (Seq<char>, int, bool), c: char) -> (Seq<char>, int, bool) {
    if !st.2 {
        st
    } else if c == '-' {
        if st.1 <= RIGHT_START {
            (st.0, RIGHT_START as int, true)
        } else {
            (st.0, st.1, false)
        }
    } else {
        let i = slot_from(c, st.1);
        if i < 0 {
            (st.0, st.1, false)
        } else {
            (st.0.update(i, c), i + 1, true)
        }
    }
}

pub open spec fn key_fold(s: Seq<char>) -> (Seq<char>, int, bool)
    decreases s.len(),
{
    if s.len() == 0 {
        (Seq::new(KEY_COUNT as nat, |i: int| ' '), 0, true)
    } else {
        key_step(key_fold(s.drop_last()), s.last())
    }
}

/// The characters of the keys that are down.
pub open spec fn present(slots: Seq<char>) -> Seq<char>
    decreases slots.len(),
{
    if slots.len() == 0 {
        slots
    } else if slots.last() == ' ' {
        present(slots.drop_last())
    } else {
        present(slots.drop_last()).push(slots.last())
    }
}

/// The written form of the keys that are down: a hyphen goes between the banks when no vowel
/// or star is down and a right-bank key is.
pub open spec fn render_keys(slots: Seq<char>) -> Seq<char> {
    let left = present(slots.subrange(0, VOWELS_START as int));
    let mid = present(slots.subrange(VOWELS_START as int, RIGHT_START as int));
    let right = present(slots.subrange(RIGHT_START as int, KEY_COUNT as int));
    left + mid + (if mid.len() == 0 && right.len() > 0 {
        seq!['-']
    } else {
        Seq::empty()
    }) + right
}

/// The canonical form of a stroke's text.
pub open spec fn canonical(raw: Seq<char>) -> Seq<char> {
    let st = key_fold(raw);
    if st.2 && render_keys(st.0).len() > 0 {
        render_keys(st.0)
    } else {
        raw
    }
}

/// Canonical form of a dictionary key, read as (done, pending stroke) over its characters:
/// each `/`-separated stroke in canonical form.
pub open spec fn key_parts(s: Seq<char>) -> (Seq<char>, Seq<char>)
    decreases s.len(),
{
    if s.len() == 0 {
        (Seq::empty(), Seq::empty())
    } else {
        let (done, cur) = key_parts(s.drop_last());
        if s.last() == '/' {
            (done + canonical(cur) + seq!['/'], Seq::empty())
        } else {
            (done, cur.push(s.last()))
        }
    }
}

/// Canonical form of a dictionary key: each `/`-separated stroke in canonical form.
pub open spec fn canonical_key(raw: Seq<char>) -> Seq<char> {
    key_parts(raw).0 + canonical(key_parts(raw).1)
}

pub(crate) fn key_char(i: usize) -> (r: char)
    requires
        i < KEY_COUNT,
    ensures
        r == steno_order()[i as int],
{
    let keys: [char; 23] = [
        '#', 'S', 'T', 'K', 'P', 'W', 'H', 'R', 'A', 'O', '*', 'E', 'U', 'F', 'R', 'P', 'B', 'L',
        'G', 'T', 'S', 'D', 'Z',
    ];
    proof {
        assert(keys@ =~= steno_order());
    }
    keys[i]
}

fn digit_key(c: char) -> (r: i32)
    ensures
        r == digit_slot(c),
{
    if c == '1' {
        1
    } else if c == '2' {
        2
    } else if c == '3' {
        4
    } else if c == '4' {
        6
    } else if c == '5' {
        8
    } else if c == '0' {
        9
    } else if c == '6' {
        13
    } else if c == '7' {
        15
    } else if c == '8' {
        17
    } else if c == '9' {
        19
    } else {
        -1
    }
}

fn find_slot(c: char, from: usize) -> (r: Option<usize>)
    requires
        from <= KEY_COUNT,
    ensures
        match r {
            Some(i) => slot_from(c, from as int) == i as int && i < KEY_COUNT,
            None => slot_from(c, from as int) < 0,
        },
{
    let d = digit_key(c);
    let mut i: usize = from;
    while i < KEY_COUNT
        invariant
            from <= i <= KEY_COUNT,
            d == digit_slot(c),
            slot_from(c, from as int) == slot_from(c, i as int),
        decreases KEY_COUNT - i,
    {
        if key_char(i) == c || d == i as i32 {
            return Some(i);
        }
        i = i + 1;
    }
    None
}

fn present_keys(slots: &[char], from: usize, to: usize) -> (r: Vec<char>)
    requires
        from <= to <= slots@.len(),
    ensures
        r@ == present(slots@.subrange(from as int, to as int)),
{
    let mut r: Vec<char> = Vec::new();
    let mut i: usize = from;
    proof {
        assert(slots@.subrange(from as int, from as int) =~= Seq::<char>::empty());
    }
    while i < to
        invariant
            from <= i <= to <= slots@.len(),
            r@ == present(slots@.subrange(from as int, i as int)),
        decreases to - i,
    {
        proof {
            assert(slots@.subrange(from as int, i + 1).drop_last() =~= slots@.subrange(
                from as int,
                i as int,
            ));
        }
        if slots[i] != ' ' {
            r.push(slots[i]);
        }
        i = i + 1;
    }
    r
}

/// The canonical form of a stroke's characters.
fn canonical_chars(raw: &[char]) -> (r: Vec<char>)
    ensures
        r@ == canonical(raw@),
{
    let mut slots: Vec<char> = Vec::new();
    let mut k: usize = 0;
    while k < KEY_COUNT
        invariant
            k <= KEY_COUNT,
            slots@ == Seq::new(k as nat, |i: int| ' '),
        decreases KEY_COUNT - k,
    {
        slots.push(' ');
        k = k + 1;
        proof {
            assert(slots@ =~= Seq::new(k as nat, |i: int| ' '));
        }
    }
    let mut next: usize = 0;
    let mut ok = true;
    let mut i: usize = 0;
    proof {
        assert(raw@.take(0) =~= Seq::<char>::empty());
    }
    while i < raw.len()
        invariant
            i <= raw@.len(),
            slots@.len() == KEY_COUNT,
            next <= KEY_COUNT,
            (slots@, next as int, ok) == key_fold(raw@.take(i as int)),
        decreases raw@.len() - i,
    {
        proof {
            assert(raw@.take(i + 1).drop_last() =~= raw@.take(i as int));
        }
        let c = raw[i];
        if ok {
            if c == '-' {
                if next <= RIGHT_START {
                    next = RIGHT_START;
                } else {
                    ok = false;
                }
            } else {
                match find_slot(c, next) {
                    Some(s) => {
                        slots.set(s, c);
                        next = s + 1;
                    },
                    None => {
                        ok = false;
                    },
                }
            }
        }
        i = i + 1;
    }
    proof {
        assert(raw@.take(i as int) =~= raw@);
    }
    let mut r = present_keys(slots.as_slice(), 0, VOWELS_START);
    let mid = present_keys(slots.as_slice(), VOWELS_START, RIGHT_START);
    let right = present_keys(slots.as_slice(), RIGHT_START, KEY_COUNT);
    push_all(&mut r, mid.as_slice());
    if mid.len() == 0 && right.len() > 0 {
        r.push('-');
    }
    push_all(&mut r, right.as_slice());
    proof {
        assert(r@ =~= render_keys(slots@));
    }
    if ok && r.len() > 0 {
        r
    } else {
        let mut copy: Vec<char> = Vec::new();
        push_all(&mut copy, raw);
        proof {
            assert(copy@ =~= raw@);
        }
        copy
    }
}

impl Stroke {
    /// The stroke whose keys are down as `slots` shows them.
    pub(crate) fn from_slots(slots: &[char]) -> (r: Stroke)
        requires
            slots@.len() == KEY_COUNT,
        ensures
            r@ == render_keys(slots@),
    {
        let mut r = present_keys(slots, 0, VOWELS_START);
        let mid = present_keys(slots, VOWELS_START, RIGHT_START);
        let right = present_keys(slots, RIGHT_START, KEY_COUNT);
        push_all(&mut r, mid.as_slice());
        if mid.len() == 0 && right.len() > 0 {
            r.push('-');
        }
        push_all(&mut r, right.as_slice());
        proof {
            assert(r@ =~= render_keys(slots@));
        }
        Stroke { raw: string_of(r.as_slice()) }
    }
}

/// Rewrites a dictionary key so that each of its `/`-separated strokes is canonical.
pub fn normalize_key(raw: &str) -> (r: String)
    ensures
        r@ == canonical_key(raw@),
{
    let s = chars_of(raw);
    let mut done: Vec<char> = Vec::new();
    let mut cur: Vec<char> = Vec::new();
    let mut i: usize = 0;
    proof {
        assert(s@.take(0) =~= Seq::<char>::empty());
    }
    while i < s.len()
        invariant
            i <= s@.len(),
            (done@, cur@) == key_parts(s@.take(i as int)),
        decreases s@.len() - i,
    {
        proof {
            assert(s@.take(i + 1).drop_last() =~= s@.take(i as int));
        }
        if s[i] == '/' {
            let c = canonical_chars(cur.as_slice());
            push_all(&mut done, c.as_slice());
            done.push('/');
            cur = Vec::new();
            proof {
                assert(cur@ =~= Seq::<char>::empty());
            }
        } else {
            cur.push(s[i]);
        }
        i = i + 1;
    }
    proof {
        assert(s@.take(i as int) =~= s@);
    }
    let c = canonical_chars(cur.as_slice());
    push_all(&mut done, c.as_slice());
    string_of(done.as_slice())
}

} // verus!
