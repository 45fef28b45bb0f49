//! The dictionary: stroke sequences mapped to translations, later entries overriding earlier ones.
use vstd::prelude::*;
use vstd::slice::slice_subrange;
use std::collections::HashMap;

use crate::chars::{chars_of, same_string, string_of};
use crate::meta::{parse_entry_value, parse_value, ParseFailure};
use crate::lookup::{greedy, translate_slice};
use crate::stroke::{canonical_key, normalize_key};
use crate::stroke::Stroke;
use crate::translation::{plain_translation, Translation, TranslationV};

verus! {

broadcast use vstd::std_specs::hash::group_hash_axioms;

/// The key of a stroke sequence: the strokes joined by `/`.
pub open spec fn joined(strokes: Seq<Seq<char>>) -> Seq<char>
    decreases strokes.len(),
{
    if strokes.len() == 0 {
        Seq::empty()
    } else if strokes.len() == 1 {
        strokes[0]
    } else {
        joined(strokes.drop_last()) + seq!['/'] + strokes.last()
    }
}

/// The map that a list of entries gives when each is inserted in turn.
pub open spec fn entries_map(es: Seq<(Seq<char>, TranslationV)>) -> Map<Seq<char>, TranslationV>
    decreases es.len(),
{
    if es.len() == 0 {
        Map::empty()
    } else {
        entries_map(es.drop_last()).insert(es.last().0, es.last().1)
    }
}

/// The views of a list of strokes.
pub open spec fn stroke_views(s: Seq<Stroke>) -> Seq<Seq<char>> {
    s.map_values(|x: Stroke| x@)
}

/// The entry for a stroke sequence, if the dictionary has one.
pub open spec fn dict_lookup(d: Map<Seq<char>, TranslationV>, strokes: Seq<Seq<char>>) -> Option<
    TranslationV,
> {
    if d.contains_key(joined(strokes)) {
        Some(d[joined(strokes)])
    } else {
        None
    }
}

/// Modulus of the key digest: a prime below 2^32, so that digest arithmetic fits in `u64`.
pub const DIGEST_MODULUS: u64 = 4294967291;

/// A digest of a key: its characters read as digits in base 31, modulo a prime.
pub open spec fn key_digest(s: Seq<char>) -> u64
    decreases s.len(),
{
    if s.len() == 0 {
        0
    } else {
        ((key_digest(s.drop_last()) as int * 31 + (s.last() as u32) as int)
            % DIGEST_MODULUS as int) as u64
    }
}

/// The positions of the keys with digest `d`, in increasing order.
pub open spec fn bucket(keys: Seq<Seq<char>>, d: u64) -> Seq<usize>
    decreases keys.len(),
{
    if keys.len() == 0 {
        Seq::empty()
    } else {
        bucket(keys.drop_last(), d) + if key_digest(keys.last()) == d {
            seq![(keys.len() - 1) as usize]
        } else {
            Seq::empty()
        }
    }
}

/// The keys of a list of entries.
pub open spec fn keys_of(es: Seq<(Seq<char>, TranslationV)>) -> Seq<Seq<char>> {
    es.map_values(|e: (Seq<char>, TranslationV)| e.0)
}

/// An index that lists, for each digest, the positions of the keys that have it.
pub open spec fn indexes(index: Map<u64, Vec<usize>>, keys: Seq<Seq<char>>) -> bool {
    &&& forall|d: u64| #[trigger] index.contains_key(d) ==> index[d]@ == bucket(keys, d)
    &&& forall|d: u64| !index.contains_key(d) ==> #[trigger] bucket(keys, d).len() == 0
}

/// Entries from stroke keys to translations, with an index from key digests to positions.
#[derive(Debug)]
pub struct Dictionary {
    entries: Vec<(String, Translation)>,
    index: HashMap<u64, Vec<usize>>,
}

impl View for Dictionary {
    type V = Map<Seq<char>, TranslationV>;

    closed spec fn view(&self) -> Map<Seq<char>, TranslationV> {
        entries_map(self.entries.deep_view())
    }
}

proof fn lemma_last_entry(es: Seq<(Seq<char>, TranslationV)>, k: Seq<char>, j: int)
    requires
        0 <= j < es.len(),
        es[j].0 == k,
        forall|m: int| j < m < es.len() ==> es[m].0 != k,
    ensures
        entries_map(es).contains_key(k),
        entries_map(es)[k] == es[j].1,
    decreases es.len(),
{
    if j < es.len() - 1 {
        lemma_last_entry(es.drop_last(), k, j);
    }
}

proof fn lemma_no_entry(es: Seq<(Seq<char>, TranslationV)>, k: Seq<char>)
    requires
        forall|m: int| 0 <= m < es.len() ==> es[m].0 != k,
    ensures
        !entries_map(es).contains_key(k),
    decreases es.len(),
{
    if es.len() > 0 {
        lemma_no_entry(es.drop_last(), k);
    }
}

fn join_strokes(strokes: &[Stroke]) -> (r: String)
    ensures
        r@ == joined(stroke_views(strokes@)),
{
    let ghost sv = stroke_views(strokes@);
    let mut key: Vec<char> = Vec::new();
    let mut i: usize = 0;
    proof {
        assert(sv.take(0) =~= Seq::<Seq<char>>::empty());
    }
    while i < strokes.len()
        invariant
            i <= strokes@.len(),
            sv == stroke_views(strokes@),
            key@ == joined(sv.take(i as int)),
        decreases strokes@.len() - i,
    {
        proof {
            assert(sv.take(i + 1).drop_last() =~= sv.take(i as int));
        }
        if i > 0 {
            key.push('/');
        }
        let part = crate::chars::chars_of(strokes[i].as_str());
        crate::chars::push_all(&mut key, part.as_slice());
        i = i + 1;
        proof {
            if i == 1 {
                assert(key@ =~= sv.take(1)[0]);
            }
        }
    }
    proof {
        assert(sv.take(i as int) =~= sv);
    }
    string_of(key.as_slice())
}

/// Every entry of the list has commands that do not edit text.
pub open spec fn plain_entries(es: Seq<(Seq<char>, TranslationV)>) -> bool {
    forall|i: int| 0 <= i < es.len() ==> plain_translation(#[trigger] es[i].1)
}

/// Every entry of the dictionary has commands that do not edit text.
pub open spec fn plain_dict(d: Map<Seq<char>, TranslationV>) -> bool {
    forall|k: Seq<char>| d.contains_key(k) ==> plain_translation(#[trigger] d[k])
}

proof fn lemma_plain_map(es: Seq<(Seq<char>, TranslationV)>)
    requires
        plain_entries(es),
    ensures
        plain_dict(entries_map(es)),
    decreases es.len(),
{
    if es.len() > 0 {
        lemma_plain_map(es.drop_last());
        assert(plain_translation(es[es.len() - 1].1));
    }
}

fn digest(key: &str) -> (r: u64)
    ensures
        r == key_digest(key@),
{
    let v = chars_of(key);
    let mut d: u64 = 0;
    let mut i: usize = 0;
    proof {
        assert(v@.take(0) =~= Seq::<char>::empty());
    }
    while i < v.len()
        invariant
            i <= v@.len(),
            v@ == key@,
            d == key_digest(v@.take(i as int)),
            d < DIGEST_MODULUS,
        decreases v@.len() - i,
    {
        proof {
            assert(v@.take(i + 1).drop_last() =~= v@.take(i as int));
        }
        d = (d * 31 + (v[i] as u32) as u64) % DIGEST_MODULUS;
        i = i + 1;
    }
    proof {
        assert(v@.take(i as int) =~= v@);
    }
    d
}

proof fn lemma_bucket(keys: Seq<Seq<char>>, d: u64)
    requires
        keys.len() <= usize::MAX,
    ensures
        forall|t: int|
            0 <= t < bucket(keys, d).len() ==> #[trigger] bucket(keys, d)[t] < keys.len()
                && key_digest(keys[bucket(keys, d)[t] as int]) == d,
        forall|t1: int, t2: int|
            0 <= t1 < t2 < bucket(keys, d).len() ==> bucket(keys, d)[t1] < bucket(keys, d)[t2],
        forall|m: int|
            0 <= m < keys.len() && key_digest(#[trigger] keys[m]) == d ==> exists|t: int|
                0 <= t < bucket(keys, d).len() && bucket(keys, d)[t] == m,
    decreases keys.len(),
{
    if keys.len() > 0 {
        let prev = keys.drop_last();
        lemma_bucket(prev, d);
        let b = bucket(keys, d);
        let pb = bucket(prev, d);
        assert forall|m: int| 0 <= m < keys.len() && key_digest(#[trigger] keys[m]) == d implies exists|t: int|
            0 <= t < b.len() && b[t] == m by {
            if m < keys.len() - 1 {
                assert(prev[m] == keys[m]);
                let t = choose|t: int| 0 <= t < pb.len() && pb[t] == m;
                assert(b[t] == m);
            } else {
                assert(keys.last() == keys[m]);
                assert(b == pb + seq![(keys.len() - 1) as usize]);
                assert(b[b.len() - 1] == m);
            }
        }
        assert forall|t: int| 0 <= t < b.len() implies #[trigger] b[t] < keys.len() && key_digest(
            keys[b[t] as int],
        ) == d by {
            if t < pb.len() {
                assert(b[t] == pb[t]);
                assert(prev[pb[t] as int] == keys[pb[t] as int]);
            }
        }
        assert forall|t1: int, t2: int| 0 <= t1 < t2 < b.len() implies b[t1] < b[t2] by {
            if t2 < pb.len() {
                assert(b[t1] == pb[t1]);
                assert(b[t2] == pb[t2]);
            } else {
                assert(b[t1] == pb[t1]);
            }
        }
    }
}

impl Dictionary {
    /// A dictionary holding these entries, later ones overriding earlier ones with the same key.
    fn from_entries(entries: Vec<(String, Translation)>) -> (r: Self)
        requires
            plain_entries(entries.deep_view()),
        ensures
            r@ == entries_map(entries.deep_view()),
            plain_dict(r@),
    {
        proof {
            lemma_plain_map(entries.deep_view());
        }
        let ghost keys = keys_of(entries.deep_view());
        let mut index: HashMap<u64, Vec<usize>> = HashMap::new();
        let mut i: usize = 0;
        proof {
            assert(keys.take(0) =~= Seq::<Seq<char>>::empty());
        }
        while i < entries.len()
            invariant
                i <= entries@.len(),
                keys == keys_of(entries.deep_view()),
                indexes(index@, keys.take(i as int)),
            decreases entries@.len() - i,
        {
            let d = digest(entries[i].0.as_str());
            proof {
                assert(keys[i as int] == entries@[i as int].0@);
                assert(keys.take(i + 1).drop_last() =~= keys.take(i as int));
            }
            let ghost before = index@;
            let mut b = match index.remove(&d) {
                Some(b) => b,
                None => Vec::new(),
            };
            proof {
                assert(b@ == bucket(keys.take(i as int), d));
            }
            b.push(i);
            index.insert(d, b);
            proof {
                assert forall|e: u64| #[trigger] index@.contains_key(e) implies index@[e]@ == bucket(
                    keys.take(i + 1),
                    e,
                ) by {
                    if e != d {
                        assert(before.contains_key(e));
                        assert(bucket(keys.take(i + 1), e) =~= bucket(keys.take(i as int), e));
                    } else {
                        assert(bucket(keys.take(i + 1), e) =~= bucket(keys.take(i as int), e).push(i));
                    }
                }
                assert forall|e: u64| !index@.contains_key(e) implies #[trigger] bucket(
                    keys.take(i + 1),
                    e,
                ).len() == 0 by {
                    assert(e != d);
                    assert(bucket(keys.take(i + 1), e) =~= bucket(keys.take(i as int), e));
                }
            }
            i = i + 1;
        }
        proof {
            assert(keys.take(i as int) =~= keys);
        }
        Dictionary { entries, index }
    }

    #[verifier::type_invariant]
    spec fn wf(&self) -> bool {
        indexes(self.index@, keys_of(self.entries.deep_view()))
    }

    /// The entry for exactly this stroke sequence.
    pub fn lookup(&self, strokes: &[Stroke]) -> (r: Option<Translation>)
        ensures
            r.deep_view() == dict_lookup(self@, stroke_views(strokes@)),
    {
        proof {
            use_type_invariant(self);
        }
        let key = join_strokes(strokes);
        let ghost es = self.entries.deep_view();
        let ghost keys = keys_of(es);
        let d = digest(key.as_str());
        let n = self.entries.len();
        proof {
            assert(keys.len() == n);
            lemma_bucket(keys, d);
        }
        let b = match self.index.get(&d) {
            Some(b) => b,
            None => {
                proof {
                    assert forall|m: int| 0 <= m < es.len() implies es[m].0 != key@ by {
                        if es[m].0 == key@ {
                            assert(keys[m] == key@);
                        }
                    }
                    lemma_no_entry(es, key@);
                }
                return None;
            },
        };
        let mut j: usize = b.len();
        while j > 0
            invariant
                j <= b@.len(),
                b@ == bucket(keys, d),
                es == self.entries.deep_view(),
                keys == keys_of(es),
                keys.len() == n,
                key@ == joined(stroke_views(strokes@)),
                d == key_digest(key@),
                forall|t: int| j <= t < b@.len() ==> es[b@[t] as int].0 != key@,
            decreases j,
        {
            proof {
                lemma_bucket(keys, d);
                assert(b@[j - 1] < keys.len());
            }
            let idx = b[j - 1];
            proof {
                assert(keys[idx as int] == es[idx as int].0);
            }
            if same_string(&self.entries[idx].0, &key) {
                proof {
                    assert forall|m: int| idx < m < es.len() implies es[m].0 != key@ by {
                        if es[m].0 == key@ {
                            assert(keys[m] == key@);
                            let t = choose|t: int| 0 <= t < b@.len() && b@[t] == m;
                            if t < j - 1 {
                                assert(b@[t] < b@[j - 1]);
                            }
                        }
                    }
                    lemma_last_entry(es, key@, idx as int);
                }
                let t = self.entries[idx].1.clone();
                proof {
                    assert(es[idx as int].1 == self.entries@[idx as int].1.deep_view());
                }
                return Some(t);
            }
            j = j - 1;
        }
        proof {
            lemma_bucket(keys, d);
            assert forall|m: int| 0 <= m < es.len() implies es[m].0 != key@ by {
                if es[m].0 == key@ {
                    assert(keys[m] == key@);
                    let t = choose|t: int| 0 <= t < b@.len() && b@[t] == m;
                }
            }
            lemma_no_entry(es, key@);
        }
        None
    }

    /// The translations of a stroke sequence, by greedy longest match.
    pub fn translate(&self, strokes: &[Stroke]) -> (r: Vec<Translation>)
        ensures
            r@.map_values(|t: Translation| t.deep_view()) == greedy(self@, stroke_views(strokes@)),
    {
        translate_slice(strokes, self)
    }

    /// The entry for the strokes `from..to` of `strokes`.
    pub(crate) fn lookup_range(&self, strokes: &[Stroke], from: usize, to: usize) -> (r: Option<
        Translation,
    >)
        requires
            from <= to <= strokes@.len(),
        ensures
            r.deep_view() == dict_lookup(
                self@,
                stroke_views(strokes@).subrange(from as int, to as int),
            ),
    {
        let part = slice_subrange(strokes, from, to);
        proof {
            assert(stroke_views(part@) =~= stroke_views(strokes@).subrange(from as int, to as int));
        }
        self.lookup(part)
    }
}

} // verus!

verus! {

/// What a JSON text reads as when it is an object of strings: its (key, value) pairs in key
/// order; `None` when it is not such an object.
pub uninterp spec fn json_string_pairs(text: Seq<char>) -> Option<Seq<(Seq<char>, Seq<char>)>>;

/// Relies on `serde_json::from_str` into a `BTreeMap<String, String>`: the text is read as a
/// JSON object whose values are all strings, and the pairs come out in key order. The result
/// depends on the text alone.
#[verifier::external_body]
fn read_json_object(text: &str) -> (r: Option<Vec<(String, String)>>)
    ensures
        match r {
            Some(v) => json_string_pairs(text@) == Some(v.deep_view()),
            None => json_string_pairs(text@) is None,
        },
{
    match serde_json::from_str::<std::collections::BTreeMap<String, String>>(text) {
        Ok(m) => Some(m.into_iter().collect()),
        Err(_) => None,
    }
}

/// Why a dictionary could not be loaded: which dictionary, which key (empty when the whole
/// dictionary is not valid JSON), and what was wrong.
#[derive(Debug, PartialEq, Eq)]
pub struct DictParseError {
    pub dict_index: usize,
    pub key: String,
    pub reason: ParseFailure,
}

/// The entries of a list of (key, value) pairs, or the first key whose value does not parse.
pub open spec fn load_pairs(pairs: Seq<(Seq<char>, Seq<char>)>) -> Result<
    Seq<(Seq<char>, TranslationV)>,
    (Seq<char>, ParseFailure),
>
    decreases pairs.len(),
{
    if pairs.len() == 0 {
        Ok(Seq::empty())
    } else {
        match load_pairs(pairs.drop_last()) {
            Err(e) => Err(e),
            Ok(es) => match parse_value(pairs.last().1) {
                Ok(t) => Ok(es.push((canonical_key(pairs.last().0), t))),
                Err(f) => Err((pairs.last().0, f)),
            },
        }
    }
}

/// The entries of a list of raw dictionaries, in order, or the first error.
pub open spec fn load_dicts(raws: Seq<Seq<char>>) -> Result<
    Seq<(Seq<char>, TranslationV)>,
    (nat, Seq<char>, ParseFailure),
>
    decreases raws.len(),
{
    if raws.len() == 0 {
        Ok(Seq::empty())
    } else {
        match load_dicts(raws.drop_last()) {
            Err(e) => Err(e),
            Ok(es) => match json_string_pairs(raws.last()) {
                None => Err(((raws.len() - 1) as nat, Seq::empty(), ParseFailure::MalformedJson)),
                Some(pairs) => match load_pairs(pairs) {
                    Ok(more) => Ok(es + more),
                    Err((k, f)) => Err(((raws.len() - 1) as nat, k, f)),
                },
            },
        }
    }
}

proof fn lemma_pairs_error_stays(pairs: Seq<(Seq<char>, Seq<char>)>, j: int)
    requires
        0 <= j <= pairs.len(),
        load_pairs(pairs.take(j)) is Err,
    ensures
        load_pairs(pairs) == load_pairs(pairs.take(j)),
    decreases pairs.len() - j,
{
    if j < pairs.len() {
        assert(pairs.take(j + 1).drop_last() =~= pairs.take(j));
        lemma_pairs_error_stays(pairs, j + 1);
    } else {
        assert(pairs.take(j) =~= pairs);
    }
}

proof fn lemma_dicts_error_stays(raws: Seq<Seq<char>>, i: int)
    requires
        0 <= i <= raws.len(),
        load_dicts(raws.take(i)) is Err,
    ensures
        load_dicts(raws) == load_dicts(raws.take(i)),
    decreases raws.len() - i,
{
    if i < raws.len() {
        assert(raws.take(i + 1).drop_last() =~= raws.take(i));
        lemma_dicts_error_stays(raws, i + 1);
    } else {
        assert(raws.take(i) =~= raws);
    }
}

/// The error as values.
pub open spec fn error_view(e: DictParseError) -> (nat, Seq<char>, ParseFailure) {
    (e.dict_index as nat, e.key@, e.reason)
}

impl Dictionary {
    /// A dictionary from raw JSON texts, each an object from stroke keys to values. Entries of
    /// later dictionaries override those of earlier ones.
    pub fn new(raw_dicts: Vec<String>) -> (r: Result<Self, DictParseError>)
        ensures
            match r {
                Ok(d) => load_dicts(raw_dicts.deep_view()) is Ok && d@ == entries_map(
                    load_dicts(raw_dicts.deep_view())->Ok_0,
                ) && plain_dict(d@),
                Err(e) => load_dicts(raw_dicts.deep_view()) == Err::<
                    Seq<(Seq<char>, TranslationV)>,
                    (nat, Seq<char>, ParseFailure),
                >(error_view(e)),
            },
    {
        let ghost rv = raw_dicts.deep_view();
        let mut entries: Vec<(String, Translation)> = Vec::new();
        let mut i: usize = 0;
        proof {
            assert(rv.take(0) =~= Seq::<Seq<char>>::empty());
            assert(entries.deep_view() =~= Seq::<(Seq<char>, TranslationV)>::empty());
        }
        while i < raw_dicts.len()
            invariant
                i <= raw_dicts@.len(),
                rv == raw_dicts.deep_view(),
                load_dicts(rv.take(i as int)) == Ok::<
                    Seq<(Seq<char>, TranslationV)>,
                    (nat, Seq<char>, ParseFailure),
                >(entries.deep_view()),
                plain_entries(entries.deep_view()),
            decreases raw_dicts@.len() - i,
        {
            proof {
                assert(rv.take(i + 1).drop_last() =~= rv.take(i as int));
            }
            let pairs = match read_json_object(raw_dicts[i].as_str()) {
                Some(p) => p,
                None => {
                    proof {
                        lemma_dicts_error_stays(rv, i + 1);
                    }
                    return Err(
                        DictParseError {
                            dict_index: i,
                            key: String::new(),
                            reason: ParseFailure::MalformedJson,
                        },
                    );
                },
            };
            let ghost pv = pairs.deep_view();
            let ghost before = entries.deep_view();
            let mut j: usize = 0;
            proof {
                assert(pv.take(0) =~= Seq::<(Seq<char>, Seq<char>)>::empty());
                assert(before + Seq::<(Seq<char>, TranslationV)>::empty() =~= before);
            }
            while j < pairs.len()
                invariant
                    i < raw_dicts@.len(),
                    rv == raw_dicts.deep_view(),
                    load_dicts(rv.take(i as int)) == Ok::<
                        Seq<(Seq<char>, TranslationV)>,
                        (nat, Seq<char>, ParseFailure),
                    >(before),
                    j <= pairs@.len(),
                    pv == pairs.deep_view(),
                    json_string_pairs(rv[i as int]) == Some(pv),
                    load_pairs(pv.take(j as int)) matches Ok(es) && entries.deep_view() == before
                        + es,
                    plain_entries(entries.deep_view()),
                decreases pairs@.len() - j,
            {
                proof {
                    assert(pv.take(j + 1).drop_last() =~= pv.take(j as int));
                }
                match parse_entry_value(pairs[j].1.as_str()) {
                    Ok(t) => {
                        let ghost es = entries.deep_view();
                        let key = normalize_key(pairs[j].0.as_str());
                        entries.push((key, t));
                        proof {
                            assert(entries.deep_view() =~= es.push((key@, t.deep_view())));
                        }
                    },
                    Err(f) => {
                        proof {
                            lemma_pairs_error_stays(pv, j + 1);
                            assert(pv.take(j + 1).last() == pv[j as int]);
                            assert(load_pairs(pv) == Err::<
                                Seq<(Seq<char>, TranslationV)>,
                                (Seq<char>, ParseFailure),
                            >((pv[j as int].0, f)));
                            assert(rv.take(i + 1).drop_last() =~= rv.take(i as int));
                            assert(rv.take(i + 1).last() == rv[i as int]);
                            lemma_dicts_error_stays(rv, i + 1);
                        }
                        return Err(
                            DictParseError { dict_index: i, key: pairs[j].0.clone(), reason: f },
                        );
                    },
                }
                j = j + 1;
            }
            proof {
                assert(pv.take(j as int) =~= pv);
                assert(rv.take(i + 1).last() == rv[i as int]);
            }
            i = i + 1;
        }
        proof {
            assert(rv.take(i as int) =~= rv);
        }
        Ok(Dictionary::from_entries(entries))
    }
}

} // verus!
