//! Settings of the program, as plain values; reading them from a file happens outside.
use vstd::prelude::*;

use crate::dictionary::stroke_views;
use crate::stroke::{canonical, Stroke};

verus! {

/// Where strokes come from.
#[derive(Debug, PartialEq, Eq)]
pub enum InputMachineType {
    Stdin,
    Keyboard,
    Geminipr { port: String },
}

/// Where commands go.
#[derive(Debug, Clone, Copy, PartialEq, Eq, Structural)]
pub enum OutputDispatchType {
    MacNative,
    Enigo,
    Stdout,
    Wayland,
}

#[derive(Debug)]
pub struct Config {
    pub input_machine: InputMachineType,
    pub output_dispatcher: OutputDispatchType,
    /// Dictionary files, in order: later ones override earlier ones.
    pub dicts: Vec<String>,
    pub retrospective_add_space_strokes: Vec<String>,
    pub space_stroke: Option<String>,
    pub space_after: bool,
    pub delay_output: bool,
    pub disable_input_strokes: Vec<String>,
    pub enable_input_shortcuts: Vec<Vec<String>>,
    pub disable_scan_keymap: bool,
}

/// The canonical strokes of a list of written strokes.
pub open spec fn canonical_all(v: Seq<Seq<char>>) -> Seq<Seq<char>> {
    v.map_values(|s: Seq<char>| canonical(s))
}

/// The strokes of a list of written strokes.
fn strokes_of(v: &Vec<String>) -> (r: Vec<Stroke>)
    ensures
        stroke_views(r@) == canonical_all(v.deep_view()),
{
    let mut r: Vec<Stroke> = Vec::new();
    let mut i: usize = 0;
    while i < v.len()
        invariant
            i <= v@.len(),
            r@.len() == i,
            forall|k: int| 0 <= k < i ==> r@[k]@ == canonical(v@[k]@),
        decreases v@.len() - i,
    {
        r.push(Stroke::new(v[i].as_str()));
        i = i + 1;
    }
    proof {
        assert(stroke_views(r@) =~= canonical_all(v.deep_view()));
    }
    r
}

impl Config {
    /// The strokes that add a space retroactively.
    pub fn get_retro_add_space(&self) -> (r: Vec<Stroke>)
        ensures
            stroke_views(r@) == canonical_all(self.retrospective_add_space_strokes.deep_view()),
    {
        strokes_of(&self.retrospective_add_space_strokes)
    }

    /// The stroke that a retroactive space inserts.
    pub fn get_space_stroke(&self) -> (r: Option<Stroke>)
        ensures
            match (r, self.space_stroke) {
                (Some(s), Some(w)) => s@ == canonical(w@),
                (None, None) => true,
                _ => false,
            },
    {
        match &self.space_stroke {
            Some(s) => Some(Stroke::new(s.as_str())),
            None => None,
        }
    }

    /// The strokes that toggle input, each once.
    pub fn get_disable_input_strokes(&self) -> (r: Vec<Stroke>)
        ensures
            stroke_views(r@).to_set() == canonical_all(self.disable_input_strokes.deep_view()).to_set(),
            stroke_views(r@).no_duplicates(),
    {
        let all = strokes_of(&self.disable_input_strokes);
        let ghost av = stroke_views(all@);
        let mut r: Vec<Stroke> = Vec::new();
        let mut i: usize = 0;
        while i < all.len()
            invariant
                i <= all@.len(),
                av == stroke_views(all@),
                forall|x: Seq<char>| stroke_views(r@).contains(x) <==> av.take(i as int).contains(x),
                stroke_views(r@).no_duplicates(),
            decreases all@.len() - i,
        {
            let mut seen = false;
            let mut j: usize = 0;
            while j < r.len()
                invariant
                    i < all@.len(),
                    j <= r@.len(),
                    seen == exists|k: int| 0 <= k < j && r@[k]@ == all@[i as int]@,
                decreases r@.len() - j,
            {
                if r[j].same_as(&all[i]) {
                    seen = true;
                }
                j = j + 1;
            }
            let ghost before = stroke_views(r@);
            if !seen {
                r.push(all[i].clone());
                proof {
                    assert(stroke_views(r@) =~= before.push(av[i as int]));
                    assert forall|a: int, b: int|
                        0 <= a < b < stroke_views(r@).len() implies stroke_views(r@)[a]
                        != stroke_views(r@)[b] by {
                        if b == before.len() {
                            assert(r@[a]@ == before[a]);
                        }
                    }
                }
            } else {
                proof {
                    let k = choose|k: int| 0 <= k < r@.len() && r@[k]@ == all@[i as int]@;
                    assert(before.contains(av[i as int])) by {
                        assert(before[k] == av[i as int]);
                    }
                }
            }
            proof {
                assert(av.take(i + 1) =~= av.take(i as int).push(av[i as int]));
                assert forall|x: Seq<char>| stroke_views(r@).contains(x) <==> av.take(i + 1).contains(
                    x,
                ) by {
                    if x == av[i as int] {
                        assert(av.take(i + 1)[i as int] == x);
                        if !seen {
                            assert(stroke_views(r@)[before.len() as int] == x);
                        } else {
                            assert(stroke_views(r@) == before);
                        }
                    }
                    if x != av[i as int] {
                        if av.take(i + 1).contains(x) {
                            let k = choose|k: int| 0 <= k < i + 1 && #[trigger] av.take(i + 1)[k] == x;
                            assert(av.take(i as int)[k] == x);
                            assert(av.take(i as int).contains(x));
                            assert(before.contains(x));
                            let k2 = choose|k2: int| 0 <= k2 < before.len() && #[trigger] before[k2] == x;
                            assert(stroke_views(r@)[k2] == x);
                        }
                        if stroke_views(r@).contains(x) {
                            let k = choose|k: int|
                                0 <= k < stroke_views(r@).len() && #[trigger] stroke_views(r@)[k] == x;
                            assert(k < before.len());
                            assert(before[k] == x);
                            assert(before.contains(x));
                            assert(av.take(i as int).contains(x));
                            let k3 = choose|k3: int| 0 <= k3 < i && #[trigger] av.take(i as int)[k3] == x;
                            assert(av.take(i + 1)[k3] == x);
                        }
                    }
                }
            }
            i = i + 1;
        }
        proof {
            assert(av.take(i as int) =~= av);
            assert(stroke_views(r@).to_set() =~= canonical_all(self.disable_input_strokes.deep_view()).to_set());
        }
        r
    }
}

} // verus!
