//! Chord rendering as ctrmml branch expressions (e.g. `c/e-/g`).

use vstd::prelude::*;
use crate::key_sig::{KeySig, sig_get_or_zero};

verus! {

/// Explicit accidental typed after the root letter; `None` (as an
/// `Option`) means no accidental was typed.
#[derive(Debug, Copy, Clone, PartialEq, Eq)]
pub enum RootAccidental {
    Sharp,
    Natural,
    Flat,
}

/// Semitone offset of a typed accidental.
pub open spec fn root_acc_value(a: RootAccidental) -> int {
    match a {
        RootAccidental::Sharp => 1,
        RootAccidental::Natural => 0,
        RootAccidental::Flat => -1,
    }
}

impl RootAccidental {
    fn as_i32(self) -> (r: i32)
        ensures
            r == root_acc_value(self),
    {
        match self {
            RootAccidental::Sharp => 1,
            RootAccidental::Natural => 0,
            RootAccidental::Flat => -1,
        }
    }
}

/// The typed-accidental glyph: `+`, `-`, `=`, or nothing.
pub open spec fn acc_chars(acc: Option<RootAccidental>) -> Seq<char> {
    match acc {
        Some(RootAccidental::Sharp) => seq!['+'],
        Some(RootAccidental::Flat) => seq!['-'],
        Some(RootAccidental::Natural) => seq!['='],
        None => Seq::empty(),
    }
}

/// Render the typed-accidental glyph for a root-position accidental:
/// sharp `+`, flat `-`, natural `=`, none empty.
pub fn accidental_char(acc: Option<RootAccidental>) -> (r: &'static str)
    ensures
        r@ == acc_chars(acc),
{
    match acc {
        Some(RootAccidental::Sharp) => {
            proof {
                reveal_strlit("+");
            }
            "+"
        },
        Some(RootAccidental::Flat) => {
            proof {
                reveal_strlit("-");
            }
            "-"
        },
        Some(RootAccidental::Natural) => {
            proof {
                reveal_strlit("=");
            }
            "="
        },
        None => {
            proof {
                reveal_strlit("");
            }
            ""
        },
    }
}

fn push_accidental(s: &mut String, acc: Option<RootAccidental>)
    ensures
        final(s)@ == old(s)@ + acc_chars(acc),
{
    match acc {
        Some(RootAccidental::Sharp) => s.push('+'),
        Some(RootAccidental::Flat) => s.push('-'),
        Some(RootAccidental::Natural) => s.push('='),
        None => {},
    }
    assert(final(s)@ =~= old(s)@ + acc_chars(acc));
}

/// Triad vs seventh.
#[derive(Debug, Copy, Clone, PartialEq, Eq)]
pub enum ChordSize {
    Triad,
    Seventh,
}

/// Letter steps of a generic chord: `0 2 4` or `0 2 4 6`.
pub open spec fn size_steps(size: ChordSize) -> Seq<int> {
    match size {
        ChordSize::Triad => seq![0int, 2, 4],
        ChordSize::Seventh => seq![0int, 2, 4, 6],
    }
}

impl ChordSize {
    fn steps(self) -> (r: Vec<i32>)
        ensures
            r@.len() == size_steps(self).len(),
            forall|i: int| 0 <= i < r@.len() ==> r@[i] as int == size_steps(self)[i],
    {
        match self {
            ChordSize::Triad => vec![0, 2, 4],
            ChordSize::Seventh => vec![0, 2, 4, 6],
        }
    }
}

/// One named chord definition: suffix, letter-step layout, semitone
/// interval layout, description.
#[derive(Debug, Clone)]
pub struct ChordDef {
    /// Label suffix shown after the root letter (e.g. `m`, `M7`, empty).
    pub suffix: &'static str,
    /// Letter-step offset from the root for each chord tone.
    pub letter_steps: Vec<i32>,
    /// Semitone interval from the root for each chord tone.
    pub intervals: Vec<i32>,
    /// Short description shown in the completion detail.
    pub detail: &'static str,
}

fn def(suffix: &'static str, steps: Vec<i32>, intervals: Vec<i32>, detail: &'static str) -> (r: ChordDef)
    ensures
        r.suffix == suffix,
        r.letter_steps@ == steps@,
        r.intervals@ == intervals@,
        r.detail == detail,
{
    ChordDef { suffix, letter_steps: steps, intervals, detail }
}

/// A two-note diatonic interval offered by chord completion: its label
/// suffix, description and letter step from the root.
#[derive(Debug, Copy, Clone, PartialEq, Eq)]
pub struct Dyad {
    pub name: &'static str,
    pub detail: &'static str,
    pub step: i32,
}

/// Name, description and letter step of each diatonic dyad, 2nd to 7th.
pub open spec fn dyad_table() -> Seq<(&'static str, &'static str, i32)> {
    seq![
        ("2", "2nd", 1i32),
        ("3", "3rd", 2i32),
        ("4", "4th", 3i32),
        ("5", "5th", 4i32),
        ("6", "6th", 5i32),
        ("7", "7th", 6i32),
    ]
}

/// The diatonic dyads, 2nd to 7th.
pub fn dyads() -> (r: Vec<Dyad>)
    ensures
        r@.len() == 6,
        forall|i: int| 0 <= i < 6 ==> (#[trigger] r@[i]).name == dyad_table()[i].0 && r@[i].detail == dyad_table()[i].1
            && r@[i].step == dyad_table()[i].2,
{
    vec![
        Dyad { name: "2", detail: "2nd", step: 1 },
        Dyad { name: "3", detail: "3rd", step: 2 },
        Dyad { name: "4", detail: "4th", step: 3 },
        Dyad { name: "5", detail: "5th", step: 4 },
        Dyad { name: "6", detail: "6th", step: 5 },
        Dyad { name: "7", detail: "7th", step: 6 },
    ]
}

/// Every letter step lies in `0..=6` and every interval in `0..=11`, with
/// one interval per step: the shape of the built-in tables.
pub open spec fn table_shaped(d: ChordDef) -> bool {
    d.letter_steps@.len() == d.intervals@.len()
        && (forall|i: int| 0 <= i < d.letter_steps@.len() ==> 0 <= #[trigger] d.letter_steps@[i] <= 6)
        && (forall|i: int| 0 <= i < d.intervals@.len() ==> 0 <= #[trigger] d.intervals@[i] <= 11)
}

/// Suffix, letter steps, intervals and description of each named triad.
pub open spec fn chord3_table() -> Seq<(&'static str, Seq<i32>, Seq<i32>, &'static str)> {
    seq![
        ("", seq![0i32, 2i32, 4i32], seq![0i32, 4i32, 7i32], "Major triad"),
        ("m", seq![0i32, 2i32, 4i32], seq![0i32, 3i32, 7i32], "Minor triad"),
        ("dim", seq![0i32, 2i32, 4i32], seq![0i32, 3i32, 6i32], "Diminished triad"),
        ("aug", seq![0i32, 2i32, 4i32], seq![0i32, 4i32, 8i32], "Augmented triad"),
        ("sus2", seq![0i32, 1i32, 4i32], seq![0i32, 2i32, 7i32], "Suspended 2nd"),
        ("sus4", seq![0i32, 3i32, 4i32], seq![0i32, 5i32, 7i32], "Suspended 4th"),
        ("4th", seq![0i32, 3i32, 6i32], seq![0i32, 5i32, 10i32], "Quartal triad"),
    ]
}

/// Suffix, letter steps, intervals and description of each named four-note chord.
pub open spec fn chord4_table() -> Seq<(&'static str, Seq<i32>, Seq<i32>, &'static str)> {
    seq![
        ("M7", seq![0i32, 2i32, 4i32, 6i32], seq![0i32, 4i32, 7i32, 11i32], "Major 7th"),
        ("7", seq![0i32, 2i32, 4i32, 6i32], seq![0i32, 4i32, 7i32, 10i32], "Dominant 7th"),
        ("m7", seq![0i32, 2i32, 4i32, 6i32], seq![0i32, 3i32, 7i32, 10i32], "Minor 7th"),
        ("mM7", seq![0i32, 2i32, 4i32, 6i32], seq![0i32, 3i32, 7i32, 11i32], "Minor-major 7th"),
        ("m7b5", seq![0i32, 2i32, 4i32, 6i32], seq![0i32, 3i32, 6i32, 10i32], "Half-diminished 7th"),
        ("dim7", seq![0i32, 2i32, 4i32, 5i32], seq![0i32, 3i32, 6i32, 9i32], "Diminished 7th"),
        ("6", seq![0i32, 2i32, 4i32, 5i32], seq![0i32, 4i32, 7i32, 9i32], "Major 6th"),
        ("add9", seq![0i32, 2i32, 4i32, 1i32], seq![0i32, 4i32, 7i32, 2i32], "Major add9"),
        ("4th", seq![0i32, 3i32, 6i32, 2i32], seq![0i32, 5i32, 10i32, 3i32], "Quartal 7th"),
    ]
}

/// Whether `s` begins with `p`.
pub open spec fn starts_with(s: Seq<char>, p: Seq<char>) -> bool {
    s.len() >= p.len() && s.subrange(0, p.len() as int) == p
}

/// The triad a chord symbol's quality names, as `(letter step,
/// semitones)` per tone, with the rest of the symbol and whether the
/// quality is diminished.
pub open spec fn symbol_quality(s: Seq<char>) -> (Seq<(int, int)>, Seq<char>, bool) {
    if starts_with(s, seq!['d', 'i', 'm']) {
        (seq![(0int, 0int), (2int, 3int), (4int, 6int)], s.skip(3), true)
    } else if starts_with(s, seq!['a', 'u', 'g']) {
        (seq![(0int, 0int), (2int, 4int), (4int, 8int)], s.skip(3), false)
    } else if starts_with(s, seq!['s', 'u', 's', '2']) {
        (seq![(0int, 0int), (1int, 2int), (4int, 7int)], s.skip(4), false)
    } else if starts_with(s, seq!['s', 'u', 's', '4']) {
        (seq![(0int, 0int), (3int, 5int), (4int, 7int)], s.skip(4), false)
    } else if starts_with(s, seq!['m']) {
        (seq![(0int, 0int), (2int, 3int), (4int, 7int)], s.skip(1), false)
    } else {
        (seq![(0int, 0int), (2int, 4int), (4int, 7int)], s, false)
    }
}

/// The tones, as `(letter step, semitones)` above the root, that the
/// chord symbol suffix `s` denotes when spelled with `n` notes: a quality
/// (major, `m`, `dim`, `aug`, `sus2`, `sus4`) then an extension (`7`, a
/// minor seventh, or a diminished one after `dim`, spelled on the sixth
/// letter; `M7`; `6`; `add9`; `7b5`, a minor seventh over a lowered
/// fifth); or `4th`, `n` stacked perfect fourths.
pub open spec fn chord_symbol_tones(s: Seq<char>, n: int) -> Option<Seq<(int, int)>> {
    if s == seq!['4', 't', 'h'] {
        Some(Seq::new(n as nat, |k: int| ((3 * k) % 7, (5 * k) % 12)))
    } else {
        let (triad, rest, diminished) = symbol_quality(s);
        if rest.len() == 0 {
            Some(triad)
        } else if rest == seq!['7'] {
            Some(triad.push(if diminished { (5int, 9int) } else { (6int, 10int) }))
        } else if rest == seq!['M', '7'] {
            Some(triad.push((6int, 11int)))
        } else if rest == seq!['6'] {
            Some(triad.push((5int, 9int)))
        } else if rest == seq!['a', 'd', 'd', '9'] {
            Some(triad.push((1int, 2int)))
        } else if rest == seq!['7', 'b', '5'] {
            Some(triad.update(2, (triad[2].0, triad[2].1 - 1)).push((6int, 10int)))
        } else {
            None
        }
    }
}

/// A table row's tones as `(letter step, semitones)` pairs.
pub open spec fn row_tones(steps: Seq<i32>, intervals: Seq<i32>) -> Seq<(int, int)> {
    Seq::new(steps.len(), |k: int| (steps[k] as int, intervals[k] as int))
}

/// Each named chord is the chord its suffix denotes: the letter steps and
/// semitone intervals of every row of the triad and four-note tables are
/// those that [`chord_symbol_tones`] reads from its name.
pub proof fn law_chord_rows_match_their_names(i: int)
    requires
        0 <= i < 9,
    ensures
        i < 7 ==> chord_symbol_tones(chord3_table()[i].0@, 3) == Some(row_tones(chord3_table()[i].1, chord3_table()[i].2)),
        chord_symbol_tones(chord4_table()[i].0@, 4) == Some(row_tones(chord4_table()[i].1, chord4_table()[i].2)),
{
    reveal_strlit("");
    reveal_strlit("m");
    reveal_strlit("dim");
    reveal_strlit("aug");
    reveal_strlit("sus2");
    reveal_strlit("sus4");
    reveal_strlit("4th");
    reveal_strlit("M7");
    reveal_strlit("7");
    reveal_strlit("m7");
    reveal_strlit("mM7");
    reveal_strlit("m7b5");
    reveal_strlit("dim7");
    reveal_strlit("6");
    reveal_strlit("add9");
    if i == 0 {
        let s = chord3_table()[0].0@;
        assert(s =~= Seq::<char>::empty());
        assert(chord_symbol_tones(s, 3).unwrap() =~= row_tones(chord3_table()[0].1, chord3_table()[0].2));
    }
    if i == 1 {
        let s = chord3_table()[1].0@;
        assert(s =~= seq!['m']);
        assert(s.subrange(0, 1) =~= seq!['m']);
        assert(s.skip(1) =~= Seq::<char>::empty());
        assert(chord_symbol_tones(s, 3).unwrap() =~= row_tones(chord3_table()[1].1, chord3_table()[1].2));
    }
    if i == 2 {
        let s = chord3_table()[2].0@;
        assert(s =~= seq!['d', 'i', 'm']);
        assert(s.subrange(0, 3) =~= seq!['d', 'i', 'm']);
        assert(s.skip(3) =~= Seq::<char>::empty());
        assert(chord_symbol_tones(s, 3).unwrap() =~= row_tones(chord3_table()[2].1, chord3_table()[2].2));
    }
    if i == 3 {
        let s = chord3_table()[3].0@;
        assert(s =~= seq!['a', 'u', 'g']);
        assert(s.subrange(0, 3) =~= seq!['a', 'u', 'g']);
        assert(s.skip(3) =~= Seq::<char>::empty());
        assert(s.subrange(0, 3) != seq!['d', 'i', 'm']) by { assert(s.subrange(0, 3)[0] != seq!['d', 'i', 'm'][0]); }
        assert(chord_symbol_tones(s, 3).unwrap() =~= row_tones(chord3_table()[3].1, chord3_table()[3].2));
    }
    if i == 4 {
        let s = chord3_table()[4].0@;
        assert(s =~= seq!['s', 'u', 's', '2']);
        assert(s.subrange(0, 4) =~= seq!['s', 'u', 's', '2']);
        assert(s.skip(4) =~= Seq::<char>::empty());
        assert(s.subrange(0, 3) != seq!['d', 'i', 'm']) by { assert(s.subrange(0, 3)[0] != seq!['d', 'i', 'm'][0]); }
        assert(s.subrange(0, 3) != seq!['a', 'u', 'g']) by { assert(s.subrange(0, 3)[0] != seq!['a', 'u', 'g'][0]); }
        assert(chord_symbol_tones(s, 3).unwrap() =~= row_tones(chord3_table()[4].1, chord3_table()[4].2));
    }
    if i == 5 {
        let s = chord3_table()[5].0@;
        assert(s =~= seq!['s', 'u', 's', '4']);
        assert(s.subrange(0, 4) =~= seq!['s', 'u', 's', '4']);
        assert(s.skip(4) =~= Seq::<char>::empty());
        assert(s.subrange(0, 3) != seq!['d', 'i', 'm']) by { assert(s.subrange(0, 3)[0] != seq!['d', 'i', 'm'][0]); }
        assert(s.subrange(0, 3) != seq!['a', 'u', 'g']) by { assert(s.subrange(0, 3)[0] != seq!['a', 'u', 'g'][0]); }
        assert(s.subrange(0, 4) != seq!['s', 'u', 's', '2']) by { assert(s.subrange(0, 4)[3] != seq!['s', 'u', 's', '2'][3]); }
        assert(chord_symbol_tones(s, 3).unwrap() =~= row_tones(chord3_table()[5].1, chord3_table()[5].2));
    }
    if i == 6 {
        let s = chord3_table()[6].0@;
        assert(s =~= seq!['4', 't', 'h']);
        assert(chord_symbol_tones(s, 3).unwrap() =~= row_tones(chord3_table()[6].1, chord3_table()[6].2));
    }
    if i == 0 {
        let s = chord4_table()[0].0@;
        assert(s =~= seq!['M', '7']);
        assert(s.subrange(0, 1) != seq!['m']) by { assert(s.subrange(0, 1)[0] != seq!['m'][0]); }
        assert(chord_symbol_tones(s, 4).unwrap() =~= row_tones(chord4_table()[0].1, chord4_table()[0].2));
    }
    if i == 1 {
        let s = chord4_table()[1].0@;
        assert(s =~= seq!['7']);
        assert(s.subrange(0, 1) != seq!['m']) by { assert(s.subrange(0, 1)[0] != seq!['m'][0]); }
        assert(chord_symbol_tones(s, 4).unwrap() =~= row_tones(chord4_table()[1].1, chord4_table()[1].2));
    }
    if i == 2 {
        let s = chord4_table()[2].0@;
        assert(s =~= seq!['m', '7']);
        assert(s.subrange(0, 1) =~= seq!['m']);
        assert(s.skip(1) =~= seq!['7']);
        assert(chord_symbol_tones(s, 4).unwrap() =~= row_tones(chord4_table()[2].1, chord4_table()[2].2));
    }
    if i == 3 {
        let s = chord4_table()[3].0@;
        assert(s =~= seq!['m', 'M', '7']);
        assert(s.subrange(0, 1) =~= seq!['m']);
        assert(s.skip(1) =~= seq!['M', '7']);
        assert(s.subrange(0, 3) != seq!['d', 'i', 'm']) by { assert(s.subrange(0, 3)[0] != seq!['d', 'i', 'm'][0]); }
        assert(s.subrange(0, 3) != seq!['a', 'u', 'g']) by { assert(s.subrange(0, 3)[0] != seq!['a', 'u', 'g'][0]); }
        assert(chord_symbol_tones(s, 4).unwrap() =~= row_tones(chord4_table()[3].1, chord4_table()[3].2));
    }
    if i == 4 {
        let s = chord4_table()[4].0@;
        assert(s =~= seq!['m', '7', 'b', '5']);
        assert(s.subrange(0, 1) =~= seq!['m']);
        assert(s.skip(1) =~= seq!['7', 'b', '5']);
        assert(s.subrange(0, 3) != seq!['d', 'i', 'm']) by { assert(s.subrange(0, 3)[0] != seq!['d', 'i', 'm'][0]); }
        assert(s.subrange(0, 3) != seq!['a', 'u', 'g']) by { assert(s.subrange(0, 3)[0] != seq!['a', 'u', 'g'][0]); }
        assert(s.subrange(0, 4) != seq!['s', 'u', 's', '2']) by { assert(s.subrange(0, 4)[0] != seq!['s', 'u', 's', '2'][0]); }
        assert(s.subrange(0, 4) != seq!['s', 'u', 's', '4']) by { assert(s.subrange(0, 4)[0] != seq!['s', 'u', 's', '4'][0]); }
        assert(chord_symbol_tones(s, 4).unwrap() =~= row_tones(chord4_table()[4].1, chord4_table()[4].2));
    }
    if i == 5 {
        let s = chord4_table()[5].0@;
        assert(s =~= seq!['d', 'i', 'm', '7']);
        assert(s.subrange(0, 3) =~= seq!['d', 'i', 'm']);
        assert(s.skip(3) =~= seq!['7']);
        assert(chord_symbol_tones(s, 4).unwrap() =~= row_tones(chord4_table()[5].1, chord4_table()[5].2));
    }
    if i == 6 {
        let s = chord4_table()[6].0@;
        assert(s =~= seq!['6']);
        assert(s.subrange(0, 1) != seq!['m']) by { assert(s.subrange(0, 1)[0] != seq!['m'][0]); }
        assert(s != seq!['7']) by { assert(s[0] != seq!['7'][0]); }
        assert(chord_symbol_tones(s, 4).unwrap() =~= row_tones(chord4_table()[6].1, chord4_table()[6].2));
    }
    if i == 7 {
        let s = chord4_table()[7].0@;
        assert(s =~= seq!['a', 'd', 'd', '9']);
        assert(s.subrange(0, 3) != seq!['d', 'i', 'm']) by { assert(s.subrange(0, 3)[0] != seq!['d', 'i', 'm'][0]); }
        assert(s.subrange(0, 3) != seq!['a', 'u', 'g']) by { assert(s.subrange(0, 3)[1] != seq!['a', 'u', 'g'][1]); }
        assert(s.subrange(0, 4) != seq!['s', 'u', 's', '2']) by { assert(s.subrange(0, 4)[0] != seq!['s', 'u', 's', '2'][0]); }
        assert(s.subrange(0, 4) != seq!['s', 'u', 's', '4']) by { assert(s.subrange(0, 4)[0] != seq!['s', 'u', 's', '4'][0]); }
        assert(s.subrange(0, 1) != seq!['m']) by { assert(s.subrange(0, 1)[0] != seq!['m'][0]); }
        assert(chord_symbol_tones(s, 4).unwrap() =~= row_tones(chord4_table()[7].1, chord4_table()[7].2));
    }
    if i == 8 {
        let s = chord4_table()[8].0@;
        assert(s =~= seq!['4', 't', 'h']);
        assert(chord_symbol_tones(s, 4).unwrap() =~= row_tones(chord4_table()[8].1, chord4_table()[8].2));
    }
}

/// No two named four-note chords spelled on the same letter steps sound
/// the same intervals.
pub proof fn law_four_note_rows_distinct(i: int, j: int)
    requires
        0 <= i < 9,
        0 <= j < 9,
        i != j,
        chord4_table()[i].1 == chord4_table()[j].1,
    ensures
        chord4_table()[i].2 != chord4_table()[j].2,
{
    let a = chord4_table()[i].2;
    let b = chord4_table()[j].2;
    assert(a.len() == 4 && b.len() == 4);
    assert(a[1] != b[1] || a[2] != b[2] || a[3] != b[3]);
}

/// `d` is the table row `e`.
pub open spec fn def_matches(d: ChordDef, e: (&'static str, Seq<i32>, Seq<i32>, &'static str)) -> bool {
    d.suffix == e.0 && d.letter_steps@ == e.1 && d.intervals@ == e.2 && d.detail == e.3
}

/// The named triads.
pub fn chords_3() -> (r: Vec<ChordDef>)
    ensures
        r@.len() == 7,
        forall|i: int| 0 <= i < r@.len() ==> table_shaped(#[trigger] r@[i]) && r@[i].letter_steps@.len() == 3,
        forall|i: int| 0 <= i < r@.len() ==> def_matches(#[trigger] r@[i], chord3_table()[i]),
{
    let v = vec![
        def("", vec![0, 2, 4], vec![0, 4, 7], "Major triad"),
        def("m", vec![0, 2, 4], vec![0, 3, 7], "Minor triad"),
        def("dim", vec![0, 2, 4], vec![0, 3, 6], "Diminished triad"),
        def("aug", vec![0, 2, 4], vec![0, 4, 8], "Augmented triad"),
        def("sus2", vec![0, 1, 4], vec![0, 2, 7], "Suspended 2nd"),
        def("sus4", vec![0, 3, 4], vec![0, 5, 7], "Suspended 4th"),
        def("4th", vec![0, 3, 6], vec![0, 5, 10], "Quartal triad"),
    ];
    v
}

/// The named four-note chords. `dim7`'s fourth tone is spelled on the `a`
/// letter (its `bbb` spelling cannot be written).
pub fn chords_4() -> (r: Vec<ChordDef>)
    ensures
        r@.len() == 9,
        forall|i: int| 0 <= i < r@.len() ==> table_shaped(#[trigger] r@[i]) && r@[i].letter_steps@.len() == 4,
        forall|i: int| 0 <= i < r@.len() ==> def_matches(#[trigger] r@[i], chord4_table()[i]),
{
    let v = vec![
        def("M7", vec![0, 2, 4, 6], vec![0, 4, 7, 11], "Major 7th"),
        def("7", vec![0, 2, 4, 6], vec![0, 4, 7, 10], "Dominant 7th"),
        def("m7", vec![0, 2, 4, 6], vec![0, 3, 7, 10], "Minor 7th"),
        def("mM7", vec![0, 2, 4, 6], vec![0, 3, 7, 11], "Minor-major 7th"),
        def("m7b5", vec![0, 2, 4, 6], vec![0, 3, 6, 10], "Half-diminished 7th"),
        def("dim7", vec![0, 2, 4, 5], vec![0, 3, 6, 9], "Diminished 7th"),
        def("6", vec![0, 2, 4, 5], vec![0, 4, 7, 9], "Major 6th"),
        def("add9", vec![0, 2, 4, 1], vec![0, 4, 7, 2], "Major add9"),
        def("4th", vec![0, 3, 6, 2], vec![0, 5, 10, 3], "Quartal 7th"),
    ];
    v
}

/// The seven natural letters in pitch order from `c`.
pub open spec fn letter_at(i: int) -> char {
    if i == 0 { 'c' } else if i == 1 { 'd' } else if i == 2 { 'e' } else if i == 3 { 'f' }
    else if i == 4 { 'g' } else if i == 5 { 'a' } else { 'b' }
}

/// The seven natural letters in pitch order from `c`.
pub fn chord_letters() -> (r: [char; 7])
    ensures
        forall|i: int| 0 <= i < 7 ==> r@[i] == letter_at(i),
{
    ['c', 'd', 'e', 'f', 'g', 'a', 'b']
}

/// Semitones above `c` of a natural letter.
pub open spec fn natural_sem(letter: char) -> Option<int> {
    if letter == 'c' { Some(0) } else if letter == 'd' { Some(2) } else if letter == 'e' { Some(4) }
    else if letter == 'f' { Some(5) } else if letter == 'g' { Some(7) } else if letter == 'a' { Some(9) }
    else if letter == 'b' { Some(11) } else { None }
}

/// Semitones above `c` for each natural letter.
pub fn chord_natural_semitones(letter: char) -> (r: Option<i32>)
    ensures
        match natural_sem(letter) {
            Some(v) => r == Some(v as i32),
            None => r is None,
        },
{
    match letter {
        'c' => Some(0),
        'd' => Some(2),
        'e' => Some(4),
        'f' => Some(5),
        'g' => Some(7),
        'a' => Some(9),
        'b' => Some(11),
        _ => None,
    }
}

/// Index of `letter` among the naturals, with `h` read as `b`.
pub open spec fn spec_root_index(letter: char) -> Option<int> {
    let e = if letter == 'h' { 'b' } else { letter };
    if e == 'c' { Some(0) } else if e == 'd' { Some(1) } else if e == 'e' { Some(2) }
    else if e == 'f' { Some(3) } else if e == 'g' { Some(4) } else if e == 'a' { Some(5) }
    else if e == 'b' { Some(6) } else { None }
}

fn root_index(root_letter_lower: char) -> (r: Option<usize>)
    ensures
        match spec_root_index(root_letter_lower) {
            Some(i) => r == Some(i as usize),
            None => r is None,
        },
{
    let e = if root_letter_lower == 'h' { 'b' } else { root_letter_lower };
    match e {
        'c' => Some(0),
        'd' => Some(1),
        'e' => Some(2),
        'f' => Some(3),
        'g' => Some(4),
        'a' => Some(5),
        'b' => Some(6),
        _ => None,
    }
}

pub(crate) proof fn lemma_letter_sem(i: int)
    requires
        0 <= i < 7,
    ensures
        natural_sem(letter_at(i)) is Some,
        0 <= natural_sem(letter_at(i))->0 <= 11,
        spec_root_index(letter_at(i)) == Some(i),
{
}

/// `parts` joined with `/`.
pub open spec fn join_slash(parts: Seq<Seq<char>>) -> Seq<char>
    decreases parts.len(),
{
    if parts.len() == 0 {
        Seq::empty()
    } else if parts.len() == 1 {
        parts[0]
    } else {
        join_slash(parts.drop_last()) + seq!['/'] + parts.last()
    }
}

/// Joins `parts` with `/`.
fn join_parts(parts: &Vec<String>) -> (r: String)
    ensures
        r@ == join_slash(parts@.map_values(|s: String| s@)),
{
    let ghost pv = parts@.map_values(|s: String| s@);
    let mut out = String::new();
    let mut k: usize = 0;
    while k < parts.len()
        invariant
            pv == parts@.map_values(|s: String| s@),
            k <= parts@.len(),
            out@ == join_slash(pv.subrange(0, k as int)),
        decreases parts@.len() - k,
    {
        let ghost before = out@;
        if k > 0 {
            out.push('/');
        }
        crate::strings::push_string(&mut out, &parts[k]);
        proof {
            let sub = pv.subrange(0, k + 1);
            assert(sub.drop_last() =~= pv.subrange(0, k as int));
            assert(sub.last() == parts@[k as int]@);
            if k == 0 {
                assert(out@ =~= sub[0]);
            } else {
                assert(out@ =~= before + seq!['/'] + sub.last());
            }
        }
        k += 1;
    }
    assert(pv.subrange(0, parts@.len() as int) =~= pv);
    out
}

/// The rendered part for a generic chord tone at step `s`.
pub open spec fn generic_part(root_idx: int, k: int, s: int, acc: Option<RootAccidental>) -> Seq<char> {
    let letter = letter_at((root_idx + s) % 7);
    if k == 0 { seq![letter] + acc_chars(acc) } else { seq![letter] }
}

/// Generic diatonic chord: letters stacked by thirds (every other
/// letter) with no accidentals, except a typed root accidental kept on
/// the root. `None` for unknown root letters.
pub open spec fn spec_generic_chord(root: char, acc: Option<RootAccidental>, size: ChordSize) -> Option<Seq<char>> {
    match spec_root_index(root) {
        None => None,
        Some(ri) => {
            let steps = size_steps(size);
            Some(join_slash(Seq::new(steps.len(), |k: int| generic_part(ri, k, steps[k], acc))))
        },
    }
}

/// Generic diatonic chord (see [`spec_generic_chord`]).
pub fn render_generic_chord(
    root_letter_lower: char,
    root_accidental: Option<RootAccidental>,
    size: ChordSize,
) -> (r: Option<String>)
    ensures
        match spec_generic_chord(root_letter_lower, root_accidental, size) {
            None => r is None,
            Some(t) => r matches Some(s) && s@ == t,
        },
{
    let root_idx = match root_index(root_letter_lower) {
        Some(i) => i,
        None => {
            return None;
        },
    };
    let letters = chord_letters();
    let steps = size.steps();
    let ghost sv = size_steps(size);
    let ghost want = Seq::new(sv.len(), |k: int| generic_part(root_idx as int, k, sv[k], root_accidental));
    let mut parts: Vec<String> = Vec::new();
    let mut i: usize = 0;
    while i < steps.len()
        invariant
            root_idx < 7,
            steps@.len() == sv.len(),
            forall|m: int| 0 <= m < steps@.len() ==> steps@[m] as int == sv[m],
            forall|m: int| 0 <= m < sv.len() ==> 0 <= #[trigger] sv[m] <= 6,
            forall|m: int| 0 <= m < 7 ==> letters@[m] == letter_at(m),
            want == Seq::new(sv.len(), |k: int| generic_part(root_idx as int, k, sv[k], root_accidental)),
            i <= steps@.len(),
            parts@.len() == i,
            forall|m: int| 0 <= m < i ==> #[trigger] parts@[m]@ == want[m],
        decreases steps@.len() - i,
    {
        let s = steps[i];
        assert(0 <= sv[i as int] <= 6);
        let letter = letters[(root_idx + s as usize) % 7];
        let mut p = String::new();
        p.push(letter);
        if i == 0 {
            push_accidental(&mut p, root_accidental);
        }
        assert(p@ =~= want[i as int]);
        parts.push(p);
        i += 1;
    }
    assert(parts@.map_values(|s: String| s@) =~= want);
    Some(join_parts(&parts))
}


/// Accidental offset folded into `-6..=6` (one octave wrap each way).
pub open spec fn wrap_acc(a: int) -> int {
    let a1 = if a > 6 { a - 12 } else { a };
    if a1 < -6 { a1 + 12 } else { a1 }
}

/// Glyph for a non-root tone: nothing when its accidental matches the
/// key signature, otherwise `=`, `+` or `-`.
pub open spec fn non_root_glyph(acc: int, letter: char, ks: Seq<Option<i8>>) -> Seq<char> {
    if acc == sig_get_or_zero(ks, letter) as int {
        Seq::empty()
    } else if acc == 0 {
        seq!['=']
    } else if acc > 0 {
        seq!['+']
    } else {
        seq!['-']
    }
}

fn push_non_root_glyph(s: &mut String, acc: i32, letter: char, key_sig: &KeySig)
    ensures
        final(s)@ == old(s)@ + non_root_glyph(acc as int, letter, key_sig@),
{
    if acc == key_sig.get_or_zero(letter) as i32 {
    } else if acc == 0 {
        s.push('=');
    } else if acc > 0 {
        s.push('+');
    } else {
        s.push('-');
    }
    assert(final(s)@ =~= old(s)@ + non_root_glyph(acc as int, letter, key_sig@));
}

/// Root pitch class after the typed accidental, or the key signature's
/// accidental for the (effective) root letter.
pub open spec fn root_adjusted(ri: int, acc: Option<RootAccidental>, ks: Seq<Option<i8>>) -> int {
    let letter = letter_at(ri);
    natural_sem(letter)->0 + match acc {
        Some(a) => root_acc_value(a),
        None => sig_get_or_zero(ks, letter) as int,
    }
}

fn root_state(
    root_letter_lower: char,
    root_accidental: Option<RootAccidental>,
    key_sig: &KeySig,
) -> (r: Option<(usize, i32)>)
    ensures
        match spec_root_index(root_letter_lower) {
            Some(ri) => r == Some((ri as usize, root_adjusted(ri, root_accidental, key_sig@) as i32)),
            None => r is None,
        },
{
    let root_idx = match root_index(root_letter_lower) {
        Some(i) => i,
        None => {
            return None;
        },
    };
    let letters = chord_letters();
    let effective_root = letters[root_idx];
    proof {
        lemma_letter_sem(root_idx as int);
    }
    let root_sem = match chord_natural_semitones(effective_root) {
        Some(v) => v,
        None => {
            return None;
        },
    };
    let root_acc = match root_accidental {
        Some(a) => a.as_i32(),
        None => key_sig.get_or_zero(effective_root) as i32,
    };
    Some((root_idx, root_sem + root_acc))
}

/// Letter index of the tone `step` letters above root index `ri`
/// (`step` reinterpreted as `usize`, then reduced modulo 7).
pub open spec fn tone_letter_index(ri: int, step: i32) -> int {
    (ri + (step as usize)) % 7
}

/// A named chord's tables can be walked from root index `ri` without
/// overflow or out-of-range indexing.
pub open spec fn named_chord_ok(d: ChordDef, ri: int, adj: int) -> bool {
    d.letter_steps@.len() <= d.intervals@.len()
        && forall|k: int| 0 <= k < d.letter_steps@.len() ==> {
            let li = tone_letter_index(ri, #[trigger] d.letter_steps@[k]);
            &&& ri + (d.letter_steps@[k] as usize) <= usize::MAX
            &&& i32::MIN <= adj + d.intervals@[k] <= i32::MAX
            &&& i32::MIN <= adj + d.intervals@[k] - natural_sem(letter_at(li))->0 <= i32::MAX
        }
}

/// Accidental of tone `k` of a named chord, relative to its letter.
pub open spec fn named_tone_acc(d: ChordDef, ri: int, adj: int, k: int) -> int {
    let letter = letter_at(tone_letter_index(ri, d.letter_steps@[k]));
    wrap_acc(adj + d.intervals@[k] - natural_sem(letter)->0)
}

/// Letter and accidental of the tone on letter index `li` with accidental
/// `acc`, respelled to at most one accidental.
pub open spec fn spelled_on(li: int, acc: int) -> (char, int) {
    let t = respell(li, acc, 0);
    (letter_at(t.0), t.1)
}

/// Tone `k` of a named chord as written: its letter and accidental,
/// respelled where the accidental is a double (or larger) one.
pub open spec fn named_tone(d: ChordDef, ri: int, adj: int, k: int) -> (char, int) {
    spelled_on(tone_letter_index(ri, d.letter_steps@[k]), named_tone_acc(d, ri, adj, k))
}

/// Rendered text of tone `k` of a named chord.
pub open spec fn named_part(d: ChordDef, ri: int, adj: int, k: int, acc: Option<RootAccidental>, ks: Seq<Option<i8>>) -> Seq<char> {
    if k == 0 && acc is Some {
        seq![letter_at(tone_letter_index(ri, d.letter_steps@[k]))] + acc_chars(acc)
    } else {
        let t = named_tone(d, ri, adj, k);
        seq![t.0] + non_root_glyph(t.1, t.0, ks)
    }
}

/// A named chord rendered as a branch expression: every tone is the root
/// pitch (typed accidental or key signature) plus its interval, spelled
/// on its letter; non-root tones carry an accidental only where it
/// differs from the key signature.
pub open spec fn spec_render_chord(root: char, acc: Option<RootAccidental>, d: ChordDef, ks: Seq<Option<i8>>) -> Option<Seq<char>> {
    match spec_root_index(root) {
        None => None,
        Some(ri) => {
            let adj = root_adjusted(ri, acc, ks);
            Some(join_slash(Seq::new(d.letter_steps@.len(), |k: int| named_part(d, ri, adj, k, acc, ks))))
        },
    }
}

/// The accidental a reader gives a written tone under key signature
/// `ks`: the signature's where no glyph is written, else the glyph's.
pub open spec fn glyph_accidental(glyph: Seq<char>, letter: char, ks: Seq<Option<i8>>) -> int {
    if glyph.len() == 0 {
        sig_get_or_zero(ks, letter) as int
    } else if glyph[0] == '+' {
        1
    } else if glyph[0] == '-' {
        -1
    } else {
        0
    }
}

/// Each tone of a rendered named chord sounds its interval above the
/// root: its letter with the accidental a reader takes from the written
/// glyph (or, where none is written, from the key signature) is
/// `adj + interval` modulo the octave, with at most one sharp or flat.
pub proof fn law_named_tones_sound_their_intervals(d: ChordDef, ri: int, adj: int, k: int, ks: Seq<Option<i8>>)
    requires
        0 <= ri < 7,
        0 <= k < d.letter_steps@.len(),
        k < d.intervals@.len(),
    ensures
        -1 <= named_tone(d, ri, adj, k).1 <= 1,
        glyph_accidental(non_root_glyph(named_tone(d, ri, adj, k).1, named_tone(d, ri, adj, k).0, ks), named_tone(d, ri, adj, k).0, ks)
            == named_tone(d, ri, adj, k).1,
        (natural_sem(named_tone(d, ri, adj, k).0)->0 + named_tone(d, ri, adj, k).1 - adj - d.intervals@[k]) % 12 == 0,
{
    let li = tone_letter_index(ri, d.letter_steps@[k]);
    assert(0 <= li < 7);
    lemma_letter_sem(li);
    let raw = adj + d.intervals@[k] - natural_sem(letter_at(li))->0;
    let a = wrap_acc(raw);
    lemma_respell(li, a, 0);
    let t = respell(li, a, 0);
    lemma_letter_sem(t.0);
    let wrapped: int = if raw > 6 { -1 } else { 0 };
    let w2: int = if raw + 12 * wrapped < -6 { 1 } else { 0 };
    assert(a == raw + 12 * (wrapped + w2));
    let m = natural_sem(letter_at(t.0))->0 + t.1 - adj - d.intervals@[k];
    assert(m == 12 * (wrapped + w2 - t.2));
    vstd::arithmetic::div_mod::lemma_mod_multiples_basic(wrapped + w2 - t.2, 12);
}

/// Inputs on which a named chord renders without overflow.
pub open spec fn render_chord_ok(root: char, acc: Option<RootAccidental>, d: ChordDef, ks: Seq<Option<i8>>) -> bool {
    match spec_root_index(root) {
        None => true,
        Some(ri) => named_chord_ok(d, ri, root_adjusted(ri, acc, ks)),
    }
}

/// A chord of the built-in shape renders without overflow from any root,
/// typed accidental and key signature.
pub proof fn lemma_table_chord_ok(root: char, acc: Option<RootAccidental>, d: ChordDef, ks: Seq<Option<i8>>)
    requires
        table_shaped(d),
        d.letter_steps@.len() <= 4,
    ensures
        render_chord_ok(root, acc, d, ks),
{
    match spec_root_index(root) {
        None => {},
        Some(ri) => {
            assert(0 <= ri < 7);
            lemma_letter_sem(ri);
            assert(-128 <= sig_get_or_zero(ks, letter_at(ri)) <= 127);
            let adj = root_adjusted(ri, acc, ks);
            assert forall|k: int| 0 <= k < d.letter_steps@.len() implies {
                let li = tone_letter_index(ri, #[trigger] d.letter_steps@[k]);
                &&& ri + (d.letter_steps@[k] as usize) <= usize::MAX
                &&& i32::MIN <= adj + d.intervals@[k] <= i32::MAX
                &&& i32::MIN <= adj + d.intervals@[k] - natural_sem(letter_at(li))->0 <= i32::MAX
            } by {
                let li = tone_letter_index(ri, d.letter_steps@[k]);
                assert(0 <= d.letter_steps@[k] <= 6);
                assert(0 <= d.intervals@[k] <= 11);
                assert(0 <= li < 7);
                lemma_letter_sem(li);
            }
        },
    }
}

fn spell_on(letter_idx: usize, letter: char, acc: i32) -> (r: (char, i32))
    requires
        letter_idx < 7,
        letter == letter_at(letter_idx as int),
    ensures
        r.0 == spelled_on(letter_idx as int, acc as int).0,
        r.1 as int == spelled_on(letter_idx as int, acc as int).1,
        -1 <= r.1 <= 1,
{
    proof {
        lemma_letter_sem(letter_idx as int);
        lemma_respell(letter_idx as int, acc as int, 0);
    }
    match spell_tone(letter, acc, 0) {
        Some(t) => (t.letter, t.accidental),
        None => (letter, acc),
    }
}

/// Render a named chord as a ctrmml branch expression (e.g. `c/e-/g`).
pub fn render_chord(
    root_letter_lower: char,
    root_accidental: Option<RootAccidental>,
    def: &ChordDef,
    key_sig: &KeySig,
) -> (r: Option<String>)
    requires
        render_chord_ok(root_letter_lower, root_accidental, *def, key_sig@),
    ensures
        match spec_render_chord(root_letter_lower, root_accidental, *def, key_sig@) {
            None => r is None,
            Some(t) => r matches Some(s) && s@ == t,
        },
{
    let (root_idx, root_adjusted_sem) = match root_state(root_letter_lower, root_accidental, key_sig) {
        Some(p) => p,
        None => {
            return None;
        },
    };
    let letters = chord_letters();
    let ghost ri = root_idx as int;
    let ghost adj = root_adjusted_sem as int;
    let ghost want = Seq::new(def.letter_steps@.len(), |k: int| named_part(*def, ri, adj, k, root_accidental, key_sig@));
    let mut parts: Vec<String> = Vec::new();
    let mut k: usize = 0;
    while k < def.letter_steps.len()
        invariant
            ri == root_idx,
            root_idx < 7,
            adj == root_adjusted_sem,
            named_chord_ok(*def, ri, adj),
            forall|m: int| 0 <= m < 7 ==> letters@[m] == letter_at(m),
            want == Seq::new(def.letter_steps@.len(), |k: int| named_part(*def, ri, adj, k, root_accidental, key_sig@)),
            k <= def.letter_steps@.len(),
            parts@.len() == k,
            forall|m: int| 0 <= m < k ==> #[trigger] parts@[m]@ == want[m],
        decreases def.letter_steps@.len() - k,
    {
        let step = def.letter_steps[k];
        assert(ri + (def.letter_steps@[k as int] as usize) <= usize::MAX);
        let letter_idx = (root_idx + step as usize) % 7;
        let letter = letters[letter_idx];
        proof {
            lemma_letter_sem(letter_idx as int);
        }
        let letter_sem = match chord_natural_semitones(letter) {
            Some(v) => v,
            None => {
                return None;
            },
        };
        let mut acc = root_adjusted_sem + def.intervals[k] - letter_sem;
        if acc > 6 {
            acc -= 12;
        }
        if acc < -6 {
            acc += 12;
        }
        let mut note_text = String::new();
        if k == 0 && root_accidental.is_some() {
            note_text.push(letter);
            push_accidental(&mut note_text, root_accidental);
        } else {
            let (spelled_letter, spelled_acc) = spell_on(letter_idx, letter, acc);
            note_text.push(spelled_letter);
            push_non_root_glyph(&mut note_text, spelled_acc, spelled_letter, key_sig);
        }
        assert(note_text@ =~= want[k as int]);
        parts.push(note_text);
        k += 1;
    }
    assert(parts@.map_values(|s: String| s@) =~= want);
    Some(join_parts(&parts))
}


/// Semitones of a natural letter, `0` for anything else.
pub open spec fn sem_or_zero(letter: char) -> int {
    match natural_sem(letter) {
        Some(v) => v,
        None => 0,
    }
}

/// The lowest octave `o` (from the given start, raised one at a time)
/// whose tone pitch `p` is not below `prev`.
pub open spec fn lift_above(o: int, p: int, prev: int) -> (int, int)
    decreases (if p < prev { prev - p } else { 0 }),
{
    if p < prev { lift_above(o + 1, p + 12, prev) } else { (o, p) }
}

/// `n` copies of `c`.
pub open spec fn repeat_char(c: char, n: int) -> Seq<char> {
    Seq::new(if n < 0 { 0 } else { n as nat }, |i: int| c)
}

/// Octave shift prefix: `>` per octave up, `<` per octave down.
pub open spec fn shift_prefix(shift: int) -> Seq<char> {
    if shift > 0 { repeat_char('>', shift) } else { repeat_char('<', -shift) }
}

/// Channel octaves padded to `n` entries by repeating the last (or 6).
pub open spec fn padded_channels(chans: Seq<i32>, n: int) -> Seq<int> {
    let len = if chans.len() < n { n } else { chans.len() as int };
    Seq::new(len as nat, |i: int| if i < chans.len() { chans[i] as int } else if chans.len() > 0 { chans.last() as int } else { 6 })
}

/// State after stacking the first `n` tones: channel octaves, the pitch
/// of the last tone, and the rendered parts. Each tone goes to the lowest
/// octave keeping it at or above the previous tone (the root stays in its
/// channel's octave), prefixed by the `>`/`<` moves from its channel.
pub open spec fn stack_state(tones: Seq<(char, int)>, racc: Option<RootAccidental>, ks: Seq<Option<i8>>, chans0: Seq<int>, n: int) -> (Seq<int>, int, Seq<Seq<char>>)
    decreases n,
{
    if n <= 0 {
        (chans0, -1, Seq::empty())
    } else {
        let st = stack_state(tones, racc, ks, chans0, n - 1);
        let k = n - 1;
        let letter = tones[k].0;
        let acc = tones[k].1;
        let sem = sem_or_zero(letter);
        let target = if k == 0 {
            (st.0[0], (st.0[0] - 1) * 12 + sem + acc)
        } else {
            let o = (st.1 - sem) / 12 + 1;
            lift_above(o, (o - 1) * 12 + sem + acc, st.1)
        };
        let shift = target.0 - st.0[k];
        let text = shift_prefix(shift) + seq![letter] + if k == 0 && racc is Some {
            acc_chars(racc)
        } else {
            non_root_glyph(acc, letter, ks)
        };
        (st.0.update(k, target.0), target.1, st.2.push(text))
    }
}

/// Stacked rendering of `tones`; with `compensate`, every part whose
/// channel octave moved gets trailing `<`/`>` restoring it.
pub open spec fn spec_stack_tones(tones: Seq<(char, int)>, racc: Option<RootAccidental>, ks: Seq<Option<i8>>, chans: Seq<i32>, compensate: bool) -> Seq<char> {
    let start = padded_channels(chans, tones.len() as int);
    let st = stack_state(tones, racc, ks, start, tones.len() as int);
    if compensate {
        join_slash(Seq::new(st.2.len(), |k: int| st.2[k] + shift_prefix(start[k] - st.0[k])))
    } else {
        join_slash(st.2)
    }
}

/// Floor division by 12 (`i32::div_euclid(12)`).
pub(crate) fn floor_div_12(x: i32) -> (r: i32)
    ensures
        r as int == x as int / 12,
{
    if x >= 0 {
        x / 12
    } else {
        let y: i32 = -(x + 1);
        let q = y / 12;
        proof {
            assert(-(q as int) - 1 == (x as int) / 12) by (nonlinear_arith)
                requires
                    y == -(x + 1),
                    x < 0,
                    q == y / 12,
                    y >= 0;
        }
        -q - 1
    }
}

#[derive(Debug, Clone, Copy)]
struct StackedTone {
    letter: char,
    /// Accidental relative to the natural letter (positive = sharp).
    acc: i32,
}

spec fn tones_view(t: Seq<StackedTone>) -> Seq<(char, int)> {
    t.map_values(|x: StackedTone| (x.letter, x.acc as int))
}

/// The `i32` arithmetic that places tone `k` does not overflow: the
/// root's pitch from its channel octave, or the next tone's octave from
/// the previous pitch and its lift, and the octave shift from the
/// channel.
pub open spec fn stack_step_fits(tones: Seq<(char, int)>, racc: Option<RootAccidental>, ks: Seq<Option<i8>>, chans0: Seq<int>, k: int) -> bool {
    let st = stack_state(tones, racc, ks, chans0, k);
    let sem = sem_or_zero(tones[k].0);
    let acc = tones[k].1;
    if k == 0 {
        let o = st.0[0];
        &&& fits_i32_int(o - 1)
        &&& fits_i32_int((o - 1) * 12)
        &&& fits_i32_int((o - 1) * 12 + sem)
        &&& fits_i32_int((o - 1) * 12 + sem + acc)
    } else {
        let x = st.1 - sem;
        let o = x / 12 + 1;
        let t = lift_above(o, (o - 1) * 12 + sem + acc, st.1);
        &&& fits_i32_int(x)
        &&& fits_i32_int(o)
        &&& fits_i32_int((o - 1) * 12)
        &&& fits_i32_int((o - 1) * 12 + sem)
        &&& fits_i32_int((o - 1) * 12 + sem + acc)
        &&& fits_i32_int(t.0)
        &&& fits_i32_int(t.1)
        &&& i32::MIN < t.0 - st.0[k] <= i32::MAX
    }
}

/// Stacking `tones` over `chans` runs in `i32` arithmetic without
/// overflow (and every octave move is shorter than `i32::MIN` steps).
pub open spec fn stack_fits(tones: Seq<(char, int)>, racc: Option<RootAccidental>, ks: Seq<Option<i8>>, chans: Seq<i32>, compensate: bool) -> bool {
    let start = padded_channels(chans, tones.len() as int);
    let st = stack_state(tones, racc, ks, start, tones.len() as int);
    &&& forall|k: int| 0 <= k < tones.len() ==> #[trigger] stack_step_fits(tones, racc, ks, start, k)
    &&& compensate ==> forall|k: int| 0 <= k < tones.len() ==> #[trigger] move_fits(st.0[k], start[k])
}

/// An octave move from `b` to `a` fits in `i32` and can be negated.
pub open spec fn move_fits(a: int, b: int) -> bool {
    i32::MIN < a - b <= i32::MAX
}

pub(crate) fn push_repeat(s: &mut String, c: char, n: i32)
    requires
        n >= 0,
    ensures
        final(s)@ == old(s)@ + repeat_char(c, n as int),
{
    let mut i: i32 = 0;
    while i < n
        invariant
            0 <= i <= n,
            s@ == old(s)@ + repeat_char(c, i as int),
        decreases n - i,
    {
        s.push(c);
        assert(old(s)@ + repeat_char(c, i + 1) =~= (old(s)@ + repeat_char(c, i as int)).push(c));
        i += 1;
    }
}

pub(crate) fn push_shift(s: &mut String, shift: i32)
    requires
        shift > i32::MIN,
    ensures
        final(s)@ == old(s)@ + shift_prefix(shift as int),
{
    if shift > 0 {
        push_repeat(s, '>', shift);
    } else {
        push_repeat(s, '<', -shift);
    }
}

pub(crate) proof fn lemma_lift_bounds(o: int, p: int, prev: int)
    ensures
        lift_above(o, p, prev).0 >= o,
        lift_above(o, p, prev).1 == p + (lift_above(o, p, prev).0 - o) * 12,
        lift_above(o, p, prev).1 >= prev,
        p < prev ==> lift_above(o, p, prev).1 < prev + 12,
        p >= prev ==> lift_above(o, p, prev) == (o, p),
    decreases (if p < prev { prev - p } else { 0 }),
{
    if p < prev {
        lemma_lift_bounds(o + 1, p + 12, prev);
    }
}

fn fits_i64(v: i64) -> (r: bool)
    ensures
        r == fits_i32_int(v as int),
{
    i32::MIN as i64 <= v && v <= i32::MAX as i64
}

/// Stacks `tones` over `channel_octaves`, or `None` where the `i32`
/// arithmetic would overflow.
fn stack_tones_checked(
    tones: &Vec<StackedTone>,
    root_accidental: Option<RootAccidental>,
    key_sig: &KeySig,
    channel_octaves: &[i32],
    compensate: bool,
) -> (r: Option<String>)
    ensures
        r is Some == stack_fits(tones_view(tones@), root_accidental, key_sig@, channel_octaves@, compensate),
        r matches Some(s) ==> s@ == spec_stack_tones(tones_view(tones@), root_accidental, key_sig@, channel_octaves@, compensate),
{
    let ghost tv = tones_view(tones@);
    let ghost start = padded_channels(channel_octaves@, tones@.len() as int);
    let mut chans: Vec<i32> = Vec::new();
    let mut i: usize = 0;
    while i < channel_octaves.len()
        invariant
            i <= channel_octaves@.len(),
            chans@ == channel_octaves@.subrange(0, i as int),
        decreases channel_octaves@.len() - i,
    {
        chans.push(channel_octaves[i]);
        assert(channel_octaves@.subrange(0, i + 1) =~= channel_octaves@.subrange(0, i as int).push(channel_octaves@[i as int]));
        i += 1;
    }
    assert(channel_octaves@.subrange(0, channel_octaves@.len() as int) =~= channel_octaves@);
    while chans.len() < tones.len()
        invariant
            channel_octaves@.len() <= chans@.len(),
            chans@.len() <= (if channel_octaves@.len() < tones@.len() { tones@.len() } else { channel_octaves@.len() }),
            forall|m: int| 0 <= m < chans@.len() ==> chans@[m] as int == start[m],
            start == padded_channels(channel_octaves@, tones@.len() as int),
        decreases tones@.len() - chans@.len(),
    {
        let last = if chans.len() > 0 { chans[chans.len() - 1] } else { 6 };
        proof {
            if chans@.len() > 0 {
                assert(chans@[chans@.len() - 1] as int == start[chans@.len() - 1]);
            }
        }
        chans.push(last);
    }
    let original = chans.clone();
    assert(chans@.len() == start.len());
    let mut parts: Vec<String> = Vec::new();
    let mut prev_pitch: i32 = -1;
    let mut k: usize = 0;
    while k < tones.len()
        invariant
            tv == tones_view(tones@),
            tv.len() == tones@.len(),
            start == padded_channels(channel_octaves@, tones@.len() as int),
            original@.len() == start.len(),
            forall|m: int| 0 <= m < start.len() ==> original@[m] as int == start[m],
            k <= tones@.len() <= chans@.len(),
            chans@.len() == start.len(),
            parts@.len() == k,
            forall|j: int| 0 <= j < k ==> #[trigger] stack_step_fits(tv, root_accidental, key_sig@, start, j),
            ({
                let st = stack_state(tv, root_accidental, key_sig@, start, k as int);
                &&& st.0.len() == chans@.len()
                &&& forall|m: int| 0 <= m < chans@.len() ==> chans@[m] as int == st.0[m]
                &&& st.1 == prev_pitch as int
                &&& st.2.len() == k
                &&& forall|m: int| 0 <= m < parts@.len() ==> #[trigger] parts@[m]@ == st.2[m]
            }),
        decreases tones@.len() - k,
    {
        let ghost st0 = stack_state(tv, root_accidental, key_sig@, start, k as int);
        let letter = tones[k].letter;
        let acc = tones[k].acc;
        assert(tv[k as int] == (letter, acc as int));
        let letter_sem = match chord_natural_semitones(letter) {
            Some(v) => v,
            None => 0,
        };
        assert(letter_sem as int == sem_or_zero(letter));
        assert(0 <= letter_sem <= 11);
        let target_oct: i32;
        let target_pitch: i32;
        if k == 0 {
            let o = chans[0] as i64;
            let a1 = o - 1;
            let a2 = a1 * 12;
            let a3 = a2 + letter_sem as i64;
            let a4 = a3 + acc as i64;
            if !(fits_i64(a1) && fits_i64(a2) && fits_i64(a3) && fits_i64(a4)) {
                assert(!stack_step_fits(tv, root_accidental, key_sig@, start, 0));
                return None;
            }
            target_oct = chans[0];
            target_pitch = a4 as i32;
            assert(stack_step_fits(tv, root_accidental, key_sig@, start, 0));
        } else {
            let x = prev_pitch as i64 - letter_sem as i64;
            if !fits_i64(x) {
                assert(!stack_step_fits(tv, root_accidental, key_sig@, start, k as int));
                return None;
            }
            let q = floor_div_12(x as i32) as i64;
            let o0 = q + 1;
            let b2 = (o0 - 1) * 12;
            let b3 = b2 + letter_sem as i64;
            let b4 = b3 + acc as i64;
            if !(fits_i64(o0) && fits_i64(b2) && fits_i64(b3) && fits_i64(b4)) {
                assert(!stack_step_fits(tv, root_accidental, key_sig@, start, k as int));
                return None;
            }
            let mut t_oct: i64 = o0;
            let mut t_pitch: i64 = b4;
            proof {
                lemma_lift_bounds(o0 as int, b4 as int, prev_pitch as int);
            }
            while t_pitch < prev_pitch as i64
                invariant
                    lift_above(o0 as int, b4 as int, prev_pitch as int) == lift_above(t_oct as int, t_pitch as int, prev_pitch as int),
                    t_pitch as int == b4 + (t_oct as int - o0) * 12,
                    o0 <= t_oct,
                    i32::MIN <= o0 <= i32::MAX,
                    i32::MIN <= b4 <= i32::MAX,
                    t_pitch < prev_pitch + 12 || t_pitch == b4,
                    i32::MIN <= prev_pitch <= i32::MAX,
                decreases prev_pitch + 12 - t_pitch,
            {
                t_oct += 1;
                t_pitch += 12;
            }
            proof {
                lemma_lift_bounds(t_oct as int, t_pitch as int, prev_pitch as int);
            }
            if !(fits_i64(t_oct) && fits_i64(t_pitch)) {
                assert(!stack_step_fits(tv, root_accidental, key_sig@, start, k as int));
                return None;
            }
            let sh = t_oct - chans[k] as i64;
            if !(fits_i64(sh) && sh != i32::MIN as i64) {
                assert(!stack_step_fits(tv, root_accidental, key_sig@, start, k as int));
                return None;
            }
            target_oct = t_oct as i32;
            target_pitch = t_pitch as i32;
            assert(stack_step_fits(tv, root_accidental, key_sig@, start, k as int));
        }
        let shift = target_oct - chans[k];
        chans.set(k, target_oct);
        let mut note_text = String::new();
        push_shift(&mut note_text, shift);
        note_text.push(letter);
        if k == 0 && root_accidental.is_some() {
            push_accidental(&mut note_text, root_accidental);
        } else {
            push_non_root_glyph(&mut note_text, acc, letter, key_sig);
        }
        let ghost st1 = stack_state(tv, root_accidental, key_sig@, start, k + 1);
        assert(note_text@ =~= st1.2[k as int]);
        parts.push(note_text);
        prev_pitch = target_pitch;
        k += 1;
    }
    let ghost st = stack_state(tv, root_accidental, key_sig@, start, tv.len() as int);
    if compensate {
        let ghost want = Seq::new(st.2.len(), |m: int| st.2[m] + shift_prefix(start[m] - st.0[m]));
        let mut k: usize = 0;
        while k < parts.len()
            invariant
                st == stack_state(tv, root_accidental, key_sig@, start, tv.len() as int),
                tv == tones_view(tones@),
                tv.len() == tones@.len(),
                start == padded_channels(channel_octaves@, tones@.len() as int),
                compensate,
                want == Seq::new(st.2.len(), |m: int| st.2[m] + shift_prefix(start[m] - st.0[m])),
                k <= parts@.len(),
                parts@.len() == st.2.len(),
                parts@.len() == tv.len(),
                parts@.len() <= chans@.len(),
                chans@.len() == original@.len(),
                original@.len() == start.len(),
                st.0.len() == chans@.len(),
                forall|m: int| 0 <= m < chans@.len() ==> chans@[m] as int == st.0[m],
                forall|m: int| 0 <= m < start.len() ==> original@[m] as int == start[m],
                forall|m: int| 0 <= m < k ==> #[trigger] move_fits(st.0[m], start[m]),
                forall|m: int| 0 <= m < k ==> #[trigger] parts@[m]@ == want[m],
                forall|m: int| k <= m < parts@.len() ==> #[trigger] parts@[m]@ == st.2[m],
            decreases parts@.len() - k,
        {
            let d = chans[k] as i64 - original[k] as i64;
            if !(fits_i64(d) && d != i32::MIN as i64) {
                assert(!move_fits(st.0[k as int], start[k as int]));
                assert(k < tv.len());
                assert(tv.len() == tones@.len());
                assert(start == padded_channels(channel_octaves@, tv.len() as int));
                assert(!stack_fits(tv, root_accidental, key_sig@, channel_octaves@, compensate));
                return None;
            }
            let diff = chans[k] - original[k];
            let mut p = parts[k].clone();
            proof {
                assert(p@ == st.2[k as int]);
            }
            if diff > 0 {
                push_repeat(&mut p, '<', diff);
            } else if diff < 0 {
                push_repeat(&mut p, '>', -diff);
            } else {
                assert(p@ =~= p@ + repeat_char('<', 0));
            }
            assert(p@ == want[k as int]);
            parts.set(k, p);
            k += 1;
        }
        assert(parts@.map_values(|s: String| s@) =~= want);
    } else {
        assert(parts@.map_values(|s: String| s@) =~= st.2);
    }
    Some(join_parts(&parts))
}


/// The stacked tones of a named chord.
pub open spec fn named_tones(d: ChordDef, ri: int, adj: int) -> Seq<(char, int)> {
    Seq::new(d.letter_steps@.len(), |k: int| named_tone(d, ri, adj, k))
}

/// A named chord, stacked bottom-up with `>`/`<` per branch.
pub open spec fn spec_render_stacked_chord(root: char, acc: Option<RootAccidental>, d: ChordDef, ks: Seq<Option<i8>>, chans: Seq<i32>, compensate: bool) -> Option<Seq<char>> {
    match spec_root_index(root) {
        None => None,
        Some(ri) => Some(spec_stack_tones(named_tones(d, ri, root_adjusted(ri, acc, ks)), acc, ks, chans, compensate)),
    }
}

/// Inputs on which a named chord stacks without overflow: the chord
/// renders, and its tones stack over `chans` in `i32` arithmetic.
pub open spec fn stacked_chord_ok(root: char, acc: Option<RootAccidental>, d: ChordDef, ks: Seq<Option<i8>>, chans: Seq<i32>, compensate: bool) -> bool {
    &&& render_chord_ok(root, acc, d, ks)
    &&& spec_root_index(root) matches Some(ri) ==> stack_fits(named_tones(d, ri, root_adjusted(ri, acc, ks)), acc, ks, chans, compensate)
}

/// Named chord, stacked bottom-up using `>` / `<` per branch. With
/// `compensate`, each branch whose channel octave changed also gets a
/// trailing `<` / `>` restoring its prior state.
fn named_stack_tones(root_letter_lower: char, root_accidental: Option<RootAccidental>, def: &ChordDef, key_sig: &KeySig) -> (r: Option<Vec<StackedTone>>)
    requires
        render_chord_ok(root_letter_lower, root_accidental, *def, key_sig@),
    ensures
        match spec_root_index(root_letter_lower) {
            None => r is None,
            Some(ri) => r matches Some(t) && tones_view(t@) == named_tones(*def, ri, root_adjusted(ri, root_accidental, key_sig@)),
        },
{
    let (root_idx, root_adjusted_sem) = match root_state(root_letter_lower, root_accidental, key_sig) {
        Some(p) => p,
        None => {
            return None;
        },
    };
    let letters = chord_letters();
    let ghost ri = root_idx as int;
    let ghost adj = root_adjusted_sem as int;
    let ghost want = named_tones(*def, ri, adj);
    let mut tones: Vec<StackedTone> = Vec::new();
    let mut k: usize = 0;
    while k < def.letter_steps.len()
        invariant
            ri == root_idx,
            root_idx < 7,
            adj == root_adjusted_sem,
            named_chord_ok(*def, ri, adj),
            forall|m: int| 0 <= m < 7 ==> letters@[m] == letter_at(m),
            want == named_tones(*def, ri, adj),
            k <= def.letter_steps@.len(),
            tones@.len() == k,
            forall|m: int| 0 <= m < k ==> (#[trigger] tones@[m]).letter == want[m].0 && tones@[m].acc as int == want[m].1
                && -1 <= tones@[m].acc <= 1,
        decreases def.letter_steps@.len() - k,
    {
        let step = def.letter_steps[k];
        assert(ri + (def.letter_steps@[k as int] as usize) <= usize::MAX);
        let letter_idx = (root_idx + step as usize) % 7;
        let letter = letters[letter_idx];
        proof {
            lemma_letter_sem(letter_idx as int);
        }
        let sem = match chord_natural_semitones(letter) {
            Some(v) => v,
            None => 0,
        };
        let mut acc = root_adjusted_sem + def.intervals[k] - sem;
        if acc > 6 {
            acc -= 12;
        }
        if acc < -6 {
            acc += 12;
        }
        let (spelled_letter, spelled_acc) = spell_on(letter_idx, letter, acc);
        tones.push(StackedTone { letter: spelled_letter, acc: spelled_acc });
        k += 1;
    }
    assert(tones_view(tones@) =~= want);
    Some(tones)
}

pub fn render_stacked_chord(
    root_letter_lower: char,
    root_accidental: Option<RootAccidental>,
    def: &ChordDef,
    key_sig: &KeySig,
    channel_octaves: &[i32],
    compensate: bool,
) -> (r: Option<String>)
    requires
        stacked_chord_ok(root_letter_lower, root_accidental, *def, key_sig@, channel_octaves@, compensate),
    ensures
        match spec_render_stacked_chord(root_letter_lower, root_accidental, *def, key_sig@, channel_octaves@, compensate) {
            None => r is None,
            Some(t) => r matches Some(s) && s@ == t,
        },
{
    match named_stack_tones(root_letter_lower, root_accidental, def, key_sig) {
        None => None,
        Some(tones) => stack_tones_checked(&tones, root_accidental, key_sig, channel_octaves, compensate),
    }
}

/// Generic diatonic dyad: the root as typed, its typed accidental, `/`,
/// and the letter `step` positions above; `None` for an unknown root or a
/// step outside `1..=6`.
pub open spec fn spec_generic_dyad(root: char, acc: Option<RootAccidental>, step: i32) -> Option<Seq<char>> {
    if !(1 <= step <= 6) {
        None
    } else {
        match spec_root_index(root) {
            None => None,
            Some(ri) => Some(seq![root] + acc_chars(acc) + seq!['/', letter_at((ri + step) % 7)]),
        }
    }
}

/// Generic diatonic dyad: root letter plus the letter `step` positions
/// away (`1..=6` for a 2nd through 7th), letters only.
pub fn render_generic_diatonic_dyad(
    root_letter_lower: char,
    root_accidental: Option<RootAccidental>,
    step: i32,
) -> (r: Option<String>)
    ensures
        match spec_generic_dyad(root_letter_lower, root_accidental, step) {
            None => r is None,
            Some(t) => r matches Some(s) && s@ == t,
        },
{
    if !(1 <= step && step <= 6) {
        return None;
    }
    let root_idx = match root_index(root_letter_lower) {
        Some(i) => i,
        None => {
            return None;
        },
    };
    let letters = chord_letters();
    let upper_letter = letters[(root_idx + step as usize) % 7];
    let mut out = String::new();
    out.push(root_letter_lower);
    push_accidental(&mut out, root_accidental);
    out.push('/');
    out.push(upper_letter);
    assert(out@ =~= seq![root_letter_lower] + acc_chars(root_accidental) + seq!['/', upper_letter]);
    Some(out)
}

/// Accidental of a root tone: typed, or the key signature's for `letter`.
pub open spec fn typed_or_sig(acc: Option<RootAccidental>, ks: Seq<Option<i8>>, letter: char) -> int {
    match acc {
        Some(a) => root_acc_value(a),
        None => sig_get_or_zero(ks, letter) as int,
    }
}

/// The two tones of a stacked dyad: the root as typed (or per the key
/// signature), then the letter `step` above with its key-signature
/// accidental; `None` for a step outside `1..=6` or a non-note root.
pub open spec fn dyad_tones(root: char, acc: Option<RootAccidental>, step: i32, ks: Seq<Option<i8>>) -> Option<Seq<(char, int)>> {
    if !(1 <= step <= 6) {
        None
    } else {
        match spec_root_index(root) {
            None => None,
            Some(ri) => {
                let upper = letter_at((ri + step) % 7);
                Some(seq![(root, typed_or_sig(acc, ks, root)), (upper, sig_get_or_zero(ks, upper) as int)])
            },
        }
    }
}

/// Inputs on which a stacked dyad renders without `i32` overflow.
pub open spec fn stacked_dyad_ok(root: char, acc: Option<RootAccidental>, step: i32, ks: Seq<Option<i8>>, chans: Seq<i32>, compensate: bool) -> bool {
    dyad_tones(root, acc, step, ks) matches Some(t) ==> stack_fits(t, acc, ks, chans, compensate)
}

/// Inputs on which a stacked generic chord renders without `i32`
/// overflow.
pub open spec fn stacked_generic_ok(root: char, acc: Option<RootAccidental>, size: ChordSize, ks: Seq<Option<i8>>, chans: Seq<i32>, compensate: bool) -> bool {
    spec_root_index(root) matches Some(ri) ==> stack_fits(generic_tones(ri, acc, size, ks), acc, ks, chans, compensate)
}

/// The stacked dyad: the root as typed, then the upper letter with its
/// key-signature accidental.
pub open spec fn spec_stacked_dyad(root: char, acc: Option<RootAccidental>, step: i32, ks: Seq<Option<i8>>, chans: Seq<i32>, compensate: bool) -> Option<Seq<char>> {
    if !(1 <= step <= 6) {
        None
    } else {
        match spec_root_index(root) {
            None => None,
            Some(ri) => {
                let upper = letter_at((ri + step) % 7);
                Some(spec_stack_tones(seq![(root, typed_or_sig(acc, ks, root)), (upper, sig_get_or_zero(ks, upper) as int)], acc, ks, chans, compensate))
            },
        }
    }
}

/// Stacked variant of [`render_generic_diatonic_dyad`] using `>` / `<` to
/// keep the upper tone above the root.
fn dyad_stack_tones(root_letter_lower: char, root_accidental: Option<RootAccidental>, step: i32, key_sig: &KeySig) -> (r: Option<Vec<StackedTone>>)
    ensures
        match dyad_tones(root_letter_lower, root_accidental, step, key_sig@) {
            None => r is None,
            Some(t) => r matches Some(v) && tones_view(v@) == t,
        },
{
    if !(1 <= step && step <= 6) {
        return None;
    }
    let root_idx = match root_index(root_letter_lower) {
        Some(i) => i,
        None => {
            return None;
        },
    };
    let letters = chord_letters();
    let upper_letter = letters[(root_idx + step as usize) % 7];
    let root_acc = match root_accidental {
        Some(a) => a.as_i32(),
        None => key_sig.get_or_zero(root_letter_lower) as i32,
    };
    let upper_acc = key_sig.get_or_zero(upper_letter) as i32;
    let tones = vec![
        StackedTone { letter: root_letter_lower, acc: root_acc },
        StackedTone { letter: upper_letter, acc: upper_acc },
    ];
    assert(tones_view(tones@) =~= seq![(root_letter_lower, typed_or_sig(root_accidental, key_sig@, root_letter_lower)),
        (upper_letter, sig_get_or_zero(key_sig@, upper_letter) as int)]);
    Some(tones)
}

pub fn render_stacked_generic_diatonic_dyad(
    root_letter_lower: char,
    root_accidental: Option<RootAccidental>,
    step: i32,
    key_sig: &KeySig,
    channel_octaves: &[i32],
    compensate: bool,
) -> (r: Option<String>)
    requires
        stacked_dyad_ok(root_letter_lower, root_accidental, step, key_sig@, channel_octaves@, compensate),
    ensures
        match spec_stacked_dyad(root_letter_lower, root_accidental, step, key_sig@, channel_octaves@, compensate) {
            None => r is None,
            Some(t) => r matches Some(s) && s@ == t,
        },
{
    match dyad_stack_tones(root_letter_lower, root_accidental, step, key_sig) {
        None => None,
        Some(tones) => stack_tones_checked(&tones, root_accidental, key_sig, channel_octaves, compensate),
    }
}

/// The stacked tones of a generic chord: letters by thirds, the root with
/// its typed (or key-signature) accidental, the others with the key
/// signature's.
pub open spec fn generic_tones(ri: int, acc: Option<RootAccidental>, size: ChordSize, ks: Seq<Option<i8>>) -> Seq<(char, int)> {
    let steps = size_steps(size);
    Seq::new(steps.len(), |k: int| {
        let letter = letter_at((ri + steps[k]) % 7);
        (letter, if k == 0 { typed_or_sig(acc, ks, letter) } else { sig_get_or_zero(ks, letter) as int })
    })
}

/// A generic diatonic chord stacked bottom-up.
pub open spec fn spec_stacked_generic_chord(root: char, acc: Option<RootAccidental>, size: ChordSize, ks: Seq<Option<i8>>, chans: Seq<i32>, compensate: bool) -> Option<Seq<char>> {
    match spec_root_index(root) {
        None => None,
        Some(ri) => Some(spec_stack_tones(generic_tones(ri, acc, size, ks), acc, ks, chans, compensate)),
    }
}

/// Diatonic chord by letter only, stacked bottom-up with `>` / `<` so
/// each tone sits above the previous; accidentals come from the key
/// signature.
fn generic_stack_tones(root_letter_lower: char, root_accidental: Option<RootAccidental>, size: ChordSize, key_sig: &KeySig) -> (r: Option<Vec<StackedTone>>)
    ensures
        match spec_root_index(root_letter_lower) {
            None => r is None,
            Some(ri) => r matches Some(t) && tones_view(t@) == generic_tones(ri, root_accidental, size, key_sig@),
        },
{
    let root_idx = match root_index(root_letter_lower) {
        Some(i) => i,
        None => {
            return None;
        },
    };
    let letters = chord_letters();
    let steps = size.steps();
    let ghost want = generic_tones(root_idx as int, root_accidental, size, key_sig@);
    let ghost sv = size_steps(size);
    let mut tones: Vec<StackedTone> = Vec::new();
    let mut k: usize = 0;
    while k < steps.len()
        invariant
            root_idx < 7,
            steps@.len() == sv.len(),
            sv == size_steps(size),
            forall|m: int| 0 <= m < steps@.len() ==> steps@[m] as int == sv[m],
            forall|m: int| 0 <= m < sv.len() ==> 0 <= #[trigger] sv[m] <= 6,
            forall|m: int| 0 <= m < 7 ==> letters@[m] == letter_at(m),
            want == generic_tones(root_idx as int, root_accidental, size, key_sig@),
            k <= steps@.len(),
            tones@.len() == k,
            forall|m: int| 0 <= m < k ==> (#[trigger] tones@[m]).letter == want[m].0 && tones@[m].acc as int == want[m].1,
        decreases steps@.len() - k,
    {
        let step = steps[k];
        assert(0 <= sv[k as int] <= 6);
        let letter = letters[(root_idx + step as usize) % 7];
        let default_acc = key_sig.get_or_zero(letter) as i32;
        let acc = if k == 0 {
            match root_accidental {
                Some(a) => a.as_i32(),
                None => default_acc,
            }
        } else {
            default_acc
        };
        assert(letter == want[k as int].0);
        assert(acc as int == want[k as int].1);
        let ghost prev = tones@;
        tones.push(StackedTone { letter, acc });
        assert(tones@ == prev.push(StackedTone { letter, acc }));
        k += 1;
    }
    assert(tones_view(tones@) =~= want);
    Some(tones)
}

pub fn render_stacked_generic_chord(
    root_letter_lower: char,
    root_accidental: Option<RootAccidental>,
    size: ChordSize,
    key_sig: &KeySig,
    channel_octaves: &[i32],
    compensate: bool,
) -> (r: Option<String>)
    requires
        stacked_generic_ok(root_letter_lower, root_accidental, size, key_sig@, channel_octaves@, compensate),
    ensures
        match spec_stacked_generic_chord(root_letter_lower, root_accidental, size, key_sig@, channel_octaves@, compensate) {
            None => r is None,
            Some(t) => r matches Some(s) && s@ == t,
        },
{
    match generic_stack_tones(root_letter_lower, root_accidental, size, key_sig) {
        None => None,
        Some(tones) => stack_tones_checked(&tones, root_accidental, key_sig, channel_octaves, compensate),
    }
}


/// A tone spelled with at most one accidental.
#[derive(Debug, Clone, Copy, PartialEq, Eq)]
pub struct SpelledTone {
    /// Natural letter (`c..b`).
    pub letter: char,
    /// Accidental relative to the natural letter, in `-1..=1`.
    pub accidental: i32,
    /// Absolute MML octave number.
    pub octave: i32,
}

/// Semitones from the letter at index `li` up to the next letter.
pub open spec fn gap_up(li: int) -> int {
    if li == 2 || li == 6 { 1 } else { 2 }
}

/// Semitones from the letter at index `li` down to the previous letter.
pub open spec fn gap_down(li: int) -> int {
    if li == 0 || li == 3 { 1 } else { 2 }
}

/// The spelling `(letter index, accidental, octave)` of the tone written
/// on letter `li` with accidental `acc` in octave `oct`: while the
/// accidental is a double (or larger) sharp the tone moves to the next
/// letter up, while it is a double (or larger) flat to the next letter
/// down, keeping the sounding pitch.
pub open spec fn respell(li: int, acc: int, oct: int) -> (int, int, int)
    decreases (if acc < 0 { -acc } else { acc }),
{
    if acc > 1 {
        respell(if li == 6 { 0 } else { li + 1 }, acc - gap_up(li), if li == 6 { oct + 1 } else { oct })
    } else if acc < -1 {
        respell(if li == 0 { 6 } else { li - 1 }, acc + gap_down(li), if li == 0 { oct - 1 } else { oct })
    } else {
        (li, acc, oct)
    }
}

/// The respelled tone of `letter` (a natural `c..b`) with `accidental` in
/// `octave`, or `None` for any other letter.
pub open spec fn spec_spell_tone(letter: char, accidental: int, octave: int) -> Option<SpelledTone> {
    match spec_root_index(letter) {
        Some(li) if letter != 'h' => {
            let t = respell(li, accidental, octave);
            Some(SpelledTone { letter: letter_at(t.0), accidental: t.1 as i32, octave: t.2 as i32 })
        },
        _ => None,
    }
}

/// Respelling keeps the sounding pitch, leaves at most one accidental,
/// and moves the octave only in the accidental's direction.
pub proof fn lemma_respell(li: int, acc: int, oct: int)
    requires
        0 <= li < 7,
    ensures
        0 <= respell(li, acc, oct).0 < 7,
        -1 <= respell(li, acc, oct).1 <= 1,
        respell(li, acc, oct).2 * 12 + natural_sem(letter_at(respell(li, acc, oct).0))->0 + respell(li, acc, oct).1
            == oct * 12 + natural_sem(letter_at(li))->0 + acc,
        acc >= 0 ==> respell(li, acc, oct).2 >= oct,
        acc > 1 && li == 6 ==> respell(li, acc, oct).2 >= oct + 1,
        acc <= 0 ==> respell(li, acc, oct).2 <= oct,
        acc < -1 && li == 0 ==> respell(li, acc, oct).2 <= oct - 1,
        acc >= 0 ==> respell(li, acc, oct).2 <= oct + acc,
        acc <= 0 ==> respell(li, acc, oct).2 >= oct + acc,
    decreases (if acc < 0 { -acc } else { acc }),
{
    if acc > 1 {
        lemma_respell(if li == 6 { 0 } else { li + 1 }, acc - gap_up(li), if li == 6 { oct + 1 } else { oct });
    } else if acc < -1 {
        lemma_respell(if li == 0 { 6 } else { li - 1 }, acc + gap_down(li), if li == 0 { oct - 1 } else { oct });
    }
}

/// Respell a tone so that it carries at most one accidental (a double
/// sharp or flat moves to the neighbouring letter), keeping its pitch.
/// `None` when `letter` is not a natural `c..b`.
pub fn spell_tone(letter: char, accidental: i32, octave: i32) -> (r: Option<SpelledTone>)
    requires
        letter != 'h' && spec_root_index(letter) is Some
            ==> fits_i32_int(respell(spec_root_index(letter)->0, accidental as int, octave as int).2),
    ensures
        r == spec_spell_tone(letter, accidental as int, octave as int),
{
    if letter == 'h' {
        return None;
    }
    let li0 = match root_index(letter) {
        Some(i) => i,
        None => {
            return None;
        },
    };
    let ghost fin = respell(li0 as int, accidental as int, octave as int);
    let mut li: usize = li0;
    let mut acc: i32 = accidental;
    let mut oct: i32 = octave;
    proof {
        lemma_respell(li0 as int, accidental as int, octave as int);
    }
    while acc > 1 || acc < -1
        invariant
            0 <= li < 7,
            respell(li as int, acc as int, oct as int) == fin,
            fits_i32_int(fin.2),
            accidental >= 0 ==> acc >= 0 && octave <= oct,
            accidental <= 0 ==> acc <= 0 && oct <= octave,
            acc >= 0 ==> fin.2 >= oct,
            acc <= 0 ==> fin.2 <= oct,
        decreases (if acc < 0 { -(acc as int) } else { acc as int }),
    {
        proof {
            lemma_respell(li as int, acc as int, oct as int);
        }
        if acc > 1 {
            let gap: i32 = if li == 2 || li == 6 { 1 } else { 2 };
            acc = acc - gap;
            if li == 6 {
                li = 0;
                oct = oct + 1;
            } else {
                li = li + 1;
            }
        } else {
            let gap: i32 = if li == 0 || li == 3 { 1 } else { 2 };
            acc = acc + gap;
            if li == 0 {
                li = 6;
                oct = oct - 1;
            } else {
                li = li - 1;
            }
        }
        proof {
            lemma_respell(li as int, acc as int, oct as int);
        }
    }
    let letters = chord_letters();
    Some(SpelledTone { letter: letters[li], accidental: acc, octave: oct })
}

/// `v` fits in an `i32`.
pub open spec fn fits_i32_int(v: int) -> bool {
    i32::MIN <= v <= i32::MAX
}

/// Decides [`stacked_chord_ok`] for a chord that renders.
pub fn stacked_chord_fits(root: char, acc: Option<RootAccidental>, def: &ChordDef, key_sig: &KeySig, chans: &[i32], compensate: bool) -> (r: bool)
    requires
        render_chord_ok(root, acc, *def, key_sig@),
    ensures
        r == stacked_chord_ok(root, acc, *def, key_sig@, chans@, compensate),
{
    match named_stack_tones(root, acc, def, key_sig) {
        None => true,
        Some(t) => stack_tones_checked(&t, acc, key_sig, chans, compensate).is_some(),
    }
}

/// Decides [`stacked_dyad_ok`].
pub fn stacked_dyad_fits(root: char, acc: Option<RootAccidental>, step: i32, key_sig: &KeySig, chans: &[i32], compensate: bool) -> (r: bool)
    ensures
        r == stacked_dyad_ok(root, acc, step, key_sig@, chans@, compensate),
{
    match dyad_stack_tones(root, acc, step, key_sig) {
        None => true,
        Some(t) => stack_tones_checked(&t, acc, key_sig, chans, compensate).is_some(),
    }
}

/// Decides [`stacked_generic_ok`].
pub fn stacked_generic_fits(root: char, acc: Option<RootAccidental>, size: ChordSize, key_sig: &KeySig, chans: &[i32], compensate: bool) -> (r: bool)
    ensures
        r == stacked_generic_ok(root, acc, size, key_sig@, chans@, compensate),
{
    match generic_stack_tones(root, acc, size, key_sig) {
        None => true,
        Some(t) => stack_tones_checked(&t, acc, key_sig, chans, compensate).is_some(),
    }
}

} // verus!
