//! Arpeggio patterns and chord-tone resolution.
//!
//! Chord definitions are resolved to absolute pitches first; a pattern
//! then indexes those pitches.

use vstd::prelude::*;
use crate::chord::{
    ChordDef, RootAccidental, root_acc_value, letter_at, natural_sem, chord_natural_semitones,
    chord_letters, chords_3, chords_4, table_shaped, def_matches, chord3_table, chord4_table,
    SpelledTone, spell_tone, spec_spell_tone, respell, lemma_respell, fits_i32_int, spec_root_index,
    shift_prefix, repeat_char, push_shift, lift_above, lemma_lift_bounds, floor_div_12, gap_up, gap_down,
};
use crate::completion::types::ArpeggioPattern;
use crate::key_sig::{KeySig, sig_get_or_zero};
use crate::strings::{str_chars, str_eq, ascii_lower, to_ascii_lower, push_string};

verus! {

/// Display name of a pattern.
pub open spec fn pattern_name(p: ArpeggioPattern) -> &'static str {
    match p {
        ArpeggioPattern::Up => "Up",
        ArpeggioPattern::Down => "Down",
        ArpeggioPattern::UpDown => "UpDown",
        ArpeggioPattern::DownUp => "DownUp",
        ArpeggioPattern::Alberti => "Alberti",
    }
}

/// The pattern whose name is exactly `name` (case-sensitive), if any.
pub open spec fn pattern_named(name: Seq<char>) -> Option<ArpeggioPattern> {
    if name == pattern_name(ArpeggioPattern::Up)@ {
        Some(ArpeggioPattern::Up)
    } else if name == pattern_name(ArpeggioPattern::Down)@ {
        Some(ArpeggioPattern::Down)
    } else if name == pattern_name(ArpeggioPattern::UpDown)@ {
        Some(ArpeggioPattern::UpDown)
    } else if name == pattern_name(ArpeggioPattern::DownUp)@ {
        Some(ArpeggioPattern::DownUp)
    } else if name == pattern_name(ArpeggioPattern::Alberti)@ {
        Some(ArpeggioPattern::Alberti)
    } else {
        None
    }
}

/// Looking a pattern up by its own name gives it back, and a name that
/// finds a pattern is exactly that pattern's name.
pub proof fn law_pattern_name_round_trip(p: ArpeggioPattern, name: Seq<char>)
    ensures
        pattern_named(pattern_name(p)@) == Some(p),
        pattern_named(name) matches Some(q) ==> pattern_name(q)@ == name,
{
    reveal_strlit("Up");
    reveal_strlit("Down");
    reveal_strlit("UpDown");
    reveal_strlit("DownUp");
    reveal_strlit("Alberti");
    assert("Up"@.len() == 2 && "Down"@.len() == 4 && "UpDown"@.len() == 6 && "DownUp"@.len() == 6 && "Alberti"@.len() == 7);
    assert("UpDown"@[0] == 'U' && "DownUp"@[0] == 'D');
}

/// Human-readable description of a pattern's traversal.
pub open spec fn pattern_detail(p: ArpeggioPattern) -> &'static str {
    match p {
        ArpeggioPattern::Up => "Ascending",
        ArpeggioPattern::Down => "Descending",
        ArpeggioPattern::UpDown => "Up then down (no endpoint repeat)",
        ArpeggioPattern::DownUp => "Down then up (no endpoint repeat)",
        ArpeggioPattern::Alberti => "Alberti bass (low-high-mid-high)",
    }
}

/// Minimum number of chord tones a pattern needs.
pub open spec fn pattern_min_notes(p: ArpeggioPattern) -> usize {
    match p {
        ArpeggioPattern::Up | ArpeggioPattern::Down => 2usize,
        _ => 3usize,
    }
}

/// Chord-tone indices a pattern visits for a chord of `size` tones.
pub open spec fn pattern_indices(p: ArpeggioPattern, size: int) -> Seq<usize> {
    let up = Seq::new(size as nat, |i: int| i as usize);
    let down = Seq::new(size as nat, |i: int| (size - 1 - i) as usize);
    match p {
        ArpeggioPattern::Up => up,
        ArpeggioPattern::Down => down,
        ArpeggioPattern::UpDown => up + if size >= 2 {
            Seq::new((size - 2) as nat, |i: int| (size - 2 - i) as usize)
        } else {
            Seq::empty()
        },
        ArpeggioPattern::DownUp => down + if size >= 2 {
            Seq::new((size - 2) as nat, |i: int| (i + 1) as usize)
        } else {
            Seq::empty()
        },
        ArpeggioPattern::Alberti => if size == 4 {
            seq![0usize, 3, 1, 2]
        } else if size >= 3 {
            seq![0usize, 2, 1, 2]
        } else {
            Seq::empty()
        },
    }
}

impl ArpeggioPattern {
    /// Short identifier used in completion detail text.
    pub fn name(self) -> (r: &'static str)
        ensures
            r == pattern_name(self),
    {
        match self {
            Self::Up => "Up",
            Self::Down => "Down",
            Self::UpDown => "UpDown",
            Self::DownUp => "DownUp",
            Self::Alberti => "Alberti",
        }
    }

    /// Human-readable description of the traversal.
    pub fn detail(self) -> (r: &'static str)
        ensures
            r == pattern_detail(self),
    {
        match self {
            Self::Up => "Ascending",
            Self::Down => "Descending",
            Self::UpDown => "Up then down (no endpoint repeat)",
            Self::DownUp => "Down then up (no endpoint repeat)",
            Self::Alberti => "Alberti bass (low-high-mid-high)",
        }
    }

    /// Minimum number of chord tones required by this pattern.
    pub fn min_notes(self) -> (r: usize)
        ensures
            r == pattern_min_notes(self),
    {
        match self {
            Self::Up | Self::Down => 2,
            Self::UpDown | Self::DownUp | Self::Alberti => 3,
        }
    }

    /// Generate indices into a chord-tone list of `size` notes.
    pub fn indices(self, size: usize) -> (r: Vec<usize>)
        ensures
            r@ == pattern_indices(self, size as int),
    {
        let mut out: Vec<usize> = Vec::new();
        match self {
            Self::Up | Self::UpDown => {
                let mut i: usize = 0;
                while i < size
                    invariant
                        i <= size,
                        out@ == Seq::new(i as nat, |k: int| k as usize),
                    decreases size - i,
                {
                    out.push(i);
                    assert(out@ =~= Seq::new((i + 1) as nat, |k: int| k as usize));
                    i += 1;
                }
                if matches!(self, Self::UpDown) && size >= 2 {
                    let ghost up = out@;
                    let mut j: usize = size - 1;
                    while j > 1
                        invariant
                            size >= 2,
                            1 <= j <= size - 1,
                            up == Seq::new(size as nat, |k: int| k as usize),
                            out@ == up + Seq::new((size - 1 - j) as nat, |k: int| (size - 2 - k) as usize),
                        decreases j,
                    {
                        j -= 1;
                        out.push(j);
                        assert(out@ =~= up + Seq::new((size - 1 - j) as nat, |k: int| (size - 2 - k) as usize));
                    }
                }
            },
            Self::Down | Self::DownUp => {
                let mut i: usize = size;
                while i > 0
                    invariant
                        i <= size,
                        out@ == Seq::new((size - i) as nat, |k: int| (size - 1 - k) as usize),
                    decreases i,
                {
                    i -= 1;
                    out.push(i);
                    assert(out@ =~= Seq::new((size - i) as nat, |k: int| (size - 1 - k) as usize));
                }
                if matches!(self, Self::DownUp) && size >= 2 {
                    let ghost down = out@;
                    let mut j: usize = 1;
                    while j < size - 1
                        invariant
                            size >= 2,
                            1 <= j <= size - 1,
                            down == Seq::new(size as nat, |k: int| (size - 1 - k) as usize),
                            out@ == down + Seq::new((j - 1) as nat, |k: int| (k + 1) as usize),
                        decreases size - j,
                    {
                        out.push(j);
                        assert(out@ =~= down + Seq::new(j as nat, |k: int| (k + 1) as usize));
                        j += 1;
                    }
                }
            },
            Self::Alberti => {
                if size == 4 {
                    out = vec![0, 3, 1, 2];
                } else if size >= 3 {
                    out = vec![0, 2, 1, 2];
                }
            },
        }
        assert(out@ =~= pattern_indices(self, size as int));
        out
    }
}

/// The five arpeggio patterns in their settings and display order.
pub fn patterns() -> (r: [ArpeggioPattern; 5])
    ensures
        r@ == seq![ArpeggioPattern::Up, ArpeggioPattern::Down, ArpeggioPattern::UpDown,
            ArpeggioPattern::DownUp, ArpeggioPattern::Alberti],
{
    [
        ArpeggioPattern::Up,
        ArpeggioPattern::Down,
        ArpeggioPattern::UpDown,
        ArpeggioPattern::DownUp,
        ArpeggioPattern::Alberti,
    ]
}

/// Look up a pattern by its case-sensitive display name.
pub fn pattern_by_name(name: &str) -> (r: Option<ArpeggioPattern>)
    ensures
        r == pattern_named(name@),
{
    let patterns = patterns();
    let mut i: usize = 0;
    while i < 5
        invariant
            i <= 5,
            patterns@ == seq![ArpeggioPattern::Up, ArpeggioPattern::Down, ArpeggioPattern::UpDown,
                ArpeggioPattern::DownUp, ArpeggioPattern::Alberti],
            forall|k: int| 0 <= k < i ==> name@ != pattern_name(#[trigger] patterns@[k])@,
        decreases 5 - i,
    {
        if str_eq(patterns[i].name(), name) {
            return Some(patterns[i]);
        }
        i += 1;
    }
    None
}

/// One absolute chord tone with its intended diatonic spelling.
#[derive(Debug, Clone, Copy, PartialEq, Eq)]
pub struct ResolvedNote {
    /// Natural letter (`c..b`).
    pub letter: char,
    /// Accidental relative to the natural letter.
    pub accidental: i32,
    /// Absolute MML octave number.
    pub octave: i32,
    /// Abstract pitch (`octave * 12 + pitch class`).
    pub pitch: i32,
}

/// Index of a natural letter `c..b` in pitch order.
pub open spec fn letter_index_of(letter: char) -> Option<int> {
    if letter == 'c' { Some(0) } else if letter == 'd' { Some(1) } else if letter == 'e' { Some(2) }
    else if letter == 'f' { Some(3) } else if letter == 'g' { Some(4) } else if letter == 'a' { Some(5) }
    else if letter == 'b' { Some(6) } else { None }
}

/// The root's accidental: the typed one, else the key signature's.
pub open spec fn root_acc_of(root_letter: char, acc: Option<RootAccidental>, ks: Seq<Option<i8>>) -> int {
    match acc {
        Some(a) => root_acc_value(a),
        None => sig_get_or_zero(ks, root_letter) as int,
    }
}

/// `v` fits in an `i32`.
pub open spec fn fits_i32(v: int) -> bool {
    i32::MIN <= v <= i32::MAX
}

/// The chord tone `interval` semitones above the root pitch, spelled on
/// the letter `step` letters above the root (letter index `ri`), with its
/// octave counted from `base`.
pub open spec fn resolved_tone(ri: int, root_pitch: int, base: int, interval: int, step: int) -> ResolvedNote {
    let target = root_pitch + interval;
    let lp = ri + step;
    let octave = base + lp / 7;
    let natural = octave * 12 + natural_sem(letter_at(lp % 7)).unwrap();
    ResolvedNote {
        letter: letter_at(lp % 7),
        accidental: (target - natural) as i32,
        octave: octave as i32,
        pitch: target as i32,
    }
}

/// The resolved tones of a chord rooted at `root_letter`, or `None` for a
/// letter outside `c..b`.
pub open spec fn spec_resolve(
    root_letter: char,
    acc: Option<RootAccidental>,
    steps: Seq<i32>,
    intervals: Seq<i32>,
    ks: Seq<Option<i8>>,
    base: int,
) -> Option<Seq<ResolvedNote>> {
    match letter_index_of(root_letter) {
        None => None,
        Some(ri) => {
            let rp = base * 12 + natural_sem(root_letter).unwrap() + root_acc_of(root_letter, acc, ks);
            Some(Seq::new(intervals.len(), |k: int| resolved_tone(ri, rp, base, intervals[k] as int, steps[k] as int)))
        },
    }
}

/// Every intermediate value of the resolution fits in an `i32`, and every
/// letter step is non-negative.
pub open spec fn resolve_fits(
    root_letter: char,
    acc: Option<RootAccidental>,
    steps: Seq<i32>,
    intervals: Seq<i32>,
    ks: Seq<Option<i8>>,
    base: int,
) -> bool {
    match letter_index_of(root_letter) {
        None => true,
        Some(ri) => {
            let b12 = base * 12;
            let rp0 = b12 + natural_sem(root_letter).unwrap();
            let rp = rp0 + root_acc_of(root_letter, acc, ks);
            &&& fits_i32(b12) && fits_i32(rp0) && fits_i32(rp)
            &&& forall|k: int| 0 <= k < intervals.len() ==> {
                let target = rp + #[trigger] intervals[k];
                let lp = ri + steps[k];
                let octave = base + lp / 7;
                let n12 = octave * 12;
                let natural = n12 + natural_sem(letter_at(lp % 7)).unwrap();
                &&& 0 <= steps[k]
                &&& fits_i32(target) && fits_i32(octave) && fits_i32(n12) && fits_i32(natural)
                &&& fits_i32(target - natural)
            }
        },
    }
}

fn root_accidental_value(accidental: RootAccidental) -> (r: i32)
    ensures
        r == root_acc_value(accidental),
{
    match accidental {
        RootAccidental::Sharp => 1,
        RootAccidental::Natural => 0,
        RootAccidental::Flat => -1,
    }
}

fn letter_index(letter: char) -> (r: Option<usize>)
    ensures
        match letter_index_of(letter) {
            Some(i) => r == Some(i as usize),
            None => r is None,
        },
{
    if letter == 'c' { Some(0) } else if letter == 'd' { Some(1) } else if letter == 'e' { Some(2) }
    else if letter == 'f' { Some(3) } else if letter == 'g' { Some(4) } else if letter == 'a' { Some(5) }
    else if letter == 'b' { Some(6) } else { None }
}

/// Resolve a chord definition into absolute notes beginning at
/// `base_octave`.
pub fn resolve_chord_notes(
    root_letter: char,
    root_accidental: Option<RootAccidental>,
    def: &ChordDef,
    key_sig: &KeySig,
    base_octave: i32,
) -> (r: Option<Vec<ResolvedNote>>)
    requires
        def.letter_steps@.len() >= def.intervals@.len(),
        resolve_fits(root_letter, root_accidental, def.letter_steps@, def.intervals@, key_sig@, base_octave as int),
    ensures
        match spec_resolve(root_letter, root_accidental, def.letter_steps@, def.intervals@, key_sig@, base_octave as int) {
            None => r is None,
            Some(v) => r matches Some(x) && x@ == v,
        },
{
    let root_index = match letter_index(root_letter) {
        Some(i) => i,
        None => {
            return None;
        },
    };
    let root_acc: i32 = match root_accidental {
        Some(a) => root_accidental_value(a),
        None => key_sig.get_or_zero(root_letter) as i32,
    };
    let root_nat = match chord_natural_semitones(root_letter) {
        Some(v) => v,
        None => {
            return None;
        },
    };
    let root_pitch = base_octave * 12 + root_nat + root_acc;
    let letters = chord_letters();
    let ghost spec_v = spec_resolve(root_letter, root_accidental, def.letter_steps@, def.intervals@, key_sig@, base_octave as int).unwrap();
    let mut out: Vec<ResolvedNote> = Vec::new();
    let mut k: usize = 0;
    while k < def.intervals.len()
        invariant
            k <= def.intervals@.len(),
            def.letter_steps@.len() >= def.intervals@.len(),
            resolve_fits(root_letter, root_accidental, def.letter_steps@, def.intervals@, key_sig@, base_octave as int),
            letter_index_of(root_letter) == Some(root_index as int),
            root_pitch == base_octave * 12 + natural_sem(root_letter).unwrap() + root_acc_of(root_letter, root_accidental, key_sig@),
            forall|m: int| 0 <= m < 7 ==> letters@[m] == letter_at(m),
            spec_v == spec_resolve(root_letter, root_accidental, def.letter_steps@, def.intervals@, key_sig@, base_octave as int).unwrap(),
            out@ == spec_v.subrange(0, k as int),
        decreases def.intervals@.len() - k,
    {
        let interval = def.intervals[k];
        let step = def.letter_steps[k];
        let ghost kk = k as int;
        assert(fits_i32(root_pitch + def.intervals@[kk]));
        let target = root_pitch + interval;
        let lp: usize = root_index + step as usize;
        let octave = base_octave + (lp / 7) as i32;
        let letter = letters[lp % 7];
        let npc = match chord_natural_semitones(letter) {
            Some(v) => v,
            None => 0,
        };
        let natural = octave * 12 + npc;
        let note = ResolvedNote { letter, accidental: target - natural, octave, pitch: target };
        assert(note == resolved_tone(root_index as int, root_pitch as int, base_octave as int, interval as int, step as int));
        out.push(note);
        assert(out@ =~= spec_v.subrange(0, k + 1));
        k += 1;
    }
    assert(out@ =~= spec_v);
    Some(out)
}

/// The notes of the MML sequence `s` from index `i`, starting at octave
/// `oct`: `>`/`<` move the octave; a note letter (any case) takes an
/// optional `+`/`-`/`=` accidental, else the key signature's. `None` at
/// the first character that is neither.
pub open spec fn note_seq(s: Seq<char>, i: int, oct: int, ks: Seq<Option<i8>>) -> Option<Seq<ResolvedNote>>
    decreases s.len() - i,
{
    if i < 0 || i >= s.len() {
        Some(Seq::empty())
    } else if s[i] == '>' {
        note_seq(s, i + 1, oct + 1, ks)
    } else if s[i] == '<' {
        note_seq(s, i + 1, oct - 1, ks)
    } else {
        let letter = ascii_lower(s[i]);
        match natural_sem(letter) {
            None => None,
            Some(pc) => {
                let acc = note_acc(s, i, ks, letter);
                match note_seq(s, note_next(s, i), oct, ks) {
                    None => None,
                    Some(rest) => Some(seq![ResolvedNote {
                        letter,
                        accidental: acc as i32,
                        octave: oct as i32,
                        pitch: (oct * 12 + pc + acc) as i32,
                    }] + rest),
                }
            },
        }
    }
}

/// The accidental of the note letter at `i`: an explicit `+`/`-`/`=`
/// after it, else the key signature's.
pub open spec fn note_acc(s: Seq<char>, i: int, ks: Seq<Option<i8>>, letter: char) -> int {
    if i + 1 < s.len() && s[i + 1] == '+' {
        1
    } else if i + 1 < s.len() && s[i + 1] == '-' {
        -1
    } else if i + 1 < s.len() && s[i + 1] == '=' {
        0
    } else {
        sig_get_or_zero(ks, letter) as int
    }
}

/// Index after the note at `i` and its explicit accidental, if any.
pub open spec fn note_next(s: Seq<char>, i: int) -> int {
    if i + 1 < s.len() && (s[i + 1] == '+' || s[i + 1] == '-' || s[i + 1] == '=') { i + 2 } else { i + 1 }
}

/// Every octave and pitch the parse of `s` from `i` computes fits in an
/// `i32`.
pub open spec fn note_seq_fits(s: Seq<char>, i: int, oct: int, ks: Seq<Option<i8>>) -> bool
    decreases s.len() - i,
{
    if i < 0 || i >= s.len() {
        true
    } else if s[i] == '>' {
        fits_i32(oct + 1) && note_seq_fits(s, i + 1, oct + 1, ks)
    } else if s[i] == '<' {
        fits_i32(oct - 1) && note_seq_fits(s, i + 1, oct - 1, ks)
    } else {
        let letter = ascii_lower(s[i]);
        match natural_sem(letter) {
            None => true,
            Some(pc) => {
                &&& fits_i32(oct * 12) && fits_i32(oct * 12 + pc) && fits_i32(oct * 12 + pc + note_acc(s, i, ks, letter))
                &&& note_seq_fits(s, note_next(s, i), oct, ks)
            },
        }
    }
}

/// Parse an MML note sequence into resolved notes. `None` when the text
/// holds anything but notes, accidentals and `>`/`<`, or no note at all.
pub fn parse_note_sequence(text: &str, starting_octave: i32, key_sig: &KeySig) -> (r: Option<Vec<ResolvedNote>>)
    requires
        note_seq_fits(text@, 0, starting_octave as int, key_sig@),
    ensures
        match note_seq(text@, 0, starting_octave as int, key_sig@) {
            None => r is None,
            Some(v) => if v.len() == 0 { r is None } else { r matches Some(x) && x@ == v },
        },
{
    let s = str_chars(text);
    let ghost ks = key_sig@;
    let mut notes: Vec<ResolvedNote> = Vec::new();
    let mut octave = starting_octave;
    let mut index: usize = 0;
    while index < s.len()
        invariant
            s@ == text@,
            ks == key_sig@,
            index <= s@.len(),
            note_seq_fits(s@, index as int, octave as int, ks),
            note_seq(s@, 0, starting_octave as int, ks) == match note_seq(s@, index as int, octave as int, ks) {
                Some(rest) => Some(notes@ + rest),
                None => None::<Seq<ResolvedNote>>,
            },
        decreases s@.len() - index,
    {
        let c = s[index];
        if c == '>' {
            octave += 1;
            index += 1;
            continue;
        }
        if c == '<' {
            octave -= 1;
            index += 1;
            continue;
        }
        let letter = to_ascii_lower(c);
        let pc = match chord_natural_semitones(letter) {
            Some(v) => v,
            None => {
                return None;
            },
        };
        let ghost i0 = index as int;
        index += 1;
        let accidental: i32 = if index < s.len() && s[index] == '+' {
            index += 1;
            1
        } else if index < s.len() && s[index] == '-' {
            index += 1;
            -1
        } else if index < s.len() && s[index] == '=' {
            index += 1;
            0
        } else {
            key_sig.get_or_zero(letter) as i32
        };
        assert(accidental == note_acc(s@, i0, ks, letter));
        assert(index == note_next(s@, i0));
        let ghost prev = notes@;
        let note = ResolvedNote { letter, accidental, octave, pitch: octave * 12 + pc + accidental };
        notes.push(note);
        proof {
            match note_seq(s@, index as int, octave as int, ks) {
                Some(rest) => {
                    assert(prev + (seq![note] + rest) =~= notes@ + rest);
                },
                None => {},
            }
        }
    }
    if notes.len() == 0 {
        return None;
    }
    Some(notes)
}

/// `+1` for `>`, `-1` for `<`, `0` for any other character.
pub open spec fn char_disp(c: char) -> int {
    if c == '>' { 1 } else if c == '<' { -1 } else { 0 }
}

/// Net octave displacement of MML text: its `>` count minus its `<` count.
pub open spec fn displacement(s: Seq<char>) -> int
    decreases s.len(),
{
    if s.len() == 0 { 0 } else { displacement(s.drop_last()) + char_disp(s.last()) }
}

proof fn lemma_disp_concat(a: Seq<char>, b: Seq<char>)
    ensures
        displacement(a + b) == displacement(a) + displacement(b),
    decreases b.len(),
{
    if b.len() > 0 {
        lemma_disp_concat(a, b.drop_last());
        assert((a + b).drop_last() =~= a + b.drop_last());
    } else {
        assert(a + b =~= a);
    }
}

proof fn lemma_disp_repeat(c: char, n: int)
    requires
        n >= 0,
    ensures
        displacement(repeat_char(c, n)) == if c == '>' { n } else if c == '<' { -n } else { 0 },
    decreases n,
{
    if n > 0 {
        lemma_disp_repeat(c, n - 1);
        assert(repeat_char(c, n).drop_last() =~= repeat_char(c, n - 1));
    } else {
        assert(repeat_char(c, n) =~= Seq::<char>::empty());
    }
}

proof fn lemma_disp_shift(shift: int)
    ensures
        displacement(shift_prefix(shift)) == shift,
{
    if shift > 0 {
        lemma_disp_repeat('>', shift);
    } else {
        lemma_disp_repeat('<', -shift);
    }
}

/// Explicit accidental for a rendered tone: none when the key signature
/// already supplies it, else `+`, `-` or `=` for a single sharp, flat or
/// natural (and none for anything else).
pub open spec fn tone_glyph(acc: int, letter: char, ks: Seq<Option<i8>>) -> Seq<char> {
    if acc == sig_get_or_zero(ks, letter) as int {
        Seq::empty()
    } else if acc == 1 {
        seq!['+']
    } else if acc == -1 {
        seq!['-']
    } else if acc == 0 {
        seq!['=']
    } else {
        Seq::empty()
    }
}

/// The spelling a note is written with: as resolved when `preserve`,
/// otherwise respelled to at most one accidental.
pub open spec fn note_spelling(note: ResolvedNote, preserve: bool) -> Option<SpelledTone> {
    if preserve {
        Some(SpelledTone { letter: note.letter, accidental: note.accidental, octave: note.octave })
    } else {
        spec_spell_tone(note.letter, note.accidental as int, note.octave as int)
    }
}

/// Text of one spelled tone rendered from octave `cur`: the octave moves,
/// the letter, then its explicit accidental if any.
pub open spec fn note_text(sp: SpelledTone, cur: int, ks: Seq<Option<i8>>) -> Seq<char> {
    shift_prefix(sp.octave - cur) + seq![sp.letter] + tone_glyph(sp.accidental as int, sp.letter, ks)
}

/// Rendering `note` from octave `cur` stays within `i32` arithmetic.
pub open spec fn mml_note_ok(note: ResolvedNote, cur: int, preserve: bool) -> bool {
    &&& (!preserve && note.letter != 'h' && spec_root_index(note.letter) is Some)
        ==> fits_i32_int(respell(spec_root_index(note.letter)->0, note.accidental as int, note.octave as int).2)
    &&& (note_spelling(note, preserve) matches Some(sp) ==> i32::MIN < sp.octave - cur <= i32::MAX)
}

/// A rendered note and the octave it leaves the channel in.
pub open spec fn spec_mml_note(note: ResolvedNote, cur: int, ks: Seq<Option<i8>>, preserve: bool) -> Option<(Seq<char>, int)> {
    match note_spelling(note, preserve) {
        None => None,
        Some(sp) => Some((note_text(sp, cur, ks), sp.octave as int)),
    }
}

fn note_piece(note: ResolvedNote, current_octave: i32, key_sig: &KeySig, preserve_spelling: bool) -> (r: Option<(String, i32)>)
    requires
        mml_note_ok(note, current_octave as int, preserve_spelling),
    ensures
        match spec_mml_note(note, current_octave as int, key_sig@, preserve_spelling) {
            None => r is None,
            Some(x) => r matches Some(y) && y.0@ == x.0 && y.1 == x.1,
        },
{
    let spelled = if preserve_spelling {
        SpelledTone { letter: note.letter, accidental: note.accidental, octave: note.octave }
    } else {
        match spell_tone(note.letter, note.accidental, note.octave) {
            Some(t) => t,
            None => {
                return None;
            },
        }
    };
    let octave_shift = spelled.octave - current_octave;
    let mut mml = String::new();
    push_shift(&mut mml, octave_shift);
    mml.push(spelled.letter);
    if spelled.accidental != key_sig.get_or_zero(spelled.letter) as i32 {
        if spelled.accidental == 1 {
            mml.push('+');
        } else if spelled.accidental == -1 {
            mml.push('-');
        } else if spelled.accidental == 0 {
            mml.push('=');
        }
    }
    assert(mml@ =~= note_text(spelled, current_octave as int, key_sig@));
    Some((mml, spelled.octave))
}

/// Render one non-root resolved note while updating the current octave:
/// the note is respelled to at most one accidental, prefixed by the
/// `>`/`<` moves from `current_octave`, and followed by its accidental
/// when the key signature does not already supply it.
pub fn render_mml_note(note: ResolvedNote, current_octave: i32, key_sig: &KeySig) -> (r: Option<(String, i32)>)
    requires
        mml_note_ok(note, current_octave as int, false),
    ensures
        match spec_mml_note(note, current_octave as int, key_sig@, false) {
            None => r is None,
            Some(x) => r matches Some(y) && y.0@ == x.0 && y.1 == x.1,
        },
{
    note_piece(note, current_octave, key_sig, false)
}

/// Text and octave after rendering the first `n` pattern indices; indices
/// past the notes are skipped, and the root (index 0) keeps its spelling.
pub open spec fn body_fold(notes: Seq<ResolvedNote>, idx: Seq<usize>, start: int, ks: Seq<Option<i8>>, n: int) -> Option<(Seq<char>, int)>
    decreases n,
{
    if n <= 0 {
        Some((Seq::empty(), start))
    } else {
        match body_fold(notes, idx, start, ks, n - 1) {
            None => None,
            Some(st) => {
                let i = idx[n - 1] as int;
                if i >= notes.len() {
                    Some(st)
                } else {
                    match spec_mml_note(notes[i], st.1, ks, i == 0) {
                        None => None,
                        Some(x) => Some((st.0 + x.0, x.1)),
                    }
                }
            },
        }
    }
}

/// Every note of the first `n` pattern indices renders within `i32`
/// arithmetic.
pub open spec fn body_ok(notes: Seq<ResolvedNote>, idx: Seq<usize>, start: int, ks: Seq<Option<i8>>, n: int) -> bool
    decreases n,
{
    if n <= 0 {
        true
    } else {
        &&& body_ok(notes, idx, start, ks, n - 1)
        &&& match body_fold(notes, idx, start, ks, n - 1) {
            None => true,
            Some(st) => {
                let i = idx[n - 1] as int;
                i >= notes.len() || mml_note_ok(notes[i], st.1, i == 0)
            },
        }
    }
}

/// The arpeggio body for `idx`: the rendered notes, then the `<`/`>` moves
/// that cancel their net octave displacement.
pub open spec fn spec_arpeggio_body(notes: Seq<ResolvedNote>, idx: Seq<usize>, start: int, ks: Seq<Option<i8>>) -> Option<Seq<char>> {
    match body_fold(notes, idx, start, ks, idx.len() as int) {
        None => None,
        Some(st) => Some(st.0 + shift_prefix(-displacement(st.0))),
    }
}

/// Render a pattern-indexed sequence of resolved chord tones. The body
/// always ends in the octave it started in.
pub fn render_arpeggio_body(
    notes: &[ResolvedNote],
    pattern_indices: &[usize],
    starting_octave: i32,
    key_sig: &KeySig,
) -> (r: Option<String>)
    requires
        body_ok(notes@, pattern_indices@, starting_octave as int, key_sig@, pattern_indices@.len() as int),
    ensures
        match spec_arpeggio_body(notes@, pattern_indices@, starting_octave as int, key_sig@) {
            None => r is None,
            Some(t) => r matches Some(s) && s@ == t,
        },
        r matches Some(s) ==> displacement(s@) == 0,
{
    let ghost nv = notes@;
    let ghost iv = pattern_indices@;
    let ghost ks = key_sig@;
    let mut current_octave = starting_octave;
    let mut result = String::new();
    let mut net: i128 = 0;
    let mut j: usize = 0;
    while j < pattern_indices.len()
        invariant
            nv == notes@,
            iv == pattern_indices@,
            ks == key_sig@,
            j <= iv.len(),
            body_ok(nv, iv, starting_octave as int, ks, iv.len() as int),
            body_fold(nv, iv, starting_octave as int, ks, j as int) == Some((result@, current_octave as int)),
            net == displacement(result@),
            -(j as int) * 0x1_0000_0001 <= net <= (j as int) * 0x1_0000_0001,
        decreases iv.len() - j,
    {
        proof {
            assert forall|m: int| 0 <= m <= iv.len() implies (#[trigger] body_ok(nv, iv, starting_octave as int, ks, m)) by {
                lemma_body_ok_prefix(nv, iv, starting_octave as int, ks, iv.len() as int, m);
            }
            assert(body_ok(nv, iv, starting_octave as int, ks, j + 1));
        }
        let index = pattern_indices[j];
        if index >= notes.len() {
            j += 1;
            continue;
        }
        let note = notes[index];
        let (mml, new_octave) = match note_piece(note, current_octave, key_sig, index == 0) {
            Some(x) => x,
            None => {
                proof {
                    lemma_body_none(nv, iv, starting_octave as int, ks, j + 1, iv.len() as int);
                }
                return None;
            },
        };
        let ghost sp = note_spelling(note, index == 0)->0;
        let d: i128 = (new_octave as i128 - current_octave as i128) + if note_letter_is(&note, '>') { 1i128 } else if note_letter_is(&note, '<') { -1i128 } else { 0i128 };
        proof {
            lemma_note_text_disp(sp, current_octave as int, ks);
            lemma_disp_concat(result@, mml@);
        }
        push_string(&mut result, &mml);
        net = net + d;
        current_octave = new_octave;
        j += 1;
    }
    let ghost body = result@;
    proof {
        lemma_disp_shift(-net as int);
        lemma_disp_concat(body, shift_prefix(-net as int));
    }
    if net > 0 {
        push_repeat_wide(&mut result, '<', net);
    } else if net < 0 {
        push_repeat_wide(&mut result, '>', -net);
    }
    assert(result@ =~= body + shift_prefix(-displacement(body)));
    Some(result)
}

fn note_letter_is(note: &ResolvedNote, c: char) -> (r: bool)
    ensures
        r == (note.letter == c),
{
    note.letter == c
}

fn push_repeat_wide(s: &mut String, c: char, n: i128)
    requires
        n >= 0,
    ensures
        final(s)@ == old(s)@ + repeat_char(c, n as int),
{
    let mut i: i128 = 0;
    while i < n
        invariant
            0 <= i <= n,
            s@ == old(s)@ + repeat_char(c, i as int),
        decreases n - i,
    {
        s.push(c);
        assert(old(s)@ + repeat_char(c, i + 1) =~= (old(s)@ + repeat_char(c, i as int)).push(c));
        i += 1;
    }
}

proof fn lemma_note_text_disp(sp: SpelledTone, cur: int, ks: Seq<Option<i8>>)
    ensures
        displacement(note_text(sp, cur, ks)) == sp.octave - cur + char_disp(sp.letter),
{
    let a = shift_prefix(sp.octave - cur);
    let g = tone_glyph(sp.accidental as int, sp.letter, ks);
    lemma_disp_shift(sp.octave - cur);
    lemma_disp_concat(a, seq![sp.letter]);
    lemma_disp_concat(a + seq![sp.letter], g);
    assert(seq![sp.letter].drop_last() =~= Seq::<char>::empty());
    assert(displacement(Seq::<char>::empty()) == 0);
    assert(displacement(seq![sp.letter]) == char_disp(sp.letter));
    if g.len() > 0 {
        assert(g.drop_last() =~= Seq::<char>::empty());
        assert(displacement(g) == 0);
    } else {
        assert(displacement(g) == 0);
    }
}

proof fn lemma_body_none(notes: Seq<ResolvedNote>, idx: Seq<usize>, start: int, ks: Seq<Option<i8>>, n: int, m: int)
    requires
        0 <= n <= m,
        body_fold(notes, idx, start, ks, n) is None,
    ensures
        body_fold(notes, idx, start, ks, m) is None,
    decreases m - n,
{
    if n < m {
        lemma_body_none(notes, idx, start, ks, n, m - 1);
    }
}

proof fn lemma_body_ok_prefix(notes: Seq<ResolvedNote>, idx: Seq<usize>, start: int, ks: Seq<Option<i8>>, n: int, m: int)
    requires
        body_ok(notes, idx, start, ks, n),
        0 <= m <= n,
    ensures
        body_ok(notes, idx, start, ks, m),
    decreases n - m,
{
    if m < n {
        lemma_body_ok_prefix(notes, idx, start, ks, n - 1, m);
    }
}

/// Notes with octaves within `±500_000_000` and accidentals within
/// `±1000` render within `i32` arithmetic from any such start.
pub proof fn lemma_body_ok_bounded(notes: Seq<ResolvedNote>, idx: Seq<usize>, start: int, ks: Seq<Option<i8>>, n: int)
    requires
        0 <= n <= idx.len(),
        forall|i: int| 0 <= i < notes.len() ==> -500_000_000 <= (#[trigger] notes[i]).octave <= 500_000_000
            && -1000 <= notes[i].accidental <= 1000,
        -500_000_000 <= start <= 500_000_000,
    ensures
        body_ok(notes, idx, start, ks, n),
        body_fold(notes, idx, start, ks, n) matches Some(st) ==> -500_001_000 <= st.1 <= 500_001_000,
    decreases n,
{
    if n > 0 {
        lemma_body_ok_bounded(notes, idx, start, ks, n - 1);
        match body_fold(notes, idx, start, ks, n - 1) {
            Some(st) => {
                let i = idx[n - 1] as int;
                if i < notes.len() {
                    let note = notes[i];
                    if note.letter != 'h' && spec_root_index(note.letter) is Some {
                        lemma_respell(spec_root_index(note.letter)->0, note.accidental as int, note.octave as int);
                    }
                }
            },
            None => {},
        }
    }
}

/// A named chord (letter steps and intervals) rendered as an arpeggio
/// from `starting_octave`: ascending for `None`, else in pattern order;
/// `None` when the root is no letter or the chord has fewer tones than
/// the pattern needs.
pub open spec fn spec_chord_arpeggio_parts(
    root: char,
    acc: Option<RootAccidental>,
    steps: Seq<i32>,
    intervals: Seq<i32>,
    ks: Seq<Option<i8>>,
    start: int,
    p: Option<ArpeggioPattern>,
) -> Option<Seq<char>> {
    match spec_resolve(root, acc, steps, intervals, ks, start) {
        None => None,
        Some(notes) => match p {
            None => spec_arpeggio_body(notes, pattern_indices(ArpeggioPattern::Up, notes.len() as int), start, ks),
            Some(pat) => if notes.len() < pattern_min_notes(pat) {
                None
            } else if pattern_indices(pat, notes.len() as int).len() == 0 {
                None
            } else {
                spec_arpeggio_body(notes, pattern_indices(pat, notes.len() as int), start, ks)
            },
        },
    }
}

/// A named chord rendered as an arpeggio (see
/// [`spec_chord_arpeggio_parts`]).
pub open spec fn spec_chord_arpeggio(
    root: char,
    acc: Option<RootAccidental>,
    d: ChordDef,
    ks: Seq<Option<i8>>,
    start: int,
    p: Option<ArpeggioPattern>,
) -> Option<Seq<char>> {
    spec_chord_arpeggio_parts(root, acc, d.letter_steps@, d.intervals@, ks, start, p)
}

/// The resolved tones of a named chord render within `i32` arithmetic
/// in the order `p` (ascending for `None`) visits them.
pub open spec fn chord_arpeggio_ok(
    root: char,
    acc: Option<RootAccidental>,
    d: ChordDef,
    ks: Seq<Option<i8>>,
    start: int,
    p: Option<ArpeggioPattern>,
) -> bool {
    &&& d.letter_steps@.len() >= d.intervals@.len()
    &&& resolve_fits(root, acc, d.letter_steps@, d.intervals@, ks, start)
    &&& (spec_resolve(root, acc, d.letter_steps@, d.intervals@, ks, start) matches Some(notes) ==> {
        let idx = match p {
            None => pattern_indices(ArpeggioPattern::Up, notes.len() as int),
            Some(pat) => pattern_indices(pat, notes.len() as int),
        };
        body_ok(notes, idx, start, ks, idx.len() as int)
    })
}

/// Render a named chord as a plain ascending arpeggio.
pub fn render_chord_arpeggio(
    root_letter: char,
    root_accidental: Option<RootAccidental>,
    def: &ChordDef,
    key_sig: &KeySig,
    starting_octave: i32,
) -> (r: Option<String>)
    requires
        chord_arpeggio_ok(root_letter, root_accidental, *def, key_sig@, starting_octave as int, None),
    ensures
        match spec_chord_arpeggio(root_letter, root_accidental, *def, key_sig@, starting_octave as int, None) {
            None => r is None,
            Some(t) => r matches Some(s) && s@ == t,
        },
        r matches Some(s) ==> displacement(s@) == 0,
{
    let notes = match resolve_chord_notes(root_letter, root_accidental, def, key_sig, starting_octave) {
        Some(n) => n,
        None => {
            return None;
        },
    };
    let indices = ArpeggioPattern::Up.indices(notes.len());
    render_arpeggio_body(notes.as_slice(), indices.as_slice(), starting_octave, key_sig)
}

/// Render a named chord using one of the five configured patterns;
/// `None` when the chord has fewer tones than the pattern needs.
pub fn render_chord_arpeggio_with_pattern(
    root_letter: char,
    root_accidental: Option<RootAccidental>,
    def: &ChordDef,
    key_sig: &KeySig,
    starting_octave: i32,
    pattern: ArpeggioPattern,
) -> (r: Option<String>)
    requires
        chord_arpeggio_ok(root_letter, root_accidental, *def, key_sig@, starting_octave as int, Some(pattern)),
    ensures
        match spec_chord_arpeggio(root_letter, root_accidental, *def, key_sig@, starting_octave as int, Some(pattern)) {
            None => r is None,
            Some(t) => r matches Some(s) && s@ == t,
        },
        r matches Some(s) ==> displacement(s@) == 0,
{
    let notes = match resolve_chord_notes(root_letter, root_accidental, def, key_sig, starting_octave) {
        Some(n) => n,
        None => {
            return None;
        },
    };
    if notes.len() < pattern.min_notes() {
        return None;
    }
    let indices = pattern.indices(notes.len());
    if indices.len() == 0 {
        return None;
    }
    render_arpeggio_body(notes.as_slice(), indices.as_slice(), starting_octave, key_sig)
}

/// The first `n` tones of the generic diatonic chord on letter index `ri`:
/// every second letter from the root, the root with its typed (or key
/// signature) accidental and the others with the key signature's, each
/// in the lowest octave that puts it above the previous tone.
pub open spec fn generic_arp_notes(ri: int, acc: Option<RootAccidental>, ks: Seq<Option<i8>>, start: int, n: int) -> Seq<ResolvedNote>
    decreases n,
{
    if n <= 0 {
        Seq::empty()
    } else {
        let prev = generic_arp_notes(ri, acc, ks, start, n - 1);
        let k = n - 1;
        let letter = letter_at((ri + 2 * k) % 7);
        let pc = natural_sem(letter)->0;
        let a = if k == 0 { root_acc_of(letter, acc, ks) } else { sig_get_or_zero(ks, letter) as int };
        let t = if k == 0 {
            (start, start * 12 + pc + a)
        } else {
            let pp = prev.last().pitch as int;
            let o0 = pp / 12;
            lift_above(o0, o0 * 12 + pc + a, pp + 1)
        };
        prev.push(ResolvedNote { letter, accidental: a as i32, octave: t.0 as i32, pitch: t.1 as i32 })
    }
}

/// A generic diatonic triad (`size` 3) or seventh (`size` 4) rendered
/// with `p`; `None` for another size, a root outside `c..b`, or a pattern
/// needing more tones.
pub open spec fn spec_generic_arpeggio(
    root: char,
    acc: Option<RootAccidental>,
    size: int,
    ks: Seq<Option<i8>>,
    start: int,
    p: ArpeggioPattern,
) -> Option<Seq<char>> {
    match letter_index_of(root) {
        None => None,
        Some(ri) => if size != 3 && size != 4 {
            None
        } else if size < pattern_min_notes(p) {
            None
        } else if pattern_indices(p, size).len() == 0 {
            None
        } else {
            spec_arpeggio_body(generic_arp_notes(ri, acc, ks, start, size), pattern_indices(p, size), start, ks)
        },
    }
}

proof fn lemma_generic_notes(ri: int, acc: Option<RootAccidental>, ks: Seq<Option<i8>>, start: int, n: int)
    requires
        0 <= ri < 7,
        0 <= n <= 4,
        -1_000_000 <= start <= 1_000_000,
    ensures
        generic_arp_notes(ri, acc, ks, start, n).len() == n,
        forall|k: int| 0 <= k < n ==> {
            let note = #[trigger] generic_arp_notes(ri, acc, ks, start, n)[k];
            let letter = letter_at((ri + 2 * k) % 7);
            &&& note.letter == letter
            &&& -128 <= note.accidental <= 127
            &&& start * 12 - 128 <= note.pitch <= start * 12 + 138 + 138 * k
            &&& start - 24 <= note.octave <= start + 60
            &&& note.pitch == note.octave * 12 + natural_sem(letter)->0 + note.accidental
        },
        forall|k: int| 0 < k < n ==> (#[trigger] generic_arp_notes(ri, acc, ks, start, n)[k]).pitch
            > generic_arp_notes(ri, acc, ks, start, n)[k - 1].pitch,
    decreases n,
{
    if n > 0 {
        lemma_generic_notes(ri, acc, ks, start, n - 1);
        let prev = generic_arp_notes(ri, acc, ks, start, n - 1);
        let cur = generic_arp_notes(ri, acc, ks, start, n);
        let k = n - 1;
        let letter = letter_at((ri + 2 * k) % 7);
        let pc = natural_sem(letter)->0;
        let a = if k == 0 { root_acc_of(letter, acc, ks) } else { sig_get_or_zero(ks, letter) as int };
        assert(0 <= pc <= 11);
        assert(-128 <= a <= 127);
        let t = if k == 0 {
            (start, start * 12 + pc + a)
        } else {
            let pp = prev.last().pitch as int;
            let o0 = pp / 12;
            lift_above(o0, o0 * 12 + pc + a, pp + 1)
        };
        if k > 0 {
            let pp = prev.last().pitch as int;
            assert(prev.last() == prev[k - 1]);
            assert(start * 12 - 128 <= pp <= start * 12 + 138 + 138 * (k - 1));
            let o0 = pp / 12;
            assert(o0 * 12 <= pp < o0 * 12 + 12);
            lemma_lift_bounds(o0, o0 * 12 + pc + a, pp + 1);
            assert(pp + 1 <= t.1 <= pp + 138);
            assert(t.1 == t.0 * 12 + pc + a);
        }
        assert(start * 12 - 128 <= t.1 <= start * 12 + 138 + 138 * k);
        assert(t.0 * 12 == t.1 - pc - a);
        assert(start - 24 <= t.0 <= start + 60);
        assert(cur.last() == ResolvedNote { letter, accidental: a as i32, octave: t.0 as i32, pitch: t.1 as i32 });
        assert forall|m: int| 0 <= m < n - 1 implies cur[m] == prev[m] by {}
    }
}

proof fn lemma_lift_shift(o: int, p: int, prev: int, d: int)
    ensures
        lift_above(o + d, p + 12 * d, prev + 12 * d) == (lift_above(o, p, prev).0 + d, lift_above(o, p, prev).1 + 12 * d),
    decreases (if p < prev { prev - p } else { 0 }),
{
    if p < prev {
        lemma_lift_shift(o + 1, p + 12, prev, d);
        assert(p + 12 * d + 12 == (p + 12) + 12 * d);
    }
}

proof fn lemma_respell_shift(li: int, acc: int, oct: int, d: int)
    ensures
        respell(li, acc, oct + d) == (respell(li, acc, oct).0, respell(li, acc, oct).1, respell(li, acc, oct).2 + d),
    decreases (if acc < 0 { -acc } else { acc }),
{
    if acc > 1 {
        lemma_respell_shift(if li == 6 { 0 } else { li + 1 }, acc - gap_up(li), if li == 6 { oct + 1 } else { oct }, d);
    } else if acc < -1 {
        lemma_respell_shift(if li == 0 { 6 } else { li - 1 }, acc + gap_down(li), if li == 0 { oct - 1 } else { oct }, d);
    }
}

/// `n` moved up by `d` octaves.
pub open spec fn octave_shifted(n: ResolvedNote, d: int) -> ResolvedNote {
    ResolvedNote { octave: (n.octave + d) as i32, pitch: (n.pitch + 12 * d) as i32, ..n }
}

#[verifier::rlimit(60)]
proof fn lemma_generic_notes_shift(ri: int, acc: Option<RootAccidental>, ks: Seq<Option<i8>>, s1: int, s2: int, n: int)
    requires
        0 <= ri < 7,
        0 <= n <= 4,
        -1_000_000 <= s1 <= 1_000_000,
        -1_000_000 <= s2 <= 1_000_000,
    ensures
        forall|k: int| 0 <= k < n ==> #[trigger] generic_arp_notes(ri, acc, ks, s2, n)[k]
            == octave_shifted(generic_arp_notes(ri, acc, ks, s1, n)[k], s2 - s1),
    decreases n,
{
    if n > 0 {
        let d = s2 - s1;
        lemma_generic_notes_shift(ri, acc, ks, s1, s2, n - 1);
        lemma_generic_notes(ri, acc, ks, s1, n);
        lemma_generic_notes(ri, acc, ks, s2, n);
        lemma_generic_notes(ri, acc, ks, s1, n - 1);
        lemma_generic_notes(ri, acc, ks, s2, n - 1);
        let p1 = generic_arp_notes(ri, acc, ks, s1, n - 1);
        let p2 = generic_arp_notes(ri, acc, ks, s2, n - 1);
        let c1 = generic_arp_notes(ri, acc, ks, s1, n);
        let c2 = generic_arp_notes(ri, acc, ks, s2, n);
        let k = n - 1;
        let letter = letter_at((ri + 2 * k) % 7);
        let pc = natural_sem(letter)->0;
        let a = if k == 0 { root_acc_of(letter, acc, ks) } else { sig_get_or_zero(ks, letter) as int };
        if k > 0 {
            assert(p1.last() == p1[k - 1]);
            assert(p2.last() == p2[k - 1]);
            let pp1 = p1.last().pitch as int;
            let pp2 = p2.last().pitch as int;
            assert(pp2 == pp1 + 12 * d);
            let o1 = pp1 / 12;
            let o2 = pp2 / 12;
            assert(o2 == o1 + d) by (nonlinear_arith)
                requires
                    pp2 == pp1 + 12 * d,
                    o1 == pp1 / 12,
                    o2 == pp2 / 12;
            lemma_lift_shift(o1, o1 * 12 + pc + a, pp1 + 1, d);
            assert((o1 + d) * 12 + pc + a == o1 * 12 + pc + a + 12 * d);
            assert(pp1 + 1 + 12 * d == pp2 + 1);
        }
        assert(c1.last() == c1[k]);
        assert(c2.last() == c2[k]);
        let t1 = if k == 0 {
            (s1, s1 * 12 + pc + a)
        } else {
            let pp = p1.last().pitch as int;
            lift_above(pp / 12, (pp / 12) * 12 + pc + a, pp + 1)
        };
        let t2 = if k == 0 {
            (s2, s2 * 12 + pc + a)
        } else {
            let pp = p2.last().pitch as int;
            lift_above(pp / 12, (pp / 12) * 12 + pc + a, pp + 1)
        };
        assert(c1[k] == ResolvedNote { letter, accidental: a as i32, octave: t1.0 as i32, pitch: t1.1 as i32 });
        assert(c2[k] == ResolvedNote { letter, accidental: a as i32, octave: t2.0 as i32, pitch: t2.1 as i32 });
        assert(t2.0 == t1.0 + d);
        assert(t2.1 == t1.1 + 12 * d);
        if k > 0 {
            let pp = p1.last().pitch as int;
            let o0 = pp / 12;
            assert(o0 * 12 <= pp < o0 * 12 + 12);
            lemma_lift_bounds(o0, o0 * 12 + pc + a, pp + 1);
            assert(-1_000_000 * 12 - 2000 <= pp <= 1_000_000 * 12 + 2000);
            assert(t1.1 == t1.0 * 12 + pc + a);
            assert(pp + 1 - 12 <= t1.1 <= pp + 12 + 200);
        }
        assert(-2_000_000 <= t1.0 <= 2_000_000);
        assert(c1[k].octave as int == t1.0);
        assert(c1[k].pitch as int == t1.1);
        assert forall|m: int| 0 <= m < n implies #[trigger] c2[m] == octave_shifted(c1[m], d) by {
            if m < n - 1 {
                assert(c1[m] == p1[m]);
                assert(c2[m] == p2[m]);
            }
        }
    }
}

proof fn lemma_mml_note_shift(n1: ResolvedNote, cur: int, d: int, ks: Seq<Option<i8>>, preserve: bool)
    requires
        spec_root_index(n1.letter) is Some,
        n1.letter != 'h',
        -128 <= n1.accidental <= 127,
        -2_000_000 <= n1.octave <= 2_000_000,
        -2_000_000 <= n1.octave + d <= 2_000_000,
    ensures
        spec_mml_note(octave_shifted(n1, d), cur + d, ks, preserve) == match spec_mml_note(n1, cur, ks, preserve) {
            None => None,
            Some(x) => Some((x.0, x.1 + d)),
        },
{
    let n2 = octave_shifted(n1, d);
    if !preserve {
        let li = spec_root_index(n1.letter)->0;
        lemma_respell(li, n1.accidental as int, n1.octave as int);
        lemma_respell_shift(li, n1.accidental as int, n1.octave as int, d);
        lemma_letter_sem_bounds(li);
        lemma_letter_sem_bounds(respell(li, n1.accidental as int, n1.octave as int).0);
        assert(n2.octave as int == n1.octave + d);
    }
    match note_spelling(n1, preserve) {
        None => {},
        Some(sp1) => {
            let sp2 = note_spelling(n2, preserve)->0;
            assert(sp2.octave - (cur + d) == sp1.octave - cur);
        },
    }
}

/// A note that renders the same way one octave band up or down.
pub open spec fn shiftable_note(n: ResolvedNote, d: int) -> bool {
    &&& spec_root_index(n.letter) is Some
    &&& n.letter != 'h'
    &&& -128 <= n.accidental <= 127
    &&& -2_000_000 <= n.octave <= 2_000_000
    &&& -2_000_000 <= n.octave + d <= 2_000_000
}

proof fn lemma_body_fold_shift(notes1: Seq<ResolvedNote>, notes2: Seq<ResolvedNote>, idx: Seq<usize>, s1: int, d: int, ks: Seq<Option<i8>>, n: int)
    requires
        notes2.len() == notes1.len(),
        forall|k: int| 0 <= k < notes1.len() ==> #[trigger] notes2[k] == octave_shifted(notes1[k], d),
        forall|k: int| 0 <= k < notes1.len() ==> shiftable_note(#[trigger] notes1[k], d),
    ensures
        body_fold(notes2, idx, s1 + d, ks, n) == match body_fold(notes1, idx, s1, ks, n) {
            None => None,
            Some(st) => Some((st.0, st.1 + d)),
        },
    decreases n,
{
    if n > 0 {
        lemma_body_fold_shift(notes1, notes2, idx, s1, d, ks, n - 1);
        match body_fold(notes1, idx, s1, ks, n - 1) {
            None => {},
            Some(st) => {
                let i = idx[n - 1] as int;
                if i < notes1.len() {
                    assert(shiftable_note(notes1[i], d));
                    lemma_mml_note_shift(notes1[i], st.1, d, ks, i == 0);
                }
            },
        }
    }
}

/// A generic arpeggio renders the same text from any starting octave
/// (within a million): only relative octave moves are written, and the
/// body returns to its start.
pub proof fn law_generic_arpeggio_octave_free(
    root: char,
    acc: Option<RootAccidental>,
    size: int,
    ks: Seq<Option<i8>>,
    p: ArpeggioPattern,
    o1: int,
    o2: int,
)
    requires
        -1_000_000 <= o1 <= 1_000_000,
        -1_000_000 <= o2 <= 1_000_000,
    ensures
        spec_generic_arpeggio(root, acc, size, ks, o1, p) == spec_generic_arpeggio(root, acc, size, ks, o2, p),
{
    match letter_index_of(root) {
        None => {},
        Some(ri) => {
            if (size == 3 || size == 4) && size >= pattern_min_notes(p) && pattern_indices(p, size).len() != 0 {
                let d = o2 - o1;
                let n1 = generic_arp_notes(ri, acc, ks, o1, size);
                let n2 = generic_arp_notes(ri, acc, ks, o2, size);
                lemma_generic_notes(ri, acc, ks, o1, size);
                lemma_generic_notes(ri, acc, ks, o2, size);
                lemma_generic_notes_shift(ri, acc, ks, o1, o2, size);
                assert forall|k: int| 0 <= k < n1.len() implies shiftable_note(#[trigger] n1[k], d) by {
                    let li = (ri + 2 * k) % 7;
                    crate::chord::lemma_letter_sem(li);
                }
                let idx = pattern_indices(p, size);
                lemma_body_fold_shift(n1, n2, idx, o1, d, ks, idx.len() as int);
                assert(o1 + d == o2);
            }
        },
    }
}

proof fn lemma_letter_sem_bounds(i: int)
    requires
        0 <= i < 7,
    ensures
        0 <= natural_sem(letter_at(i))->0 <= 11,
{
}

/// Render a generic diatonic triad (`size` 3) or seventh (`size` 4) as a
/// patterned arpeggio.
pub fn render_generic_arpeggio(
    root_letter: char,
    root_accidental: Option<RootAccidental>,
    size: usize,
    key_sig: &KeySig,
    starting_octave: i32,
    pattern: ArpeggioPattern,
) -> (r: Option<String>)
    requires
        -1_000_000 <= starting_octave <= 1_000_000,
    ensures
        match spec_generic_arpeggio(root_letter, root_accidental, size as int, key_sig@, starting_octave as int, pattern) {
            None => r is None,
            Some(t) => r matches Some(s) && s@ == t,
        },
        r matches Some(s) ==> displacement(s@) == 0,
{
    let root_index = match letter_index(root_letter) {
        Some(i) => i,
        None => {
            return None;
        },
    };
    if size != 3 && size != 4 {
        return None;
    }
    let ghost ri = root_index as int;
    let ghost ks = key_sig@;
    let ghost start = starting_octave as int;
    let letters = chord_letters();
    let mut notes: Vec<ResolvedNote> = Vec::new();
    let mut k: usize = 0;
    proof {
        lemma_generic_notes(ri, root_accidental, ks, start, size as int);
    }
    while k < size
        invariant
            ks == key_sig@,
            0 <= ri < 7,
            ri == root_index,
            start == starting_octave,
            -1_000_000 <= start <= 1_000_000,
            size == 3 || size == 4,
            k <= size,
            forall|m: int| 0 <= m < 7 ==> letters@[m] == letter_at(m),
            letter_index_of(root_letter) == Some(ri),
            notes@ == generic_arp_notes(ri, root_accidental, ks, start, k as int),
        decreases size - k,
    {
        proof {
            lemma_generic_notes(ri, root_accidental, ks, start, k as int);
            lemma_generic_notes(ri, root_accidental, ks, start, k + 1);
        }
        let ghost want = generic_arp_notes(ri, root_accidental, ks, start, k + 1)[k as int];
        let letter = letters[(root_index + 2 * k) % 7];
        let natural_pc = match chord_natural_semitones(letter) {
            Some(v) => v,
            None => 0,
        };
        let accidental: i32 = if k == 0 {
            match root_accidental {
                Some(a) => root_accidental_value(a),
                None => key_sig.get_or_zero(letter) as i32,
            }
        } else {
            key_sig.get_or_zero(letter) as i32
        };
        let mut octave: i32;
        let mut pitch: i32;
        if k == 0 {
            octave = starting_octave;
            pitch = octave * 12 + natural_pc + accidental;
        } else {
            let prev = notes[k - 1].pitch;
            assert(notes@.last() == notes@[k - 1]);
            octave = floor_div_12(prev);
            pitch = octave * 12 + natural_pc + accidental;
            let ghost target = lift_above(octave as int, pitch as int, prev + 1);
            proof {
                lemma_lift_bounds(octave as int, pitch as int, prev + 1);
            }
            while pitch <= prev
                invariant
                    lift_above(octave as int, pitch as int, prev + 1) == target,
                    pitch == octave * 12 + natural_pc + accidental,
                    octave <= target.0,
                    target.0 == want.octave,
                    target.1 == want.pitch,
                    -1_000_000 - 24 <= want.octave <= 1_000_000 + 60,
                    -13_000_000 <= pitch,
                    -128 <= accidental <= 127,
                    0 <= natural_pc <= 11,
                decreases target.0 - octave,
            {
                proof {
                    lemma_lift_bounds(octave as int + 1, pitch as int + 12, prev + 1);
                }
                octave = octave + 1;
                pitch = octave * 12 + natural_pc + accidental;
            }
            proof {
                lemma_lift_bounds(octave as int, pitch as int, prev + 1);
            }
        }
        let note = ResolvedNote { letter, accidental, octave, pitch };
        assert(note == want);
        let ghost before = notes@;
        notes.push(note);
        assert(notes@ =~= generic_arp_notes(ri, root_accidental, ks, start, k + 1));
        k += 1;
    }
    if notes.len() < pattern.min_notes() {
        return None;
    }
    let indices = pattern.indices(notes.len());
    if indices.len() == 0 {
        return None;
    }
    proof {
        lemma_generic_notes(ri, root_accidental, ks, start, size as int);
        lemma_body_ok_bounded(notes@, indices@, start, ks, indices@.len() as int);
    }
    render_arpeggio_body(notes.as_slice(), indices.as_slice(), starting_octave, key_sig)
}

/// Every named chord with its tone count: the triads (3), then the
/// four-note chords (4).
pub fn chord_defs_for_arpeggio() -> (r: Vec<(ChordDef, usize)>)
    ensures
        r@.len() == 16,
        forall|i: int| 0 <= i < 7 ==> (#[trigger] r@[i]).1 == 3 && table_shaped(r@[i].0) && r@[i].0.letter_steps@.len() == 3
            && def_matches(r@[i].0, chord3_table()[i]),
        forall|i: int| 7 <= i < 16 ==> (#[trigger] r@[i]).1 == 4 && table_shaped(r@[i].0) && r@[i].0.letter_steps@.len() == 4
            && def_matches(r@[i].0, chord4_table()[i - 7]),
{
    let mut a = chords_3();
    let mut b = chords_4();
    let mut out: Vec<(ChordDef, usize)> = Vec::new();
    let ghost a0 = a@;
    let mut i: usize = 0;
    while a.len() > 0
        invariant
            a0.len() == 7,
            forall|k: int| 0 <= k < a0.len() ==> table_shaped(#[trigger] a0[k]) && a0[k].letter_steps@.len() == 3
                && def_matches(a0[k], chord3_table()[k]),
            i <= 7,
            a@ == a0.subrange(i as int, 7),
            out@.len() == i,
            forall|k: int| 0 <= k < i ==> (#[trigger] out@[k]).1 == 3 && out@[k].0 == a0[k],
        decreases a@.len(),
    {
        let d = a.remove(0);
        assert(d == a0[i as int]);
        out.push((d, 3));
        assert(a@ =~= a0.subrange(i + 1, 7));
        i += 1;
    }
    let ghost b0 = b@;
    let mut j: usize = 0;
    while b.len() > 0
        invariant
            b0.len() == 9,
            forall|k: int| 0 <= k < b0.len() ==> table_shaped(#[trigger] b0[k]) && b0[k].letter_steps@.len() == 4
                && def_matches(b0[k], chord4_table()[k]),
            forall|k: int| 0 <= k < a0.len() ==> table_shaped(#[trigger] a0[k]) && a0[k].letter_steps@.len() == 3
                && def_matches(a0[k], chord3_table()[k]),
            j <= 9,
            b@ == b0.subrange(j as int, 9),
            out@.len() == 7 + j,
            forall|k: int| 0 <= k < 7 ==> (#[trigger] out@[k]).1 == 3 && out@[k].0 == a0[k],
            forall|k: int| 7 <= k < 7 + j ==> (#[trigger] out@[k]).1 == 4 && out@[k].0 == b0[k - 7],
        decreases b@.len(),
    {
        let d = b.remove(0);
        assert(d == b0[j as int]);
        out.push((d, 4));
        assert(b@ =~= b0.subrange(j + 1, 9));
        j += 1;
    }
    assert forall|k: int| 0 <= k < 7 implies (#[trigger] out@[k]).1 == 3 && table_shaped(out@[k].0) && out@[k].0.letter_steps@.len() == 3
        && def_matches(out@[k].0, chord3_table()[k]) by {
        assert(out@[k].0 == a0[k]);
    }
    assert forall|k: int| 7 <= k < 16 implies (#[trigger] out@[k]).1 == 4 && table_shaped(out@[k].0) && out@[k].0.letter_steps@.len() == 4
        && def_matches(out@[k].0, chord4_table()[k - 7]) by {
        assert(out@[k].0 == b0[k - 7]);
    }
    out
}


/// A chord from the tables renders as an arpeggio from octave 4 within
/// `i32` arithmetic, for any root letter, accidental, key signature and
/// pattern.
pub proof fn lemma_named_arpeggio_ok(root: char, acc: Option<RootAccidental>, d: ChordDef, ks: Seq<Option<i8>>, p: Option<ArpeggioPattern>)
    requires
        table_shaped(d),
    ensures
        chord_arpeggio_ok(root, acc, d, ks, 4, p),
{
    match letter_index_of(root) {
        None => {},
        Some(ri) => {
            let rp = 48 + natural_sem(root).unwrap() + root_acc_of(root, acc, ks);
            assert(-128 <= root_acc_of(root, acc, ks) <= 127);
            assert forall|k: int| 0 <= k < d.intervals@.len() implies {
                let target = rp + #[trigger] d.intervals@[k];
                let lp = ri + d.letter_steps@[k];
                let octave = 4 + lp / 7;
                let n12 = octave * 12;
                let natural = n12 + natural_sem(letter_at(lp % 7)).unwrap();
                &&& 0 <= d.letter_steps@[k]
                &&& fits_i32(target) && fits_i32(octave) && fits_i32(n12) && fits_i32(natural)
                &&& fits_i32(target - natural)
            } by {
                let lp = ri + d.letter_steps@[k];
                assert(0 <= d.letter_steps@[k] <= 6);
                assert(0 <= lp <= 12);
                assert(4 <= 4 + lp / 7 <= 5);
                assert(natural_sem(letter_at(lp % 7)) is Some);
            }
            assert(resolve_fits(root, acc, d.letter_steps@, d.intervals@, ks, 4));
            let notes = spec_resolve(root, acc, d.letter_steps@, d.intervals@, ks, 4).unwrap();
            assert forall|i: int| 0 <= i < notes.len() implies -500_000_000 <= (#[trigger] notes[i]).octave <= 500_000_000
                && -1000 <= notes[i].accidental <= 1000 by {
                let lp = ri + d.letter_steps@[i];
                assert(0 <= d.letter_steps@[i] <= 6);
                assert(0 <= d.intervals@[i] <= 11);
                assert(4 <= 4 + lp / 7 <= 5);
                assert(natural_sem(letter_at(lp % 7)) is Some);
            }
            let idx = match p {
                None => pattern_indices(ArpeggioPattern::Up, notes.len() as int),
                Some(pat) => pattern_indices(pat, notes.len() as int),
            };
            lemma_body_ok_bounded(notes, idx, 4, ks, idx.len() as int);
        },
    }
}

} // verus!
