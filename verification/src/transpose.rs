//! Semitone transposition of an MML selection.
//!
//! Lift → Transform → Lower:
//!  1. Scan the selection forward, tracking the octave of every channel
//!     (`{a/b/c}` branches address their own channel), and compute the
//!     absolute pitch of every note.
//!  2. Shift every pitch by one semitone up or down.
//!  3. Rewrite the selection: every note is respelled for its new pitch,
//!     original `>`/`<` are dropped and regenerated where a note crosses
//!     an octave, and compensating `>`/`<` keep the text after the
//!     selection (and later branches of a chord) at their old octaves.
//!     Everything else is copied unchanged.

use vstd::prelude::*;
use vstd::string::StringSliceAdditionalSpecFns;
use vstd::utf8::{decode_utf8, encode_utf8};
use crate::strings::{digits_value, digit_run_end, byte_find, lemma_digit_run_end, scan_digits, parse_digits_u32, find_byte, lemma_byte_find, lemma_byte_find_suffix};
use crate::key_sig::{KeySig, parse_key_sig};
use crate::text_scan::{comment_before, in_key_sig, at_boundary, is_in_comment, is_in_key_sig, sub_str, lemma_ascii_then_boundary};
use crate::key_sig::{sig_get_or_zero, spec_parse_key_sig, spec_scan_key_sig, scan_raw_end, segment_end, keysig_scan_stops};
use crate::track_selector::{LineReader, line_bytes, leading_selector, enclosing_selector};
use crate::brace_state::{BraceState, BraceModel, model_active, model_set, model_shift, model_open, model_slash, model_close, shift_fits};
use crate::octave_scan::{spec_channel_scan, brace_model_of, scan_brace_state_at};
use crate::key_sig::scan_key_sig_at;
use crate::track_selector::find_enclosing_track_selector;
use crate::strings::str_eq;
use crate::chord::{natural_sem, chord_natural_semitones, push_repeat, repeat_char};
use crate::strings::{str_chars, push_chars};

verus! {

/// Transposition direction.
#[derive(Debug, Clone, Copy, PartialEq, Eq)]
pub enum Direction {
    Up,
    Down,
}

/// `+1` up, `-1` down.
pub open spec fn dir_delta(d: Direction) -> int {
    match d {
        Direction::Up => 1,
        Direction::Down => -1,
    }
}

/// A 1-based selection range (line and column of its start and end).
#[derive(Debug, Clone, Copy, PartialEq, Eq)]
pub struct Selection {
    pub start_line_number: u32,
    pub start_column: u32,
    pub end_line_number: u32,
    pub end_column: u32,
}

/// Replace the selection range with `text`.
#[derive(Debug, Clone, PartialEq, Eq)]
pub struct TransposeEdit {
    pub start_line_number: u32,
    pub start_column: u32,
    pub end_line_number: u32,
    pub end_column: u32,
    pub text: String,
}

// ---------------------------------------------------------------------------
// Byte classes
// ---------------------------------------------------------------------------

pub open spec fn is_ascii_letter(b: u8) -> bool {
    (0x41u8 <= b <= 0x5Au8) || (0x61u8 <= b <= 0x7Au8)
}

/// `a..=h` in either case.
pub open spec fn is_note_byte(b: u8) -> bool {
    (0x61u8 <= b <= 0x68u8) || (0x41u8 <= b <= 0x48u8)
}

pub open spec fn is_accidental_byte(b: u8) -> bool {
    b == 0x2Bu8 || b == 0x2Du8 || b == 0x3Du8
}

pub open spec fn is_alnum(b: u8) -> bool {
    is_ascii_letter(b) || (0x30u8 <= b <= 0x39u8)
}

/// The byte at `i`, or `0` outside `b`.
pub open spec fn byte_at(b: Seq<u8>, i: int) -> u8 {
    if 0 <= i < b.len() { b[i] } else { 0 }
}

/// A run of ASCII digits starting at `s` read as a `u32`: its value and
/// length, or `None` when there is no digit or the value overflows.
pub open spec fn lead_u32(b: Seq<u8>, s: int) -> Option<(u32, int)> {
    let e = digit_run_end(b, s);
    if e == s || digits_value(b.subrange(s, e)) > u32::MAX {
        None
    } else {
        Some((digits_value(b.subrange(s, e)) as u32, e - s))
    }
}

/// `n` copies of the byte `c`.
pub open spec fn repeat_byte(c: u8, n: int) -> Seq<u8> {
    Seq::new(if n < 0 { 0 } else { n as nat }, |i: int| c)
}

/// `>` per octave up, `<` per octave down.
pub open spec fn shift_bytes(shift: int) -> Seq<u8> {
    if shift > 0 { repeat_byte(0x3Eu8, shift) } else { repeat_byte(0x3Cu8, -shift) }
}

/// The effective octave at a state: the active branch's channel, else the
/// shared octave.
pub open spec fn current_octave(m: BraceModel) -> int {
    match model_active(m) {
        Some(c) => m.octaves[c] as int,
        None => m.shared,
    }
}

// ---------------------------------------------------------------------------
// Spelling
// ---------------------------------------------------------------------------

/// The natural letters in pitch order.
pub open spec fn note_letter(k: int) -> char {
    if k == 0 { 'c' } else if k == 1 { 'd' } else if k == 2 { 'e' } else if k == 3 { 'f' }
    else if k == 4 { 'g' } else if k == 5 { 'a' } else { 'b' }
}

/// First letter index from `k` whose key-signature-adjusted pitch class is
/// `semi`.
pub open spec fn first_adjusted(ks: Seq<Option<i8>>, semi: int, k: int) -> Option<int>
    decreases 7 - k,
{
    if k < 0 || k >= 7 {
        None
    } else if (natural_sem(note_letter(k))->0 + sig_get_or_zero(ks, note_letter(k)) as int) % 12 == semi {
        Some(k)
    } else {
        first_adjusted(ks, semi, k + 1)
    }
}

/// First letter index from `k` whose natural pitch class is `semi` while
/// the key signature alters it.
pub open spec fn first_natural_altered(ks: Seq<Option<i8>>, semi: int, k: int) -> Option<int>
    decreases 7 - k,
{
    if k < 0 || k >= 7 {
        None
    } else if natural_sem(note_letter(k))->0 == semi && sig_get_or_zero(ks, note_letter(k)) != 0 {
        Some(k)
    } else {
        first_natural_altered(ks, semi, k + 1)
    }
}

/// Preferred spelling of pitch class `semi`: sharps going up, flats going
/// down (letter, accidental `+1`/`-1`/`0`).
pub open spec fn preferred_spelling(semi: int, d: Direction) -> (char, int) {
    match d {
        Direction::Up => if semi == 0 { ('c', 0) } else if semi == 1 { ('c', 1) } else if semi == 2 { ('d', 0) }
            else if semi == 3 { ('d', 1) } else if semi == 4 { ('e', 0) } else if semi == 5 { ('f', 0) }
            else if semi == 6 { ('f', 1) } else if semi == 7 { ('g', 0) } else if semi == 8 { ('g', 1) }
            else if semi == 9 { ('a', 0) } else if semi == 10 { ('a', 1) } else { ('b', 0) },
        Direction::Down => if semi == 0 { ('c', 0) } else if semi == 1 { ('d', -1) } else if semi == 2 { ('d', 0) }
            else if semi == 3 { ('e', -1) } else if semi == 4 { ('e', 0) } else if semi == 5 { ('f', 0) }
            else if semi == 6 { ('g', -1) } else if semi == 7 { ('g', 0) } else if semi == 8 { ('a', -1) }
            else if semi == 9 { ('a', 0) } else if semi == 10 { ('b', -1) } else { ('b', 0) },
    }
}

/// The text of an explicit accidental.
pub open spec fn acc_text(a: int) -> Seq<u8> {
    if a > 0 { seq![0x2Bu8] } else if a < 0 { seq![0x2Du8] } else { Seq::empty() }
}

/// How pitch class `semi` is written under key signature `ks`: a letter
/// the key signature already raises or lowers onto it (no accidental),
/// else a natural the key signature alters (`=`), else the preferred
/// spelling for the direction, dropping an accidental the key signature
/// already gives and neutralising one it gives a natural.
pub open spec fn spell_semitone(semi: int, ks: Seq<Option<i8>>, d: Direction) -> (char, Seq<u8>) {
    match first_adjusted(ks, semi, 0) {
        Some(k) => (note_letter(k), Seq::empty()),
        None => match first_natural_altered(ks, semi, 0) {
            Some(k) => (note_letter(k), seq![0x3Du8]),
            None => {
                let (letter, needed) = preferred_spelling(semi, d);
                let sig = sig_get_or_zero(ks, letter) as int;
                if sig == needed {
                    (letter, Seq::empty())
                } else if needed == 0 && sig != 0 {
                    (letter, seq![0x3Du8])
                } else {
                    (letter, acc_text(needed))
                }
            },
        },
    }
}

/// Pitch class sounded by `letter` written with accidental text `acc`
/// under key signature `ks`: no accidental takes the key signature's,
/// `=` is natural, `+`/`-` raise or lower by one.
pub open spec fn written_class(letter: char, acc: Seq<u8>, ks: Seq<Option<i8>>) -> int {
    let eff = if acc.len() == 0 {
        sig_get_or_zero(ks, letter) as int
    } else if acc == seq![0x3Du8] {
        0
    } else if acc == seq![0x2Bu8] {
        1
    } else {
        -1
    };
    (natural_sem(letter)->0 + eff) % 12
}

proof fn lemma_first_adjusted(ks: Seq<Option<i8>>, semi: int, k: int)
    ensures
        first_adjusted(ks, semi, k) matches Some(j) ==> 0 <= j < 7
            && (natural_sem(note_letter(j))->0 + sig_get_or_zero(ks, note_letter(j)) as int) % 12 == semi,
    decreases 7 - k,
{
    if 0 <= k < 7 {
        lemma_first_adjusted(ks, semi, k + 1);
    }
}

proof fn lemma_first_natural_altered(ks: Seq<Option<i8>>, semi: int, k: int)
    ensures
        first_natural_altered(ks, semi, k) matches Some(j) ==> 0 <= j < 7 && natural_sem(note_letter(j))->0 == semi,
    decreases 7 - k,
{
    if 0 <= k < 7 {
        lemma_first_natural_altered(ks, semi, k + 1);
    }
}

/// Every transposed note is written so that it sounds the pitch class it
/// is given, whatever the key signature and direction.
pub proof fn law_spelling_sounds_its_semitone(semi: int, ks: Seq<Option<i8>>, d: Direction)
    requires
        0 <= semi < 12,
    ensures
        written_class(spell_semitone(semi, ks, d).0, spell_semitone(semi, ks, d).1, ks) == semi,
{
    lemma_first_adjusted(ks, semi, 0);
    lemma_first_natural_altered(ks, semi, 0);
    let (letter, needed) = preferred_spelling(semi, d);
    assert(natural_sem(letter)->0 + needed == semi);
    assert(seq![0x3Du8][0] != seq![0x2Bu8][0]);
    assert(seq![0x2Du8][0] != seq![0x2Bu8][0] && seq![0x2Du8][0] != seq![0x3Du8][0]);
}

// ---------------------------------------------------------------------------
// The selection
// ---------------------------------------------------------------------------

/// Number of lines the selection spans.
pub open spec fn sel_line_count(s: Selection) -> int {
    if s.end_line_number >= s.start_line_number { s.end_line_number - s.start_line_number + 1 } else { 0 }
}

/// Byte range `[from, to)` of the selection on its `k`-th line (whose
/// bytes are `b`).
pub open spec fn sel_range(s: Selection, k: int, b: Seq<u8>) -> (int, int) {
    let ln = s.start_line_number + k;
    let from = if ln == s.start_line_number {
        let c = if s.start_column == 0 { 0 } else { s.start_column - 1 };
        if c < b.len() { c as int } else { b.len() as int }
    } else {
        0
    };
    let to = if ln == s.end_line_number {
        let c = if s.end_column == 0 { 0 } else { s.end_column - 1 };
        if c < b.len() { c as int } else { b.len() as int }
    } else {
        b.len() as int
    };
    (from, to)
}

/// Full bytes of every selected line.
pub open spec fn sel_fulls<R: LineReader>(m: &R, s: Selection) -> Seq<Seq<u8>> {
    Seq::new(sel_line_count(s) as nat, |k: int| line_bytes(m, (s.start_line_number + k) as u32))
}

/// The selected bytes of every selected line.
pub open spec fn sel_parts<R: LineReader>(m: &R, s: Selection) -> Seq<Seq<u8>> {
    Seq::new(sel_line_count(s) as nat, |k: int| {
        let b = line_bytes(m, (s.start_line_number + k) as u32);
        let r = sel_range(s, k, b);
        b.subrange(r.0, r.1)
    })
}

/// `parts` joined with `\n`.
pub open spec fn join_nl(parts: Seq<Seq<u8>>) -> Seq<u8>
    decreases parts.len(),
{
    if parts.len() == 0 {
        Seq::empty()
    } else if parts.len() == 1 {
        parts[0]
    } else {
        join_nl(parts.drop_last()) + seq![0x0Au8] + parts.last()
    }
}

/// Every selected range is ordered and on character boundaries.
pub open spec fn selection_slices_ok<R: LineReader>(m: &R, s: Selection) -> bool {
    forall|k: int| 0 <= k < sel_line_count(s) ==> {
        let b = #[trigger] line_bytes(m, (s.start_line_number + k) as u32);
        let r = sel_range(s, k, b);
        r.0 <= r.1 && at_boundary(b, r.0) && at_boundary(b, r.1)
    }
}

/// What the scan works on.
pub struct TCtx {
    /// The selection text.
    pub sel: Seq<u8>,
    /// Full bytes of each selected line.
    pub fulls: Seq<Seq<u8>>,
    /// Selected bytes of each selected line.
    pub parts: Seq<Seq<u8>>,
    /// Byte column of the selection start on its first line.
    pub off0: int,
}

pub open spec fn tctx<R: LineReader>(m: &R, s: Selection) -> TCtx {
    TCtx {
        sel: join_nl(sel_parts(m, s)),
        fulls: sel_fulls(m, s),
        parts: sel_parts(m, s),
        off0: if s.start_column == 0 { 0 } else { s.start_column - 1 },
    }
}

// ---------------------------------------------------------------------------
// Lift
// ---------------------------------------------------------------------------

/// A note of the selection: byte offset, length (letter and accidental)
/// and absolute pitch.
pub struct Note {
    pub off: int,
    pub len: int,
    pub midi: int,
}

/// Lift scan state.
pub struct LiftSt {
    pub i: int,
    /// Index of the selected line the scan is on.
    pub li: int,
    /// Byte column within that line.
    pub col: int,
    pub st: BraceModel,
    pub ks: Seq<Option<i8>>,
    pub notes: Seq<Note>,
    /// Offsets of the original `>`/`<`.
    pub shifts: Seq<int>,
    /// Branch ends: offset of the `/` or `}` and `(channel, octave)` of the
    /// branch it closes.
    pub ends: Seq<(int, (int, int))>,
    /// The scan cannot complete (it would overflow, slice out of range or
    /// stop advancing).
    pub fail: bool,
}

/// First index at or after `i` holding `"` or `\n`, or `b.len()`.
pub open spec fn quote_stop(b: Seq<u8>, i: int) -> int
    decreases b.len() - i,
{
    if i < 0 || i >= b.len() {
        if i < 0 { 0 } else { b.len() as int }
    } else if b[i] == 0x22u8 || b[i] == 0x0Au8 {
        i
    } else {
        quote_stop(b, i + 1)
    }
}

/// The note-letter byte at `i` sits inside a keyword (`fm`, `psg`, `pcm`,
/// ...): it follows a non-note letter that itself follows one, or that a
/// non-note letter follows (after an optional accidental).
pub open spec fn inside_keyword(b: Seq<u8>, i: int) -> bool {
    let prev = byte_at(b, i - 1);
    let prev2 = byte_at(b, i - 2);
    let look = if i + 1 < b.len() && is_accidental_byte(b[i + 1]) { i + 2 } else { i + 1 };
    let after = byte_at(b, look);
    &&& is_ascii_letter(prev) && !is_note_byte(prev)
    &&& ((is_ascii_letter(prev2) && !is_note_byte(prev2)) || (is_ascii_letter(after) && !is_note_byte(after)))
}

/// One step of the lift scan at `s.i < c.sel.len()`.
pub open spec fn lift_step(c: TCtx, s: LiftSt) -> LiftSt {
    let b = c.sel;
    let i = s.i;
    let ch = b[i];
    let adv = |n: int| LiftSt { i: i + n, col: s.col + n, ..s };
    if ch == 0x0Au8 {
        LiftSt { i: i + 1, li: s.li + 1, col: 0, ..s }
    } else if s.li == 0 && s.col + c.off0 > usize::MAX {
        LiftSt { fail: true, ..s }
    } else {
        let abs = if s.li == 0 { s.col + c.off0 } else { s.col };
        let full = if 0 <= s.li < c.fulls.len() { c.fulls[s.li] } else { Seq::empty() };
        if comment_before(full, abs) {
            if s.li < 0 || s.li >= c.parts.len() || s.col >= c.parts[s.li].len()
                || s.i + (c.parts[s.li].len() - s.col) > usize::MAX {
                LiftSt { fail: true, ..s }
            } else {
                adv(c.parts[s.li].len() - s.col)
            }
        } else if in_key_sig(full, abs) {
            adv(1)
        } else if ch == 0x5Fu8 && i + 1 < b.len() && b[i + 1] == 0x7Bu8 && byte_find(b, 0x7Du8, i + 2) < b.len() {
            let close = byte_find(b, 0x7Du8, i + 2);
            LiftSt {
                i: close + 1,
                col: s.col + (close + 1 - i),
                ks: spec_parse_key_sig(decode_utf8(b.subrange(i + 2, close)), s.ks),
                ..s
            }
        } else if ch == 0x22u8 {
            let e = quote_stop(b, i + 1);
            let e2 = if e < b.len() && b[e] == 0x22u8 { e + 1 } else { e };
            adv(e2 - i)
        } else if (ch == 0x6Fu8 || ch == 0x4Fu8) && i + 1 < b.len() && lead_u32(b, i + 1) is Some {
            let (v, n) = lead_u32(b, i + 1)->0;
            LiftSt { i: i + 1 + n, col: s.col + 1 + n, st: model_set(s.st, v as i32), ..s }
        } else if ch == 0x3Eu8 || ch == 0x3Cu8 {
            let d: i32 = if ch == 0x3Eu8 { 1i32 } else { -1i32 };
            if !shift_fits(s.st, d) {
                LiftSt { fail: true, ..s }
            } else {
                LiftSt { i: i + 1, col: s.col + 1, st: model_shift(s.st, d), shifts: s.shifts.push(i), ..s }
            }
        } else if ch == 0x7Bu8 {
            let prev = byte_at(b, i - 1);
            if prev != 0x5Fu8 && s.st.depth >= u32::MAX {
                LiftSt { fail: true, ..s }
            } else {
                LiftSt { i: i + 1, col: s.col + 1, st: if prev == 0x5Fu8 { s.st } else { model_open(s.st) }, ..s }
            }
        } else if ch == 0x2Fu8 && s.st.depth > 0 {
            if s.st.branch >= usize::MAX {
                LiftSt { fail: true, ..s }
            } else {
                LiftSt {
                    i: i + 1,
                    col: s.col + 1,
                    st: model_slash(s.st),
                    ends: match model_active(s.st) {
                        Some(k) => s.ends.push((i, (k, s.st.octaves[k] as int))),
                        None => s.ends,
                    },
                    ..s
                }
            }
        } else if ch == 0x7Du8 {
            if s.st.depth > 0 {
                LiftSt {
                    i: i + 1,
                    col: s.col + 1,
                    st: model_close(s.st),
                    ends: match model_active(s.st) {
                        Some(k) => s.ends.push((i, (k, s.st.octaves[k] as int))),
                        None => s.ends,
                    },
                    ..s
                }
            } else {
                adv(1)
            }
        } else if 0x61u8 <= ch <= 0x68u8 && !inside_keyword(b, i) {
            let letter = if ch == 0x68u8 { 'b' } else { ch as char };
            let nb = byte_at(b, i + 1);
            let acc: Option<int> = if i + 1 < b.len() && nb == 0x2Bu8 { Some(1) }
                else if i + 1 < b.len() && nb == 0x2Du8 { Some(-1) }
                else if i + 1 < b.len() && nb == 0x3Du8 { Some(0) }
                else { None };
            let i2 = if acc is Some { i + 2 } else { i + 1 };
            if letter == 'f' && acc is None && i2 < b.len() && b[i2] == 0x6Du8
                && !(i2 + 1 < b.len() && is_alnum(b[i2 + 1])) {
                adv(i2 - i)
            } else {
                let ea = match acc {
                    Some(a) => a,
                    None => sig_get_or_zero(s.ks, letter) as int,
                };
                let oct = current_octave(s.st);
                let t1 = (oct - 1) * 12;
                let t2 = t1 + natural_sem(letter)->0;
                let midi = t2 + ea;
                if !(i32::MIN <= oct - 1 && i32::MIN <= t1 <= i32::MAX && t2 <= i32::MAX && i32::MIN <= midi <= i32::MAX) {
                    LiftSt { fail: true, ..s }
                } else {
                    LiftSt {
                        i: i2,
                        col: s.col + (i2 - i),
                        notes: s.notes.push(Note { off: i, len: i2 - i, midi }),
                        ..s
                    }
                }
            }
        } else {
            adv(1)
        }
    }
}

/// Run the lift scan from `s` to the end of the selection.
pub open spec fn lift(c: TCtx, s: LiftSt) -> LiftSt
    decreases c.sel.len() - s.i,
{
    if s.fail || s.i < 0 || s.i >= c.sel.len() {
        s
    } else {
        let t = lift_step(c, s);
        if t.fail {
            t
        } else if t.i <= s.i {
            LiftSt { fail: true, ..t }
        } else if t.i >= c.sel.len() {
            t
        } else {
            lift(c, t)
        }
    }
}

// ---------------------------------------------------------------------------
// Lower
// ---------------------------------------------------------------------------

/// Lower scan state: position, octave state, text written so far, the
/// length of the text up to the end of the last note, and failure.
pub struct LowSt {
    pub j: int,
    pub st: BraceModel,
    pub out: Seq<u8>,
    pub split: int,
    pub fail: bool,
}

/// The branch end recorded at offset `j`, if any.
pub open spec fn end_at(ends: Seq<(int, (int, int))>, j: int, k: int) -> Option<(int, int)>
    decreases ends.len() - k,
{
    if k < 0 || k >= ends.len() {
        None
    } else if ends[k].0 == j {
        Some(ends[k].1)
    } else {
        end_at(ends, j, k + 1)
    }
}

/// Compensation at a branch end `j`: when the branch it closes is the
/// active one and ended at another octave in the original, the moves back
/// to that octave, which the state then takes. `None` when the difference
/// overflows.
pub open spec fn branch_comp(ends: Seq<(int, (int, int))>, j: int, st: BraceModel) -> Option<(Seq<u8>, BraceModel)> {
    match end_at(ends, j, 0) {
        None => Some((Seq::empty(), st)),
        Some((ch, orig)) => {
            if model_active(st) != Some(ch) {
                Some((Seq::empty(), st))
            } else {
                let diff = orig - st.octaves[ch];
                if !(i32::MIN < diff <= i32::MAX) {
                    None
                } else if diff == 0 {
                    Some((Seq::empty(), st))
                } else {
                    Some((shift_bytes(diff), model_set(st, orig as i32)))
                }
            }
        },
    }
}

/// One step of the lower scan at `j` from octave state `st`: the next
/// position, the next state, the bytes written, and failure. Removed
/// `>`/`<` vanish, `oN` and braces update the state, branch ends get
/// their compensation, and every other byte is copied.
pub open spec fn low_parts(c: TCtx, l: LiftSt, j: int, st: BraceModel) -> (int, BraceModel, Seq<u8>, bool) {
    let b = c.sel;
    let ch = b[j];
    if l.shifts.contains(j) {
        (j + 1, st, Seq::empty(), false)
    } else if (ch == 0x6Fu8 || ch == 0x4Fu8) && j + 1 < b.len() && lead_u32(b, j + 1) is Some {
        let (v, n) = lead_u32(b, j + 1)->0;
        (j + 1 + n, model_set(st, v as i32), b.subrange(j, j + 1 + n), false)
    } else if ch == 0x7Bu8 {
        let prev = byte_at(b, j - 1);
        if prev != 0x5Fu8 && st.depth >= u32::MAX {
            (j, st, Seq::empty(), true)
        } else {
            (j + 1, if prev == 0x5Fu8 { st } else { model_open(st) }, seq![ch], false)
        }
    } else if ch == 0x2Fu8 && st.depth > 0 {
        match branch_comp(l.ends, j, st) {
            None => (j, st, Seq::empty(), true),
            Some((text, st2)) => if st2.branch >= usize::MAX {
                (j, st, Seq::empty(), true)
            } else {
                (j + 1, model_slash(st2), text + seq![ch], false)
            },
        }
    } else if ch == 0x7Du8 && st.depth > 0 {
        match branch_comp(l.ends, j, st) {
            None => (j, st, Seq::empty(), true),
            Some((text, st2)) => (j + 1, model_close(st2), text + seq![ch], false),
        }
    } else {
        (j + 1, st, seq![ch], false)
    }
}

/// One step of the lower scan.
pub open spec fn low_step(c: TCtx, l: LiftSt, w: LowSt) -> LowSt {
    let p = low_parts(c, l, w.j, w.st);
    if p.3 {
        LowSt { fail: true, ..w }
    } else {
        LowSt { j: p.0, st: p.1, out: w.out + p.2, ..w }
    }
}

/// Run the lower scan up to (not including) `until`.
pub open spec fn low_to(c: TCtx, l: LiftSt, w: LowSt, until: int) -> LowSt
    decreases until - w.j,
{
    if w.fail || w.j >= until || w.j < 0 || w.j >= c.sel.len() {
        w
    } else {
        let t = low_step(c, l, w);
        if t.j <= w.j || t.j >= until {
            t
        } else {
            low_to(c, l, t, until)
        }
    }
}

/// The rewritten note: the moves from the current octave to the note's
/// new octave, then its new spelling. `None` on overflow.
pub open spec fn note_text(n: Note, st: BraceModel, ks: Seq<Option<i8>>, d: Direction) -> Option<(Seq<u8>, int)> {
    let midi = n.midi + dir_delta(d);
    let new_oct = midi / 12 + 1;
    let cur = current_octave(st);
    let sp = spell_semitone(midi % 12, ks, d);
    if !(i32::MIN < new_oct - cur <= i32::MAX) {
        None
    } else {
        Some((shift_bytes(new_oct - cur) + seq![sp.0 as u8] + sp.1, new_oct))
    }
}

/// A rewritten note moves by exactly the direction's semitone: it is
/// placed in the octave of its shifted pitch and spelled so that it
/// sounds the shifted pitch class under the key signature in force.
pub proof fn law_rewritten_note_moves_one_semitone(n: Note, st: BraceModel, ks: Seq<Option<i8>>, d: Direction)
    ensures
        note_text(n, st, ks, d) matches Some((_, o)) ==> {
            let midi = n.midi + dir_delta(d);
            let sp = spell_semitone(midi % 12, ks, d);
            &&& (o - 1) * 12 + midi % 12 == midi
            &&& written_class(sp.0, sp.1, ks) == midi % 12
        },
{
    let midi = n.midi + dir_delta(d);
    law_spelling_sounds_its_semitone(midi % 12, ks, d);
}

/// The lower scan over notes `k..` of the lift result.
pub open spec fn low_notes(c: TCtx, l: LiftSt, d: Direction, w: LowSt, k: int) -> LowSt
    decreases l.notes.len() - k,
{
    if w.fail || k < 0 || k >= l.notes.len() {
        w
    } else {
        let n = l.notes[k];
        let w1 = low_to(c, l, w, n.off);
        if w1.fail {
            w1
        } else {
            match note_text(n, w1.st, l.ks, d) {
                None => LowSt { fail: true, ..w1 },
                Some((text, new_oct)) => {
                    let out = w1.out + text;
                    low_notes(c, l, d, LowSt {
                        j: n.off + n.len,
                        st: model_set(w1.st, new_oct as i32),
                        out,
                        split: out.len() as int,
                        fail: false,
                    }, k + 1)
                },
            }
        }
    }
}

/// Octave drift at the end of the selection between the original and the
/// rewrite, when both end in the same channel context.
pub open spec fn end_drift(lift_end: BraceModel, low_end: BraceModel) -> int {
    match (model_active(lift_end), model_active(low_end)) {
        (None, None) => lift_end.shared - low_end.shared,
        (Some(a), Some(b)) => if a == b { lift_end.octaves[a] - low_end.octaves[a] } else { 0 },
        _ => 0,
    }
}

/// Every note's pitch stays within `i32` after the shift.
pub open spec fn transform_fits(notes: Seq<Note>, d: Direction) -> bool {
    forall|k: int| 0 <= k < notes.len() ==> i32::MIN <= #[trigger] notes[k].midi + dir_delta(d) <= i32::MAX
}

/// Result of a transposition.
pub enum TransposeOutcome {
    /// The computation would overflow or fail to progress.
    Fails,
    /// No notes, or a rewrite identical to the selection.
    NoEdit,
    /// The rewritten selection text.
    Edit(Seq<u8>),
}

/// The initial lift state from the octave state `st0` and key signature
/// `ks0` at the selection start.
pub open spec fn lift_start(st0: BraceModel, ks0: Seq<Option<i8>>) -> LiftSt {
    LiftSt { i: 0, li: 0, col: 0, st: st0, ks: ks0, notes: Seq::empty(), shifts: Seq::empty(), ends: Seq::empty(), fail: false }
}

/// Transposition of the selection text in `c` by `d`, from the octave
/// state `st0` and key signature `ks0` at the selection start.
pub open spec fn transpose_text(c: TCtx, st0: BraceModel, ks0: Seq<Option<i8>>, d: Direction) -> TransposeOutcome {
    let l = lift(c, lift_start(st0, ks0));
    if l.fail {
        TransposeOutcome::Fails
    } else if l.notes.len() == 0 {
        TransposeOutcome::NoEdit
    } else if !transform_fits(l.notes, d) {
        TransposeOutcome::Fails
    } else {
        let w0 = LowSt { j: 0, st: st0, out: Seq::empty(), split: 0, fail: false };
        let w1 = low_notes(c, l, d, w0, 0);
        let w2 = low_to(c, l, w1, c.sel.len() as int);
        let drift = end_drift(l.st, w2.st);
        if w2.fail || !(i32::MIN < drift <= i32::MAX) {
            TransposeOutcome::Fails
        } else {
            let result = w2.out.subrange(0, w2.split) + shift_bytes(drift) + w2.out.subrange(w2.split, w2.out.len() as int);
            if result == c.sel {
                TransposeOutcome::NoEdit
            } else {
                TransposeOutcome::Edit(result)
            }
        }
    }
}

/// Channel count of the track enclosing line `ln`.
pub open spec fn track_channels<R: LineReader>(m: &R, ln: u32) -> usize {
    match enclosing_selector(m, ln) {
        Some((p, _)) => if p.0.len() < 1 { 1usize } else { p.0.len() as usize },
        None => 1usize,
    }
}

/// The octave state at the selection start.
pub open spec fn start_state<R: LineReader>(m: &R, s: Selection) -> BraceModel {
    let n = track_channels(m, s.start_line_number);
    brace_model_of(spec_channel_scan(m, s.start_line_number, s.start_column, n, None), n)
}

/// Transposition of selection `s` of `m` by `d`.
pub open spec fn spec_transpose<R: LineReader>(m: &R, s: Selection, d: Direction) -> TransposeOutcome {
    transpose_text(tctx(m, s), start_state(m, s), spec_scan_key_sig(m, s.start_line_number, s.start_column), d)
}

/// The inputs on which the transposition is computed: the start context
/// can be read (start line from 1, the start column's comment-free prefix
/// ends on a character boundary, the octave scan stays within `i32`), the
/// selected ranges are ordered and on character boundaries, and the
/// rewrite neither overflows nor stalls.
pub open spec fn transpose_ok<R: LineReader>(m: &R, s: Selection, d: Direction) -> bool {
    let ln = s.start_line_number;
    let b = line_bytes(m, ln);
    &&& ln >= 1
    &&& at_boundary(b, segment_end(b, scan_raw_end(b, true, s.start_column)))
    &&& spec_channel_scan(m, ln, s.start_column, track_channels(m, ln), None).ok
    &&& selection_slices_ok(m, s)
    &&& !(spec_transpose(m, s, d) is Fails)
}


// ---------------------------------------------------------------------------
// Executable helpers
// ---------------------------------------------------------------------------

proof fn lemma_encode_concat(a: Seq<char>, b: Seq<char>)
    ensures
        encode_utf8(a + b) == encode_utf8(a) + encode_utf8(b),
    decreases a.len(),
{
    if a.len() > 0 {
        assert((a + b).drop_first() =~= a.drop_first() + b);
        lemma_encode_concat(a.drop_first(), b);
        assert((a + b)[0] == a[0]);
    } else {
        assert(a + b =~= b);
    }
}

fn ascii_letter(b: u8) -> (r: bool)
    ensures
        r == is_ascii_letter(b),
{
    (0x41u8 <= b && b <= 0x5Au8) || (0x61u8 <= b && b <= 0x7Au8)
}

fn note_byte(b: u8) -> (r: bool)
    ensures
        r == is_note_byte(b),
{
    (0x61u8 <= b && b <= 0x68u8) || (0x41u8 <= b && b <= 0x48u8)
}

fn accidental_byte(b: u8) -> (r: bool)
    ensures
        r == is_accidental_byte(b),
{
    b == 0x2Bu8 || b == 0x2Du8 || b == 0x3Du8
}

fn alnum(b: u8) -> (r: bool)
    ensures
        r == is_alnum(b),
{
    ascii_letter(b) || (0x30u8 <= b && b <= 0x39u8)
}

fn get_byte(b: &[u8], i: usize) -> (r: u8)
    ensures
        r == byte_at(b@, i as int),
{
    if i < b.len() { b[i] } else { 0 }
}

/// The byte before `i`, or `0` at the start.
fn prev_byte(b: &[u8], i: usize, back: usize) -> (r: u8)
    ensures
        r == byte_at(b@, i - back),
{
    if i >= back && i - back < b.len() { b[i - back] } else { 0 }
}

fn lead_u32_exec(bytes: &[u8], s: usize) -> (r: Option<(u32, usize)>)
    requires
        s <= bytes@.len(),
    ensures
        match lead_u32(bytes@, s as int) {
            Some((v, n)) => r matches Some((rv, rn)) && rv == v && rn as int == n,
            None => r is None,
        },
        r matches Some((_, n)) ==> 1 <= n && s + n <= bytes@.len(),
{
    let e = scan_digits(bytes, s);
    proof {
        lemma_digit_run_end(bytes@, s as int);
    }
    if e == s {
        return None;
    }
    match parse_digits_u32(bytes, s, e) {
        Some(v) => Some((v, e - s)),
        None => None,
    }
}

fn inside_keyword_exec(b: &[u8], i: usize) -> (r: bool)
    requires
        i < b@.len(),
    ensures
        r == inside_keyword(b@, i as int),
{
    let prev = prev_byte(b, i, 1);
    let prev2 = prev_byte(b, i, 2);
    let look = if b.len() - i > 1 && accidental_byte(b[i + 1]) { i + 2 } else { i + 1 };
    let after = get_byte(b, look);
    (ascii_letter(prev) && !note_byte(prev))
        && ((ascii_letter(prev2) && !note_byte(prev2)) || (ascii_letter(after) && !note_byte(after)))
}

/// `semi` as a letter index under key signature `ks`, per
/// [`spell_semitone`]; the accidental is `0` none, `1` `=`, `2` `+`,
/// `3` `-`.
fn spell_semitone_exec(semi: i32, key_sig: &KeySig, d: Direction) -> (r: (char, u8))
    requires
        0 <= semi < 12,
    ensures
        r.0 == spell_semitone(semi as int, key_sig@, d).0,
        spell_glyph(r.1) == spell_semitone(semi as int, key_sig@, d).1,
        r.0 == 'c' || r.0 == 'd' || r.0 == 'e' || r.0 == 'f' || r.0 == 'g' || r.0 == 'a' || r.0 == 'b',
{
    let letters: [char; 7] = ['c', 'd', 'e', 'f', 'g', 'a', 'b'];
    let nats: [i32; 7] = [0, 2, 4, 5, 7, 9, 11];
    let ghost ks = key_sig@;
    let mut k: usize = 0;
    while k < 7
        invariant
            k <= 7,
            0 <= semi < 12,
            ks == key_sig@,
            forall|m: int| 0 <= m < 7 ==> letters@[m] == note_letter(m) && nats@[m] == natural_sem(note_letter(m))->0,
            first_adjusted(ks, semi as int, 0) == first_adjusted(ks, semi as int, k as int),
        decreases 7 - k,
    {
        let letter = letters[k];
        let adj: i32 = nats[k] + key_sig.get_or_zero(letter) as i32 + 132;
        proof {
            assert((adj as int) % 12 == (natural_sem(note_letter(k as int))->0 + sig_get_or_zero(ks, note_letter(k as int)) as int) % 12) by (nonlinear_arith)
                requires adj as int == natural_sem(note_letter(k as int))->0 + sig_get_or_zero(ks, note_letter(k as int)) as int + 132;
        }
        if adj % 12 == semi {
            return (letter, 0);
        }
        k += 1;
    }
    let mut k: usize = 0;
    while k < 7
        invariant
            k <= 7,
            0 <= semi < 12,
            ks == key_sig@,
            forall|m: int| 0 <= m < 7 ==> letters@[m] == note_letter(m) && nats@[m] == natural_sem(note_letter(m))->0,
            first_adjusted(ks, semi as int, 0) is None,
            first_natural_altered(ks, semi as int, 0) == first_natural_altered(ks, semi as int, k as int),
        decreases 7 - k,
    {
        let letter = letters[k];
        if nats[k] == semi && key_sig.get_or_zero(letter) != 0 {
            return (letter, 1);
        }
        k += 1;
    }
    let (letter, needed): (char, i32) = match d {
        Direction::Up => {
            if semi == 0 { ('c', 0) } else if semi == 1 { ('c', 1) } else if semi == 2 { ('d', 0) }
            else if semi == 3 { ('d', 1) } else if semi == 4 { ('e', 0) } else if semi == 5 { ('f', 0) }
            else if semi == 6 { ('f', 1) } else if semi == 7 { ('g', 0) } else if semi == 8 { ('g', 1) }
            else if semi == 9 { ('a', 0) } else if semi == 10 { ('a', 1) } else { ('b', 0) }
        },
        Direction::Down => {
            if semi == 0 { ('c', 0) } else if semi == 1 { ('d', -1) } else if semi == 2 { ('d', 0) }
            else if semi == 3 { ('e', -1) } else if semi == 4 { ('e', 0) } else if semi == 5 { ('f', 0) }
            else if semi == 6 { ('g', -1) } else if semi == 7 { ('g', 0) } else if semi == 8 { ('a', -1) }
            else if semi == 9 { ('a', 0) } else if semi == 10 { ('b', -1) } else { ('b', 0) }
        },
    };
    let sig = key_sig.get_or_zero(letter) as i32;
    if sig == needed {
        (letter, 0)
    } else if needed == 0 && sig != 0 {
        (letter, 1)
    } else if needed > 0 {
        (letter, 2)
    } else if needed < 0 {
        (letter, 3)
    } else {
        (letter, 0)
    }
}

/// The bytes of accidental code `g` (see [`spell_semitone_exec`]).
pub open spec fn spell_glyph(g: u8) -> Seq<u8> {
    if g == 1 { seq![0x3Du8] } else if g == 2 { seq![0x2Bu8] } else if g == 3 { seq![0x2Du8] } else { Seq::empty() }
}

/// The lift scan's results.
struct LiftOut {
    st: BraceState,
    ks: KeySig,
    notes: Vec<(usize, usize, i32)>,
    shifts: Vec<usize>,
    ends: Vec<(usize, (usize, i32))>,
}

spec fn notes_view(v: Seq<(usize, usize, i32)>) -> Seq<Note> {
    v.map_values(|x: (usize, usize, i32)| Note { off: x.0 as int, len: x.1 as int, midi: x.2 as int })
}

spec fn shifts_view(v: Seq<usize>) -> Seq<int> {
    v.map_values(|x: usize| x as int)
}

spec fn ends_view(v: Seq<(usize, (usize, i32))>) -> Seq<(int, (int, int))> {
    v.map_values(|x: (usize, (usize, i32))| (x.0 as int, (x.1.0 as int, x.1.1 as int)))
}

spec fn lift_view(
    i: usize,
    li: usize,
    col: usize,
    st: BraceModel,
    ks: Seq<Option<i8>>,
    notes: Seq<(usize, usize, i32)>,
    shifts: Seq<usize>,
    ends: Seq<(usize, (usize, i32))>,
) -> LiftSt {
    LiftSt {
        i: i as int,
        li: li as int,
        col: col as int,
        st,
        ks,
        notes: notes_view(notes),
        shifts: shifts_view(shifts),
        ends: ends_view(ends),
        fail: false,
    }
}

/// The strings of `v` hold the byte sequences `w`.
spec fn strings_hold(v: Seq<String>, w: Seq<Seq<u8>>) -> bool {
    v.len() == w.len() && forall|k: int| 0 <= k < v.len() ==> encode_utf8((#[trigger] v[k])@) == w[k]
}

/// Mutable lift scan variables.
struct LiftVars {
    i: usize,
    li: usize,
    col: usize,
    st: BraceState,
    ks: KeySig,
    notes: Vec<(usize, usize, i32)>,
    shifts: Vec<usize>,
    ends: Vec<(usize, (usize, i32))>,
}

spec fn vars_view(v: &LiftVars) -> LiftSt {
    lift_view(v.i, v.li, v.col, v.st@, v.ks@, v.notes@, v.shifts@, v.ends@)
}

#[verifier::rlimit(60)]
fn lift_advance(
    vars: &mut LiftVars,
    sel: &str,
    bytes: &[u8],
    fulls: &Vec<String>,
    parts: &Vec<String>,
    off0: usize,
    Ghost(c): Ghost<TCtx>,
)
    requires
        c.sel == sel.spec_bytes(),
        c.sel == bytes@,
        vstd::utf8::valid_utf8(c.sel),
        strings_hold(fulls@, c.fulls),
        strings_hold(parts@, c.parts),
        c.off0 == off0,
        old(vars).st.wf(),
        old(vars).col <= old(vars).i,
        old(vars).li <= old(vars).i,
        old(vars).i < c.sel.len(),
        !lift_step(c, vars_view(old(vars))).fail,
    ensures
        final(vars).st.wf(),
        final(vars).col <= final(vars).i,
        final(vars).li <= final(vars).i,
        vars_view(final(vars)) == lift_step(c, vars_view(old(vars))),
{
    let ghost b = c.sel;
    let ghost s = vars_view(vars);
    let ghost t = lift_step(c, s);
    let ch = bytes[vars.i];
        if ch == 0x0Au8 {
            vars.i += 1;
            vars.li += 1;
            vars.col = 0;
            proof {
                assert(vars_view(vars) == t);
            }
            return;
        }
        let abs: usize = if vars.li == 0 { vars.col + off0 } else { vars.col };
        let full: &str = if vars.li < fulls.len() { fulls[vars.li].as_str() } else { "" };
        proof {
            if vars.li >= fulls.len() {
                reveal_strlit("");
            }
            assert(full.spec_bytes() == (if 0 <= vars.li < c.fulls.len() { c.fulls[vars.li as int] } else { Seq::empty() }));
        }
        if is_in_comment(full, abs) {
            let remain = parts[vars.li].as_str().as_bytes().len() - vars.col;
            proof {
                assert(encode_utf8(parts@[vars.li as int]@) == c.parts[vars.li as int]);
            }
            vars.i += remain;
            vars.col += remain;
            proof {
                assert(vars_view(vars) == t);
            }
            return;
        }
        if is_in_key_sig(full, abs) {
            vars.i += 1;
            vars.col += 1;
            proof {
                assert(vars_view(vars) == t);
            }
            return;
        }
        if ch == 0x5Fu8 && bytes.len() - vars.i > 1 && bytes[vars.i + 1] == 0x7Bu8 {
            let close = find_byte(bytes, 0x7Du8, vars.i + 2, bytes.len());
            proof {
                lemma_byte_find_suffix(b, 0x7Du8, vars.i + 2, 0);
                assert(b.subrange(vars.i + 2, b.len() as int) =~= b.subrange(vars.i + 2, b.len() as int));
                lemma_byte_find(b, 0x7Du8, vars.i + 2);
            }
            if close < bytes.len() {
                proof {
                    if vars.i + 2 < b.len() {
                        lemma_ascii_then_boundary(b, vars.i + 1);
                    }
                }
                assert(vars.i + 2 <= close);
                assert(close <= sel.spec_bytes().len());
                let content = sub_str(sel, vars.i + 2, close);
                proof {
                    vstd::utf8::encode_utf8_decode_utf8(content@);
                }
                vars.ks = parse_key_sig(content, &vars.ks);
                let skip = close + 1 - vars.i;
                vars.i += skip;
                vars.col += skip;
                proof {
                    assert(vars_view(vars) == t);
                }
                return;
            }
        }
        if ch == 0x22u8 {
            let mut e = vars.i + 1;
            while e < bytes.len() && bytes[e] != 0x22u8 && bytes[e] != 0x0Au8
                invariant
                    vars.i < e <= b.len(),
                    b == bytes@,
                    quote_stop(b, vars.i + 1) == quote_stop(b, e as int),
                decreases b.len() - e,
            {
                e += 1;
            }
            let e2 = if e < bytes.len() && bytes[e] == 0x22u8 { e + 1 } else { e };
            let n = e2 - vars.i;
            vars.i += n;
            vars.col += n;
            proof {
                assert(vars_view(vars) == t);
            }
            return;
        }
        if (ch == 0x6Fu8 || ch == 0x4Fu8) && bytes.len() - vars.i > 1 {
            match lead_u32_exec(bytes, vars.i + 1) {
                Some((v, n)) => {
                    vars.st.on_octave_set(v as i32);
                    vars.i += 1 + n;
                    vars.col += 1 + n;
                    proof {
                        assert(vars_view(vars) == t);
                    }
                    return;
                },
                None => {},
            }
        }
        if ch == 0x3Eu8 || ch == 0x3Cu8 {
            let d: i32 = if ch == 0x3Eu8 { 1 } else { -1 };
            vars.st.on_octave_shift(d);
            let ghost prev_shifts = vars.shifts@;
            vars.shifts.push(vars.i);
            vars.i += 1;
            vars.col += 1;
            proof {
                assert(shifts_view(vars.shifts@) =~= shifts_view(prev_shifts).push((vars.i - 1) as int));
                assert(vars_view(vars) == t);
            }
            return;
        }
        if ch == 0x7Bu8 {
            let prev = prev_byte(bytes, vars.i, 1);
            vars.st.on_open_brace(prev);
            vars.i += 1;
            vars.col += 1;
            proof {
                assert(vars_view(vars) == t);
            }
            return;
        }
        if ch == 0x2Fu8 && vars.st.brace_depth() > 0 {
            let ghost prev_ends = vars.ends@;
            proof {
                assert(t.st == model_slash(s.st));
                assert(t.i == s.i + 1);
                assert(t.col == s.col + 1);
                assert(t.li == s.li);
                assert(t.notes == s.notes);
                assert(t.ks == s.ks);
                assert(t.shifts == s.shifts);
            }
            match vars.st.on_slash() {
                Some((k, o)) => {
                    vars.ends.push((vars.i, (k, o)));
                    proof {
                        assert(model_active(s.st) == Some(k as int));
                        assert(o == s.st.octaves[k as int]);
                        assert(ends_view(vars.ends@) =~= ends_view(prev_ends).push((vars.i as int, (k as int, o as int))));
                        assert(ends_view(vars.ends@) == t.ends);
                    }
                },
                None => {
                    proof {
                        assert(model_active(s.st) is None);
                        assert(ends_view(vars.ends@) == t.ends);
                    }
                },
            }
            vars.i += 1;
            vars.col += 1;
            proof {
                assert(vars_view(vars) == t);
            }
            return;
        }
        if ch == 0x7Du8 {
            proof {
                assert(t.i == s.i + 1);
                assert(t.col == s.col + 1);
                assert(t.li == s.li);
                assert(t.notes == s.notes);
                assert(t.ks == s.ks);
                assert(t.shifts == s.shifts);
                if s.st.depth > 0 {
                    assert(t.st == model_close(s.st));
                } else {
                    assert(t.st == s.st);
                    assert(t.ends == s.ends);
                }
            }
            if vars.st.brace_depth() > 0 {
                let ghost prev_ends = vars.ends@;
                match vars.st.on_close_brace() {
                    Some((k, o)) => {
                        vars.ends.push((vars.i, (k, o)));
                        proof {
                            assert(model_active(s.st) == Some(k as int));
                            assert(o == s.st.octaves[k as int]);
                            assert(ends_view(vars.ends@) =~= ends_view(prev_ends).push((vars.i as int, (k as int, o as int))));
                            assert(ends_view(vars.ends@) == t.ends);
                        }
                    },
                    None => {
                        proof {
                            assert(model_active(s.st) is None);
                            assert(ends_view(vars.ends@) == t.ends);
                        }
                    },
                }
            }
            vars.i += 1;
            vars.col += 1;
            proof {
                assert(vars_view(vars) == t);
            }
            return;
        }
        if 0x61u8 <= ch && ch <= 0x68u8 && !inside_keyword_exec(bytes, vars.i) {
            let note_start = vars.i;
            let letter: char = if ch == 0x68u8 { 'b' } else { ch as char };
            let nb = get_byte(bytes, vars.i + 1);
            let acc: Option<i32> = if vars.i + 1 < bytes.len() && nb == 0x2Bu8 {
                Some(1)
            } else if vars.i + 1 < bytes.len() && nb == 0x2Du8 {
                Some(-1)
            } else if vars.i + 1 < bytes.len() && nb == 0x3Du8 {
                Some(0)
            } else {
                None
            };
            let i2 = if acc.is_some() { vars.i + 2 } else { vars.i + 1 };
            if letter == 'f' && acc.is_none() && i2 < bytes.len() && bytes[i2] == 0x6Du8
                && !(bytes.len() - i2 > 1 && alnum(bytes[i2 + 1])) {
                vars.col += i2 - vars.i;
                vars.i = i2;
                proof {
                    assert(vars_view(vars) == t);
                }
                return;
            }
            let ea: i32 = match acc {
                Some(a) => a,
                None => vars.ks.get_or_zero(letter) as i32,
            };
            let oct = vars.st.current_octave();
            let sem: i32 = match chord_natural_semitones(letter) {
                Some(v) => v,
                None => 0,
            };
            let midi = (oct - 1) * 12 + sem + ea;
            let ghost prev_notes = vars.notes@;
            vars.notes.push((note_start, i2 - vars.i, midi));
            vars.col += i2 - vars.i;
            vars.i = i2;
            proof {
                assert(notes_view(vars.notes@) =~= notes_view(prev_notes).push(Note { off: note_start as int, len: (i2 - note_start) as int, midi: midi as int }));
                assert(vars_view(vars) == t);
            }
            return;
        }
        vars.i += 1;
        vars.col += 1;
        proof {
            assert(vars_view(vars) == t);
        }
}

fn lift_exec(
    sel: &str,
    fulls: &Vec<String>,
    parts: &Vec<String>,
    off0: usize,
    st0: BraceState,
    ks0: KeySig,
    Ghost(c): Ghost<TCtx>,
) -> (r: LiftOut)
    requires
        c.sel == sel.spec_bytes(),
        strings_hold(fulls@, c.fulls),
        strings_hold(parts@, c.parts),
        c.off0 == off0,
        st0.wf(),
        !lift(c, lift_start(st0@, ks0@)).fail,
    ensures
        r.st.wf(),
        r.st@ == lift(c, lift_start(st0@, ks0@)).st,
        r.ks@ == lift(c, lift_start(st0@, ks0@)).ks,
        notes_view(r.notes@) == lift(c, lift_start(st0@, ks0@)).notes,
        shifts_view(r.shifts@) == lift(c, lift_start(st0@, ks0@)).shifts,
        ends_view(r.ends@) == lift(c, lift_start(st0@, ks0@)).ends,
{
    let bytes = sel.as_bytes();
    let ghost b = c.sel;
    let ghost total = lift(c, lift_start(st0@, ks0@));
    let mut vars = LiftVars {
        i: 0,
        li: 0,
        col: 0,
        st: st0,
        ks: ks0,
        notes: Vec::new(),
        shifts: Vec::new(),
        ends: Vec::new(),
    };
    proof {
        assert(notes_view(vars.notes@) =~= Seq::<Note>::empty());
        assert(shifts_view(vars.shifts@) =~= Seq::<int>::empty());
        assert(ends_view(vars.ends@) =~= Seq::<(int, (int, int))>::empty());
        assert(vars_view(&vars) == lift_start(st0@, ks0@));
        vstd::utf8::encode_utf8_valid_utf8(sel@);
    }
    while vars.i < bytes.len()
        invariant
            b == c.sel,
            b == bytes@,
            b == sel.spec_bytes(),
            vstd::utf8::valid_utf8(b),
            strings_hold(fulls@, c.fulls),
            strings_hold(parts@, c.parts),
            c.off0 == off0,
            vars.st.wf(),
            vars.col <= vars.i,
            vars.li <= vars.i,
            total == lift(c, lift_start(st0@, ks0@)),
            !total.fail,
            total == lift(c, vars_view(&vars)),
            vars.i >= b.len() ==> total == vars_view(&vars),
        decreases (if vars.i <= b.len() { b.len() - vars.i } else { 0 }),
    {
        let ghost s = vars_view(&vars);
        let ghost t = lift_step(c, s);
        proof {
            assert(!t.fail && t.i > s.i);
        }
        lift_advance(&mut vars, sel, bytes, fulls, parts, off0, Ghost(c));
    }
    LiftOut { st: vars.st, ks: vars.ks, notes: vars.notes, shifts: vars.shifts, ends: vars.ends }
}

/// Offsets the lift records point into the selection: every removed
/// shift at a `>`/`<`, every note span inside the text and ending in an
/// ASCII byte.
pub open spec fn lift_wf(c: TCtx, s: LiftSt) -> bool {
    &&& forall|k: int| 0 <= k < s.shifts.len() ==> 0 <= #[trigger] s.shifts[k] < c.sel.len()
        && (c.sel[s.shifts[k]] == 0x3Eu8 || c.sel[s.shifts[k]] == 0x3Cu8)
    &&& forall|k: int| 0 <= k < s.notes.len() ==> {
        let n = #[trigger] s.notes[k];
        &&& 0 <= n.off
        &&& n.off + n.len <= c.sel.len()
        &&& 1 <= n.len <= 2
        &&& c.sel[n.off] < 0x80u8
        &&& c.sel[n.off + n.len - 1] < 0x80u8
    }
}

proof fn lemma_lift_step_wf(c: TCtx, s: LiftSt)
    requires
        lift_wf(c, s),
        0 <= s.i < c.sel.len(),
    ensures
        lift_wf(c, lift_step(c, s)),
{
    let t = lift_step(c, s);
    assert forall|k: int| 0 <= k < t.shifts.len() implies 0 <= #[trigger] t.shifts[k] < c.sel.len()
        && (c.sel[t.shifts[k]] == 0x3Eu8 || c.sel[t.shifts[k]] == 0x3Cu8) by {
        if k < s.shifts.len() {
            assert(t.shifts[k] == s.shifts[k]);
        }
    }
    assert forall|k: int| 0 <= k < t.notes.len() implies {
        let n = #[trigger] t.notes[k];
        &&& 0 <= n.off
        &&& n.off + n.len <= c.sel.len()
        &&& 1 <= n.len <= 2
        &&& c.sel[n.off] < 0x80u8
        &&& c.sel[n.off + n.len - 1] < 0x80u8
    } by {
        if k < s.notes.len() {
            assert(t.notes[k] == s.notes[k]);
        }
    }
}

proof fn lemma_lift_wf(c: TCtx, s: LiftSt)
    requires
        lift_wf(c, s),
    ensures
        lift_wf(c, lift(c, s)),
    decreases c.sel.len() - s.i,
{
    if s.fail || s.i < 0 || s.i >= c.sel.len() {
    } else {
        let t = lift_step(c, s);
        lemma_lift_step_wf(c, s);
        if t.fail || t.i <= s.i || t.i >= c.sel.len() {
        } else {
            lemma_lift_wf(c, t);
        }
    }
}

proof fn lemma_encode_ascii(t: Seq<char>, bytes: Seq<u8>)
    requires
        t.len() == bytes.len(),
        forall|k: int| 0 <= k < t.len() ==> '\0' <= #[trigger] t[k] <= '\u{7f}' && t[k] as u8 == bytes[k],
    ensures
        encode_utf8(t) == bytes,
{
    assert(vstd::utf8::is_ascii_chars(t));
    vstd::utf8::is_ascii_chars_encode_utf8(t);
    assert(encode_utf8(t) =~= bytes);
}

/// Append the bytes `b[pos..j]` of `sel` to `out`.
fn flush(out: &mut String, sel: &str, pos: usize, j: usize)
    requires
        pos <= j <= sel.spec_bytes().len(),
        at_boundary(sel.spec_bytes(), pos as int),
        at_boundary(sel.spec_bytes(), j as int),
    ensures
        encode_utf8(final(out)@) == encode_utf8(old(out)@) + sel.spec_bytes().subrange(pos as int, j as int),
{
    let seg = sub_str(sel, pos, j);
    let cs = str_chars(seg);
    push_chars(out, cs.as_slice());
    proof {
        lemma_encode_concat(old(out)@, seg@);
    }
}

/// Append `n` copies of the ASCII character `ch` to `out`.
fn push_ascii_repeat(out: &mut String, ch: char, n: i32)
    requires
        n >= 0,
        ch <= '\u{7f}',
    ensures
        encode_utf8(final(out)@) == encode_utf8(old(out)@) + repeat_byte(ch as u8, n as int),
{
    push_repeat(out, ch, n);
    proof {
        lemma_encode_concat(old(out)@, repeat_char(ch, n as int));
        lemma_encode_ascii(repeat_char(ch, n as int), repeat_byte(ch as u8, n as int));
    }
}

/// Append the ASCII character `ch` to `out`.
fn push_ascii(out: &mut String, ch: char)
    requires
        ch <= '\u{7f}',
    ensures
        encode_utf8(final(out)@) == encode_utf8(old(out)@) + seq![ch as u8],
{
    out.push(ch);
    proof {
        assert(final(out)@ == old(out)@ + seq![ch]);
        lemma_encode_concat(old(out)@, seq![ch]);
        lemma_encode_ascii(seq![ch], seq![ch as u8]);
    }
}

/// Append `>` per octave up or `<` per octave down.
fn push_shift_bytes(out: &mut String, shift: i32)
    requires
        shift > i32::MIN,
    ensures
        encode_utf8(final(out)@) == encode_utf8(old(out)@) + shift_bytes(shift as int),
{
    if shift > 0 {
        push_ascii_repeat(out, '>', shift);
    } else {
        push_ascii_repeat(out, '<', -shift);
    }
}

fn shifts_contains(v: &Vec<usize>, j: usize) -> (r: bool)
    ensures
        r == shifts_view(v@).contains(j as int),
{
    let mut k: usize = 0;
    while k < v.len()
        invariant
            k <= v@.len(),
            forall|m: int| 0 <= m < k ==> v@[m] != j,
        decreases v@.len() - k,
    {
        if v[k] == j {
            assert(shifts_view(v@)[k as int] == j as int);
            return true;
        }
        k += 1;
    }
    proof {
        if shifts_view(v@).contains(j as int) {
            let m = choose|m: int| 0 <= m < shifts_view(v@).len() && shifts_view(v@)[m] == j as int;
            assert(v@[m] == j);
        }
    }
    false
}

fn end_lookup(v: &Vec<(usize, (usize, i32))>, j: usize) -> (r: Option<(usize, i32)>)
    ensures
        match end_at(ends_view(v@), j as int, 0) {
            Some(e) => r matches Some(x) && x.0 as int == e.0 && x.1 as int == e.1,
            None => r is None,
        },
{
    let ghost ev = ends_view(v@);
    let mut k: usize = 0;
    while k < v.len()
        invariant
            k <= v@.len(),
            ev == ends_view(v@),
            end_at(ev, j as int, 0) == end_at(ev, j as int, k as int),
        decreases v@.len() - k,
    {
        if v[k].0 == j {
            return Some(v[k].1);
        }
        k += 1;
    }
    None
}

/// Mutable lower scan variables: position, octave state, the text
/// written, and where the bytes still to be copied start.
struct LowVars {
    j: usize,
    st: BraceState,
    out: String,
    pos: usize,
}

/// Everything written so far, counting the bytes pending a copy.
spec fn low_virtual(v: &LowVars, b: Seq<u8>) -> Seq<u8> {
    encode_utf8(v.out@) + b.subrange(v.pos as int, v.j as int)
}

fn apply_comp(v: &mut LowVars, sel: &str, lo: &LiftOut, Ghost(c): Ghost<TCtx>, Ghost(l): Ghost<LiftSt>)
    requires
        c.sel == sel.spec_bytes(),
        ends_view(lo.ends@) == l.ends,
        old(v).st.wf(),
        old(v).pos <= old(v).j < c.sel.len(),
        at_boundary(c.sel, old(v).pos as int),
        at_boundary(c.sel, old(v).j as int),
        branch_comp(l.ends, old(v).j as int, old(v).st@) is Some,
    ensures
        final(v).st.wf(),
        final(v).j == old(v).j,
        final(v).pos <= final(v).j,
        at_boundary(c.sel, final(v).pos as int),
        final(v).st@ == (branch_comp(l.ends, old(v).j as int, old(v).st@)->0).1,
        low_virtual(final(v), c.sel) == low_virtual(old(v), c.sel) + (branch_comp(l.ends, old(v).j as int, old(v).st@)->0).0,
{
    let j = v.j;
    let ghost v0 = low_virtual(v, c.sel);
    match end_lookup(&lo.ends, j) {
        None => {
            assert(low_virtual(v, c.sel) =~= v0 + Seq::<u8>::empty());
        },
        Some((chan, orig)) => {
            match v.st.active_channel() {
                Some(a) => {
                    if a == chan {
                        let cur = v.st.channel_octave()[chan];
                        let diff = orig - cur;
                        if diff != 0 {
                            flush(&mut v.out, sel, v.pos, j);
                            v.pos = j;
                            push_shift_bytes(&mut v.out, diff);
                            v.st.on_octave_set(orig);
                            proof {
                                assert(low_virtual(v, c.sel) =~= v0 + shift_bytes(diff as int));
                            }
                        } else {
                            assert(low_virtual(v, c.sel) =~= v0 + Seq::<u8>::empty());
                        }
                    } else {
                        assert(low_virtual(v, c.sel) =~= v0 + Seq::<u8>::empty());
                    }
                },
                None => {
                    assert(low_virtual(v, c.sel) =~= v0 + Seq::<u8>::empty());
                },
            }
        },
    }
}

#[verifier::rlimit(60)]
fn low_advance(v: &mut LowVars, sel: &str, bytes: &[u8], lo: &LiftOut, Ghost(c): Ghost<TCtx>, Ghost(l): Ghost<LiftSt>)
    requires
        c.sel == sel.spec_bytes(),
        c.sel == bytes@,
        vstd::utf8::valid_utf8(c.sel),
        shifts_view(lo.shifts@) == l.shifts,
        ends_view(lo.ends@) == l.ends,
        lift_wf(c, l),
        old(v).st.wf(),
        old(v).pos <= old(v).j < c.sel.len(),
        at_boundary(c.sel, old(v).pos as int),
        !low_parts(c, l, old(v).j as int, old(v).st@).3,
    ensures
        final(v).st.wf(),
        final(v).pos <= final(v).j <= c.sel.len(),
        at_boundary(c.sel, final(v).pos as int),
        final(v).j as int == low_parts(c, l, old(v).j as int, old(v).st@).0,
        final(v).st@ == low_parts(c, l, old(v).j as int, old(v).st@).1,
        low_virtual(final(v), c.sel) == low_virtual(old(v), c.sel) + low_parts(c, l, old(v).j as int, old(v).st@).2,
        final(v).j == old(v).j + 1 || c.sel[final(v).j - 1] < 0x80u8,
        final(v).j > old(v).j,
{
    let ghost b = c.sel;
    let ghost v0 = low_virtual(v, b);
    let ghost p = low_parts(c, l, v.j as int, v.st@);
    let j = v.j;
    let ch = bytes[j];
    if shifts_contains(&lo.shifts, j) {
        proof {
            let m = choose|m: int| 0 <= m < l.shifts.len() && l.shifts[m] == j as int;
            assert(b[j as int] == 0x3Eu8 || b[j as int] == 0x3Cu8);
            if j + 1 < b.len() {
                lemma_ascii_then_boundary(b, j as int);
            }
        }
        flush(&mut v.out, sel, v.pos, j);
        v.pos = j + 1;
        v.j = j + 1;
        proof {
            assert(low_virtual(v, b) =~= v0 + p.2);
        }
        return;
    }
    if (ch == 0x6Fu8 || ch == 0x4Fu8) && bytes.len() - j > 1 {
        match lead_u32_exec(bytes, j + 1) {
            Some((val, n)) => {
                proof {
                    lemma_digit_run_end(b, j + 1);
                    assert(b.subrange(j + 1, j + 1 + n)[n - 1] == b[j + n]);
                }
                v.st.on_octave_set(val as i32);
                v.j = j + 1 + n;
                proof {
                    assert(low_virtual(v, b) =~= v0 + p.2);
                }
                return;
            },
            None => {},
        }
    }
    if ch == 0x7Bu8 {
        let prev = prev_byte(bytes, j, 1);
        v.st.on_open_brace(prev);
        v.j = j + 1;
        proof {
            assert(low_virtual(v, b) =~= v0 + p.2);
        }
        return;
    }
    if ch == 0x2Fu8 && v.st.brace_depth() > 0 {
        apply_comp(v, sel, lo, Ghost(c), Ghost(l));
        let ghost v1 = low_virtual(v, b);
        v.st.on_slash();
        v.j = j + 1;
        proof {
            assert(low_virtual(v, b) =~= v1 + seq![ch]);
            assert(low_virtual(v, b) =~= v0 + p.2);
        }
        return;
    }
    if ch == 0x7Du8 && v.st.brace_depth() > 0 {
        apply_comp(v, sel, lo, Ghost(c), Ghost(l));
        let ghost v1 = low_virtual(v, b);
        v.st.on_close_brace();
        v.j = j + 1;
        proof {
            assert(low_virtual(v, b) =~= v1 + seq![ch]);
            assert(low_virtual(v, b) =~= v0 + p.2);
        }
        return;
    }
    v.j = j + 1;
    proof {
        assert(low_virtual(v, b) =~= v0 + p.2);
    }
}

fn low_run_to(
    v: &mut LowVars,
    until: usize,
    sel: &str,
    bytes: &[u8],
    lo: &LiftOut,
    Ghost(c): Ghost<TCtx>,
    Ghost(l): Ghost<LiftSt>,
    Ghost(w): Ghost<LowSt>,
    Ghost(prefix): Ghost<Seq<u8>>,
)
    requires
        c.sel == sel.spec_bytes(),
        c.sel == bytes@,
        vstd::utf8::valid_utf8(c.sel),
        shifts_view(lo.shifts@) == l.shifts,
        ends_view(lo.ends@) == l.ends,
        lift_wf(c, l),
        old(v).st.wf(),
        old(v).pos <= old(v).j <= c.sel.len(),
        at_boundary(c.sel, old(v).pos as int),
        at_boundary(c.sel, old(v).j as int),
        until >= c.sel.len() || at_boundary(c.sel, until as int),
        w.j == old(v).j,
        w.st == old(v).st@,
        w.out == prefix + low_virtual(old(v), c.sel),
        !w.fail,
        !low_to(c, l, w, until as int).fail,
    ensures
        final(v).st.wf(),
        final(v).pos <= final(v).j <= c.sel.len(),
        at_boundary(c.sel, final(v).pos as int),
        at_boundary(c.sel, final(v).j as int),
        final(v).j as int == low_to(c, l, w, until as int).j,
        final(v).st@ == low_to(c, l, w, until as int).st,
        low_to(c, l, w, until as int).out == prefix + low_virtual(final(v), c.sel),
        low_to(c, l, w, until as int).split == w.split,
{
    let ghost b = c.sel;
    let ghost total = low_to(c, l, w, until as int);
    while v.j < until && v.j < bytes.len()
        invariant
            b == c.sel,
            c.sel == sel.spec_bytes(),
            c.sel == bytes@,
            vstd::utf8::valid_utf8(c.sel),
            shifts_view(lo.shifts@) == l.shifts,
            ends_view(lo.ends@) == l.ends,
            lift_wf(c, l),
            v.st.wf(),
            v.pos <= v.j <= b.len(),
            at_boundary(b, v.pos as int),
            v.j >= until ==> at_boundary(b, v.j as int),
            until >= b.len() || at_boundary(b, until as int),
            total == low_to(c, l, w, until as int),
            !total.fail,
            total == low_to(c, l, LowSt { j: v.j as int, st: v.st@, out: prefix + low_virtual(v, b), split: w.split, fail: false }, until as int),
        decreases b.len() - v.j,
    {
        let ghost cur = LowSt { j: v.j as int, st: v.st@, out: prefix + low_virtual(v, b), split: w.split, fail: false };
        let ghost t = low_step(c, l, cur);
        let ghost j0 = v.j;
        proof {
            assert(!t.fail);
        }
        low_advance(v, sel, bytes, lo, Ghost(c), Ghost(l));
        proof {
            assert(prefix + low_virtual(v, b) =~= cur.out + low_parts(c, l, j0 as int, cur.st).2);
            assert(LowSt { j: v.j as int, st: v.st@, out: prefix + low_virtual(v, b), split: w.split, fail: false } == t);
            assert(t.j > cur.j);
            if t.j >= until {
                assert(low_to(c, l, t, until as int) == t);
            }
            if v.j >= until {
                if v.j > until && v.j < b.len() {
                    lemma_ascii_then_boundary(b, v.j - 1);
                }
            }
        }
    }
    proof {
        assert(low_to(c, l, LowSt { j: v.j as int, st: v.st@, out: prefix + low_virtual(v, b), split: w.split, fail: false }, until as int)
            == LowSt { j: v.j as int, st: v.st@, out: prefix + low_virtual(v, b), split: w.split, fail: false });
        if v.j < until {
            assert(v.j == b.len());
        }
    }
}

/// Floor quotient and non-negative remainder of `x` by 12.
fn div_mod_12(x: i32) -> (r: (i32, i32))
    ensures
        r.0 as int == x as int / 12,
        r.1 as int == x as int % 12,
{
    let shifted: u64 = (x as i64 + 2_400_000_000i64) as u64;
    let q = shifted / 12;
    let m = shifted % 12;
    proof {
        assert(x as int + 2_400_000_000 == 12 * q + m);
        assert((x as int) / 12 == q - 200_000_000 && (x as int) % 12 == m) by (nonlinear_arith)
            requires
                x as int + 2_400_000_000 == 12 * (q as int) + (m as int),
                0 <= m < 12;
    }
    ((q as i64 - 200_000_000i64) as i32, m as i32)
}

fn compute_end_drift(a: &BraceState, b: &BraceState) -> (r: i32)
    requires
        a.wf(),
        b.wf(),
        i32::MIN < end_drift(a@, b@) <= i32::MAX,
    ensures
        r as int == end_drift(a@, b@),
{
    match (a.active_channel(), b.active_channel()) {
        (None, None) => a.shared_octave() - b.shared_octave(),
        (Some(x), Some(y)) => {
            if x == y {
                a.channel_octave()[x] - b.channel_octave()[x]
            } else {
                0
            }
        },
        _ => 0,
    }
}

/// The lower state before the first note.
pub open spec fn low_start(st0: BraceModel) -> LowSt {
    LowSt { j: 0, st: st0, out: Seq::empty(), split: 0, fail: false }
}

/// The rewritten selection bytes after the lower scan `w2`, with the
/// final drift inserted after the last note.
pub open spec fn assembled(w2: LowSt, drift: int) -> Seq<u8> {
    w2.out.subrange(0, w2.split) + shift_bytes(drift) + w2.out.subrange(w2.split, w2.out.len() as int)
}

proof fn lemma_shift_bytes_ascii(shift: int)
    ensures
        forall|k: int| 0 <= k < shift_bytes(shift).len() ==> (#[trigger] shift_bytes(shift)[k]) < 0x80u8,
{
}

#[verifier::rlimit(80)]
fn lower_exec(sel: &str, lo: &LiftOut, st0: BraceState, d: Direction, Ghost(c): Ghost<TCtx>, Ghost(l): Ghost<LiftSt>) -> (r: String)
    requires
        c.sel == sel.spec_bytes(),
        shifts_view(lo.shifts@) == l.shifts,
        ends_view(lo.ends@) == l.ends,
        notes_view(lo.notes@) == l.notes,
        lo.ks@ == l.ks,
        lo.st.wf(),
        lo.st@ == l.st,
        lift_wf(c, l),
        l.notes.len() > 0,
        transform_fits(l.notes, d),
        st0.wf(),
        !low_to(c, l, low_notes(c, l, d, low_start(st0@), 0), c.sel.len() as int).fail,
        i32::MIN < end_drift(l.st, low_to(c, l, low_notes(c, l, d, low_start(st0@), 0), c.sel.len() as int).st) <= i32::MAX,
    ensures
        encode_utf8(r@) == ({
            let w2 = low_to(c, l, low_notes(c, l, d, low_start(st0@), 0), c.sel.len() as int);
            assembled(w2, end_drift(l.st, w2.st))
        }),
{
    let bytes = sel.as_bytes();
    let ghost b = c.sel;
    proof {
        vstd::utf8::encode_utf8_valid_utf8(sel@);
    }
    let ghost w0 = low_start(st0@);
    let ghost w1 = low_notes(c, l, d, w0, 0);
    let ghost w2 = low_to(c, l, w1, b.len() as int);
    let mut v = LowVars { j: 0, st: st0, out: String::new(), pos: 0 };
    let mut head = String::new();
    let ghost mut split: int = 0;
    let ghost mut done_last = false;
    let n_notes = lo.notes.len();
    let mut k: usize = 0;
    proof {
        assert(low_virtual(&v, b) =~= Seq::<u8>::empty());
        assert(encode_utf8(head@) =~= Seq::<u8>::empty());
        assert(LowSt { j: 0, st: v.st@, out: encode_utf8(head@) + low_virtual(&v, b), split: 0, fail: false } == w0);
    }
    while k < n_notes
        invariant
            b == c.sel,
            c.sel == sel.spec_bytes(),
            c.sel == bytes@,
            vstd::utf8::valid_utf8(b),
            shifts_view(lo.shifts@) == l.shifts,
            ends_view(lo.ends@) == l.ends,
            notes_view(lo.notes@) == l.notes,
            lo.ks@ == l.ks,
            lift_wf(c, l),
            n_notes == lo.notes@.len(),
            n_notes == l.notes.len(),
            n_notes > 0,
            transform_fits(l.notes, d),
            k <= n_notes,
            v.st.wf(),
            v.pos <= v.j <= b.len(),
            at_boundary(b, v.pos as int),
            at_boundary(b, v.j as int),
            k < n_notes ==> head@ == Seq::<char>::empty(),
            k == n_notes ==> encode_utf8(head@).len() == split,
            w1 == low_notes(c, l, d, w0, 0),
            w2 == low_to(c, l, w1, b.len() as int),
            !w2.fail,
            w1 == low_notes(c, l, d, LowSt { j: v.j as int, st: v.st@, out: encode_utf8(head@) + low_virtual(&v, b), split, fail: false }, k as int),
        decreases n_notes - k,
    {
        let ghost cur = LowSt { j: v.j as int, st: v.st@, out: encode_utf8(head@) + low_virtual(&v, b), split, fail: false };
        let note = lo.notes[k];
        let ghost gn = l.notes[k as int];
        assert(gn == Note { off: note.0 as int, len: note.1 as int, midi: note.2 as int });
        proof {
            assert(0 <= gn.off && gn.off + gn.len <= b.len() && 1 <= gn.len <= 2);
            assert(b[gn.off] < 0x80u8);
        }
        let ghost wa = low_to(c, l, cur, note.0 as int);
        proof {
            // A failing scan before this note would fail the whole scan.
            if wa.fail {
                assert(low_notes(c, l, d, cur, k as int) == wa);
                lemma_low_to_fail(c, l, wa, b.len() as int);
            }
        }
        low_run_to(&mut v, note.0, sel, bytes, lo, Ghost(c), Ghost(l), Ghost(cur), Ghost(encode_utf8(head@)));
        let midi2 = note.2 + if matches!(d, Direction::Up) { 1i32 } else { -1i32 };
        proof {
            assert(i32::MIN <= l.notes[k as int].midi + dir_delta(d) <= i32::MAX);
        }
        let (q, m) = div_mod_12(midi2);
        let new_oct = q + 1;
        let (letter, g) = spell_semitone_exec(m, &lo.ks, d);
        let cur_oct = v.st.current_octave();
        let ghost nt = note_text(gn, v.st@, l.ks, d);
        proof {
            if nt is None {
                assert(low_notes(c, l, d, cur, k as int).fail);
                lemma_low_to_fail(c, l, low_notes(c, l, d, cur, k as int), b.len() as int);
            }
        }
        let diff = new_oct - cur_oct;
        let ghost vj = v.j;
        let ghost o0 = v.out@;
        let ghost p0 = v.pos;
        let ghost st_a = v.st@;
        proof {
            assert(wa.out == encode_utf8(head@) + (encode_utf8(o0) + b.subrange(p0 as int, vj as int)));
            assert(wa.st == st_a);
            assert(wa.j == vj);
        }
        flush(&mut v.out, sel, v.pos, v.j);
        push_shift_bytes(&mut v.out, diff);
        push_ascii(&mut v.out, letter);
        if g == 1 {
            push_ascii(&mut v.out, '=');
        } else if g == 2 {
            push_ascii(&mut v.out, '+');
        } else if g == 3 {
            push_ascii(&mut v.out, '-');
        }
        v.st.on_octave_set(new_oct);
        assert(note.0 + note.1 <= bytes.len());
        let end = note.0 + note.1;
        v.j = end;
        v.pos = end;
        proof {
            if end < b.len() {
                lemma_ascii_then_boundary(b, end - 1);
            }
            let text = shift_bytes(diff as int) + seq![letter as u8] + spell_glyph(g);
            assert(nt == Some((text, new_oct as int)));
            assert(low_virtual(&v, b) =~= encode_utf8(v.out@));
            assert(encode_utf8(v.out@) =~= encode_utf8(o0) + b.subrange(p0 as int, vj as int) + text);
            assert(encode_utf8(head@) + low_virtual(&v, b) =~= wa.out + text);
            assert(v.st@ == model_set(wa.st, new_oct));
            assert(low_notes(c, l, d, cur, k as int) == low_notes(c, l, d, LowSt {
                j: gn.off + gn.len,
                st: model_set(wa.st, new_oct),
                out: wa.out + text,
                split: (wa.out + text).len() as int,
                fail: false,
            }, k + 1));
        }
        let ghost next_split = (encode_utf8(head@) + encode_utf8(v.out@)).len() as int;
        if k + 1 == n_notes {
            head = v.out.clone();
            v.out = String::new();
            proof {
                assert(encode_utf8(v.out@) =~= Seq::<u8>::empty());
            }
        }
        proof {
            split = next_split;
        }
        k += 1;
    }
    low_run_to(&mut v, bytes.len(), sel, bytes, lo, Ghost(c), Ghost(l), Ghost(w1), Ghost(encode_utf8(head@)));
    let drift = compute_end_drift(&lo.st, &v.st);
    flush(&mut v.out, sel, v.pos, v.j);
    let mut r = head;
    push_shift_bytes(&mut r, drift);
    let rest = str_chars(v.out.as_str());
    let ghost r_before = r@;
    push_chars(&mut r, rest.as_slice());
    proof {
        lemma_encode_concat(r_before, v.out@);
    }
    r
}

proof fn lemma_low_to_fail(c: TCtx, l: LiftSt, w: LowSt, until: int)
    requires
        w.fail,
    ensures
        low_to(c, l, w, until).fail,
{
}

fn collect_selection<R: LineReader>(model: &R, selection: Selection) -> (r: (Vec<String>, Vec<String>, String))
    requires
        selection_slices_ok(model, selection),
    ensures
        strings_hold(r.0@, sel_fulls(model, selection)),
        strings_hold(r.1@, sel_parts(model, selection)),
        encode_utf8(r.2@) == join_nl(sel_parts(model, selection)),
{
    let start = selection.start_line_number;
    let end = selection.end_line_number;
    let count: u64 = if end >= start { (end - start) as u64 + 1 } else { 0 };
    let ghost fulls = sel_fulls(model, selection);
    let ghost parts = sel_parts(model, selection);
    let mut full_lines: Vec<String> = Vec::new();
    let mut sel_lines: Vec<String> = Vec::new();
    let mut sel_text = String::new();
    let mut k: u64 = 0;
    proof {
        assert(join_nl(parts.subrange(0, 0)) =~= Seq::<u8>::empty());
        assert(encode_utf8(sel_text@) =~= Seq::<u8>::empty());
    }
    while k < count
        invariant
            start == selection.start_line_number,
            end == selection.end_line_number,
            count == sel_line_count(selection),
            k <= count,
            fulls == sel_fulls(model, selection),
            parts == sel_parts(model, selection),
            selection_slices_ok(model, selection),
            strings_hold(full_lines@, fulls.subrange(0, k as int)),
            strings_hold(sel_lines@, parts.subrange(0, k as int)),
            encode_utf8(sel_text@) == join_nl(parts.subrange(0, k as int)),
        decreases count - k,
    {
        assert(start as u64 + k <= u32::MAX);
        let ln: u32 = (start as u64 + k) as u32;
        let full = model.get_line_content(ln);
        let bytes = full.as_bytes();
        let ghost lb = line_bytes(model, ln);
        assert(full.spec_bytes() == lb);
        let from: usize = if ln == start {
            let c: usize = if selection.start_column == 0 { 0 } else { (selection.start_column - 1) as usize };
            if c < bytes.len() { c } else { bytes.len() }
        } else {
            0
        };
        let to: usize = if ln == end {
            let c: usize = if selection.end_column == 0 { 0 } else { (selection.end_column - 1) as usize };
            if c < bytes.len() { c } else { bytes.len() }
        } else {
            bytes.len()
        };
        proof {
            assert(line_bytes(model, (selection.start_line_number + k) as u32) == lb);
            assert(sel_range(selection, k as int, lb) == (from as int, to as int));
        }
        let part = sub_str(full, from, to);
        let ghost before = sel_text@;
        if k > 0 {
            push_ascii(&mut sel_text, '\n');
        }
        let cs = str_chars(part);
        let ghost mid = sel_text@;
        push_chars(&mut sel_text, cs.as_slice());
        proof {
            lemma_encode_concat(mid, part@);
            assert(parts[k as int] == part.spec_bytes());
            let ps = parts.subrange(0, k + 1);
            assert(ps.drop_last() =~= parts.subrange(0, k as int));
            if k > 0 {
                assert(encode_utf8(sel_text@) =~= join_nl(ps));
            } else {
                assert(encode_utf8(before) =~= Seq::<u8>::empty());
                assert(encode_utf8(sel_text@) =~= join_nl(ps));
            }
        }
        let ghost fl0 = full_lines@;
        let ghost sl0 = sel_lines@;
        full_lines.push(full.to_owned());
        sel_lines.push(part.to_owned());
        proof {
            assert(fulls[k as int] == lb);
            assert forall|m: int| 0 <= m < full_lines@.len() implies encode_utf8((#[trigger] full_lines@[m])@) == fulls.subrange(0, k + 1)[m] by {
                if m < k {
                    assert(full_lines@[m] == fl0[m]);
                }
            }
            assert forall|m: int| 0 <= m < sel_lines@.len() implies encode_utf8((#[trigger] sel_lines@[m])@) == parts.subrange(0, k + 1)[m] by {
                if m < k {
                    assert(sel_lines@[m] == sl0[m]);
                }
            }
        }
        k += 1;
    }
    assert(fulls.subrange(0, count as int) =~= fulls);
    assert(parts.subrange(0, count as int) =~= parts);
    (full_lines, sel_lines, sel_text)
}

/// Transpose every note of `selection` by one semitone in `direction`:
/// the edit replacing the selection with the rewritten text, or `None`
/// when the selection holds no note or the rewrite changes nothing.
pub fn transpose_selection<R: LineReader>(model: &R, selection: Selection, direction: Direction) -> (r: Option<TransposeEdit>)
    requires
        transpose_ok(model, selection, direction),
    ensures
        match spec_transpose(model, selection, direction) {
            TransposeOutcome::Edit(t) => r matches Some(e) && encode_utf8(e.text@) == t
                && e.start_line_number == selection.start_line_number
                && e.start_column == selection.start_column
                && e.end_line_number == selection.end_line_number
                && e.end_column == selection.end_column,
            _ => r is None,
        },
{
    let start_line = selection.start_line_number;
    let start_col = selection.start_column;
    let key_sig = scan_key_sig_at(model, start_line, start_col);
    let selector = find_enclosing_track_selector(model, start_line);
    let num_channels: usize = match &selector {
        Some(s) => if s.spans.len() < 1 { 1 } else { s.spans.len() },
        None => 1,
    };
    assert(num_channels == track_channels(model, start_line));
    let start_ctx = scan_brace_state_at(model, start_line, start_col, num_channels, None);
    let (full_lines, sel_lines, sel_text) = collect_selection(model, selection);
    let col_offset: usize = if start_col == 0 { 0 } else { (start_col - 1) as usize };
    let ghost c = tctx(model, selection);
    assert(encode_utf8(sel_text@) == c.sel);
    let lifted = lift_exec(sel_text.as_str(), &full_lines, &sel_lines, col_offset, start_ctx.duplicate(), key_sig, Ghost(c));
    let ghost l = lift(c, lift_start(start_ctx@, key_sig@));
    proof {
        assert(start_ctx@ == start_state(model, selection));
        assert(spec_transpose(model, selection, direction) == transpose_text(c, start_ctx@, key_sig@, direction));
        lemma_lift_wf(c, lift_start(start_ctx@, key_sig@));
        assert(lift_wf(c, lift_start(start_ctx@, key_sig@)));
        assert(notes_view(lifted.notes@).len() == lifted.notes@.len());
    }
    if lifted.notes.len() == 0 {
        return None;
    }
    let ghost w2 = low_to(c, l, low_notes(c, l, direction, low_start(start_ctx@), 0), c.sel.len() as int);
    let result = lower_exec(sel_text.as_str(), &lifted, start_ctx, direction, Ghost(c), Ghost(l));
    proof {
        vstd::utf8::encode_utf8_decode_utf8(result@);
        vstd::utf8::encode_utf8_decode_utf8(sel_text@);
    }
    if str_eq(result.as_str(), sel_text.as_str()) {
        return None;
    }
    proof {
        assert(encode_utf8(result@) != c.sel);
    }
    Some(TransposeEdit {
        start_line_number: selection.start_line_number,
        start_column: selection.start_column,
        end_line_number: selection.end_line_number,
        end_column: selection.end_column,
        text: result,
    })
}

} // verus!
