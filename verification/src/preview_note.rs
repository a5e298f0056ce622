//! Note-input preview.
//!
//! When the user types a note letter, an accidental (`+`/`-`) right after
//! a note letter, the editor plays a short preview of that note in the
//! current channel context. [`preview_note_at`] decides whether the
//! keystroke is such an event and gathers what the host needs to play it:
//! the MIDI pitch (from the channel's octave and the key signature), the
//! range to flash, and the playback context (tempo, default length,
//! quantize, volume and PSG noise mode) in effect at the cursor.

use vstd::prelude::*;
use vstd::string::StringSliceAdditionalSpecFns;
use vstd::utf8::{decode_utf8, encode_utf8};
use crate::strings::{
    ascii_lower, to_ascii_lower, str_chars, char_find, lemma_char_find, find_char, char_digits_value,
    char_digit_run_end, scan_digit_chars, parse_u32_slice, parse_u32_chars, trim_start_chars,
    skip_ws_forward, lemma_byte_find, find_byte,
};
use crate::text_scan::{
    at_boundary, sub_str, comment_before, in_key_sig, is_in_comment, is_in_key_sig,
};
use crate::key_sig::{KeySig, sig_get_or_zero, scan_raw_end, segment_end, spec_scan_key_sig, scan_key_sig_at};
use crate::track_selector::{
    LineReader, line_bytes, leading_selector, enclosing_selector, parse_leading_track_selector,
    find_enclosing_track_selector_at,
};
use crate::octave_scan::{spec_channel_scan, scan_channel_context_at};
use crate::string_model::{LinesModel, is_text_model, text_model, lemma_text_models_agree};

verus! {

/// What [`preview_note_at`] reports for a note-input keystroke: enough
/// for the host to pick a synth voice and decide how long to sustain it.
#[derive(Debug, Clone, PartialEq, Eq)]
pub struct PreviewNoteHit {
    /// MIDI pitch, clamped to `0..=127`.
    pub midi: u8,
    /// Range to flash on screen (0-based, half-open): the note letter, or
    /// the letter and its accidental.
    pub pulse_start: u32,
    pub pulse_end: u32,
    /// Playback context at the cursor.
    pub tempo: u32,
    pub length: u32,
    pub quantize: u32,
    pub volume: u32,
    /// PSG noise mode (`0..=2`) from the latest `'mode N'` command.
    pub noise_mode: u8,
}

/// A note letter that previews (`h` is the German `b`).
pub open spec fn preview_letter(c: char) -> bool {
    c == 'c' || c == 'd' || c == 'e' || c == 'f' || c == 'g' || c == 'a' || c == 'b' || c == 'h'
}

/// Semitones above `c` of a preview letter.
pub open spec fn preview_semitone(c: char) -> int {
    if c == 'c' { 0 } else if c == 'd' { 2 } else if c == 'e' { 4 } else if c == 'f' { 5 }
    else if c == 'g' { 7 } else if c == 'a' { 9 } else { 11 }
}

/// The 1-based line of a 0-based line number (saturating).
pub open spec fn one_based(line: u32) -> u32 {
    if line == u32::MAX { u32::MAX } else { (line + 1) as u32 }
}

/// The note a keystroke names on line bytes `lb` at 0-based `col`:
/// its letter, an explicit accidental for `+`/`-` typed right after a
/// note letter, and the range to flash.
pub open spec fn typed_note(lb: Seq<u8>, col: int, typed: char) -> Option<(char, Option<int>, int, int)> {
    let tl = ascii_lower(typed);
    if preview_letter(tl) {
        Some((tl, None, col, col + 1))
    } else if tl == '+' || tl == '-' {
        if col == 0 || col - 1 >= lb.len() {
            None
        } else {
            let pl = ascii_lower(lb[col - 1] as char);
            if preview_letter(pl) {
                Some((pl, Some(if tl == '+' { 1int } else { -1int }), col - 1, col + 1))
            } else {
                None
            }
        }
    } else {
        None
    }
}

/// Playback parameters gathered walking back from the cursor; `-1` when
/// not seen yet.
pub struct ScanParams {
    pub tempo: int,
    pub length: int,
    pub quantize: int,
    pub volume: int,
    pub noise: int,
    pub has_track: bool,
}

/// Nothing seen yet.
pub open spec fn initial_params() -> ScanParams {
    ScanParams { tempo: -1, length: -1, quantize: -1, volume: -1, noise: -1, has_track: false }
}

/// The number written right after index `s - 1`: a non-empty run of
/// ASCII digits from `s` whose value fits in an `i32`.
pub open spec fn take_num(cs: Seq<char>, s: int) -> Option<int> {
    let d = cs.subrange(s, char_digit_run_end(cs, s));
    if d.len() == 0 || char_digits_value(d) > i32::MAX {
        None
    } else {
        Some(char_digits_value(d) as int)
    }
}

/// Scan `cs[..i]` right to left: the first `t`/`T` (tempo), `l`/`L`
/// (length), `Q` (quantize) or `v` (volume) followed by a number sets that
/// parameter if it is still unset.
pub open spec fn params_back(cs: Seq<char>, i: int, p: ScanParams) -> ScanParams
    decreases i,
{
    if i <= 0 || i > cs.len() {
        p
    } else {
        let k = i - 1;
        let c = cs[k];
        let n = take_num(cs, k + 1);
        let p2 = if (c == 't' || c == 'T') && p.tempo < 0 && n is Some {
            ScanParams { tempo: n->0, ..p }
        } else if (c == 'l' || c == 'L') && p.length < 0 && n is Some {
            ScanParams { length: n->0, ..p }
        } else if c == 'Q' && p.quantize < 0 && n is Some {
            ScanParams { quantize: n->0, ..p }
        } else if c == 'v' && p.volume < 0 && n is Some {
            ScanParams { volume: n->0, ..p }
        } else {
            p
        };
        params_back(cs, k, p2)
    }
}

/// The noise mode of a quoted platform command `mode N`: `N` a run of
/// digits (after optional whitespace) fitting in a `u8`, read as 1, 2 or
/// else 0.
pub open spec fn mode_value(inner: Seq<char>) -> Option<int> {
    if inner.len() >= 4 && inner.subrange(0, 4) == seq!['m', 'o', 'd', 'e'] {
        let rest = trim_start_chars(inner.subrange(4, inner.len() as int));
        let d = rest.subrange(0, char_digit_run_end(rest, 0));
        if d.len() == 0 || char_digits_value(d) > 255 {
            None
        } else {
            let v = char_digits_value(d);
            Some(if v == 1 { 1int } else if v == 2 { 2int } else { 0int })
        }
    } else {
        None
    }
}

/// The last noise mode among the closed `'...'` commands of `cs` from
/// `idx`, else `found`.
pub open spec fn noise_from(cs: Seq<char>, idx: int, found: Option<int>) -> Option<int>
    decreases cs.len() - idx,
{
    if idx < 0 || idx >= cs.len() {
        found
    } else if cs[idx] != '\'' {
        noise_from(cs, idx + 1, found)
    } else {
        let close = char_find(cs, '\'', idx + 1);
        if close >= cs.len() {
            found
        } else {
            proof {
                lemma_char_find(cs, '\'', idx + 1);
            }
            noise_from(cs, close + 1, match mode_value(cs.subrange(idx + 1, close)) {
                Some(v) => Some(v),
                None => found,
            })
        }
    }
}

/// The characters of line bytes `b` before the cursor (on the cursor
/// line) and before any `;`.
pub open spec fn seg_chars(b: Seq<u8>, cursor: bool, col1: u32) -> Seq<char> {
    decode_utf8(b.subrange(0, segment_end(b, scan_raw_end(b, cursor, col1))))
}

/// One line of the backward scan: the noise mode if still unset, then the
/// playback parameters right to left.
pub open spec fn line_params(cs: Seq<char>, p: ScanParams) -> ScanParams {
    let p1 = if p.noise < 0 {
        match noise_from(cs, 0, None) {
            Some(v) => ScanParams { noise: v, ..p },
            None => p,
        }
    } else {
        p
    };
    params_back(cs, cs.len() as int, p1)
}

/// Walk back from line `ln` to the nearest track selector line (included)
/// or line 1, gathering playback parameters; `col1` is the 1-based cursor
/// column on line `line`.
pub open spec fn ctx_scan<R: LineReader>(m: &R, line: u32, col1: u32, ln: u32, p: ScanParams) -> ScanParams
    decreases ln,
{
    let b = line_bytes(m, ln);
    let p2 = line_params(seg_chars(b, ln == line, col1), p);
    if leading_selector(b) is Some {
        ScanParams { has_track: true, ..p2 }
    } else if ln <= 1 {
        p2
    } else {
        ctx_scan(m, line, col1, (ln - 1) as u32, p2)
    }
}

/// Channel count and track line of the enclosing track selector.
pub open spec fn preview_channels<R: LineReader>(m: &R, l1: u32) -> (usize, Option<u32>) {
    match enclosing_selector(m, l1) {
        Some((p, ln)) => (if p.0.len() < 1 { 1usize } else { p.0.len() as usize }, Some(ln)),
        None => (1usize, None),
    }
}

/// The octave of the channel the cursor plays in (channel 0 outside a
/// `{...}` branch).
pub open spec fn preview_octave<R: LineReader>(m: &R, l1: u32, col1: u32) -> int {
    let (n, tl) = preview_channels(m, l1);
    let st = spec_channel_scan(m, l1, col1, n, tl);
    let a = if 0 <= st.cur < st.chans.len() { st.cur } else { 0 };
    if a < st.chans.len() { st.chans[a] as int } else { 6 }
}

/// The accidental the key signature gives `letter` (`h` read as `b`).
pub open spec fn sig_offset(ks: Seq<Option<i8>>, letter: char) -> int {
    sig_get_or_zero(ks, if letter == 'h' { 'b' } else { letter }) as int
}

/// The MIDI pitch of a note, clamped to `0..=127`.
pub open spec fn clamp_midi(v: int) -> int {
    if v < 0 { 0 } else if v > 127 { 127 } else { v }
}

/// The keystroke reaches the context scan: not in a comment or a key
/// signature block, not an upper-case letter, and naming a note.
pub open spec fn preview_reaches<R: LineReader>(m: &R, line: u32, col: u32, typed: char) -> bool {
    let lb = line_bytes(m, one_based(line));
    &&& !comment_before(lb, col as int)
    &&& !in_key_sig(lb, col as int)
    &&& ascii_lower(typed) == typed
    &&& typed_note(lb, col as int, typed) is Some
}

/// The MIDI value before clamping.
pub open spec fn raw_midi<R: LineReader>(m: &R, line: u32, col: u32, typed: char) -> int {
    let l1 = one_based(line);
    let col1 = (col + 1) as u32;
    let t = typed_note(line_bytes(m, l1), col as int, typed)->0;
    let acc = match t.1 {
        Some(a) => a,
        None => sig_offset(spec_scan_key_sig(m, l1, col1), t.0),
    };
    (preview_octave(m, l1, col1) - 1) * 12 + preview_semitone(t.0) + acc
}

/// The preview for typing `typed` at 0-based `(line, col)`, where `col`
/// is the column of the typed character itself.
pub open spec fn spec_preview<R: LineReader>(m: &R, line: u32, col: u32, typed: char) -> Option<PreviewNoteHit> {
    let l1 = one_based(line);
    let col1 = (col + 1) as u32;
    if !preview_reaches(m, line, col, typed) {
        None
    } else {
        let t = typed_note(line_bytes(m, l1), col as int, typed)->0;
        let p = ctx_scan(m, l1, col1, l1, initial_params());
        if !p.has_track {
            None
        } else {
            Some(PreviewNoteHit {
                midi: clamp_midi(raw_midi(m, line, col, typed)) as u8,
                pulse_start: t.2 as u32,
                pulse_end: t.3 as u32,
                tempo: (if p.tempo >= 0 { p.tempo } else { 120 }) as u32,
                length: (if p.length >= 0 { p.length } else { 4 }) as u32,
                quantize: (if p.quantize >= 1 { if p.quantize < 8 { p.quantize } else { 8 } } else { 8 }) as u32,
                volume: (if p.volume >= 0 { if p.volume < 15 { p.volume } else { 15 } } else { 15 }) as u32,
                noise_mode: (if p.noise == 1 { 1int } else if p.noise == 2 { 2int } else { 0int }) as u8,
            })
        }
    }
}

/// The inputs on which the preview is computed without overflow and on
/// character boundaries: when the keystroke reaches the context scan, the
/// column is below `u32::MAX`, the cursor's comment-free prefix ends on a
/// character boundary, the octave scan stays within `i32`, and so does
/// the MIDI arithmetic.
pub open spec fn preview_ok<R: LineReader>(m: &R, line: u32, col: u32, typed: char) -> bool {
    let l1 = one_based(line);
    let lb = line_bytes(m, l1);
    preview_reaches(m, line, col, typed) ==> {
        &&& col < u32::MAX
        &&& at_boundary(lb, segment_end(lb, scan_raw_end(lb, true, (col + 1) as u32)))
        &&& spec_channel_scan(m, l1, (col + 1) as u32, preview_channels(m, l1).0, preview_channels(m, l1).1).ok
        &&& ctx_scan(m, l1, (col + 1) as u32, l1, initial_params()).has_track ==> {
            let o = preview_octave(m, l1, (col + 1) as u32);
            let t = typed_note(lb, col as int, typed)->0;
            &&& i32::MIN < o
            &&& i32::MIN <= (o - 1) * 12 <= i32::MAX
            &&& i32::MIN <= (o - 1) * 12 + preview_semitone(t.0) <= i32::MAX
            &&& i32::MIN <= raw_midi(m, line, col, typed) <= i32::MAX
        }
    }
}


proof fn lemma_run_digits(s: Seq<char>, i: int)
    requires
        0 <= i <= s.len(),
    ensures
        i <= char_digit_run_end(s, i) <= s.len(),
        forall|k: int| i <= k < char_digit_run_end(s, i) ==> crate::strings::is_digit_char(#[trigger] s[k]),
        char_digit_run_end(s, i) < s.len() ==> !crate::strings::is_digit_char(s[char_digit_run_end(s, i)]),
    decreases s.len() - i,
{
    if i < s.len() && crate::strings::is_digit_char(s[i]) {
        lemma_run_digits(s, i + 1);
    }
}

proof fn lemma_run_suffix(s: Seq<char>, j: int, k: int)
    requires
        0 <= j <= k <= s.len(),
    ensures
        char_digit_run_end(s.subrange(j, s.len() as int), k - j) + j == char_digit_run_end(s, k),
    decreases s.len() - k,
{
    let t = s.subrange(j, s.len() as int);
    if k < s.len() {
        assert(t[k - j] == s[k]);
        if crate::strings::is_digit_char(s[k]) {
            lemma_run_suffix(s, j, k + 1);
        }
    }
}

/// `parse_u32_chars` of a non-empty digit run is its value when it fits.
proof fn lemma_parse_digit_run(d: Seq<char>)
    requires
        d.len() > 0,
        forall|k: int| 0 <= k < d.len() ==> crate::strings::is_digit_char(#[trigger] d[k]),
    ensures
        parse_u32_chars(d) == (if char_digits_value(d) > u32::MAX { None } else { Some(char_digits_value(d) as u32) }),
{
    assert(crate::strings::strip_plus(d) == d);
}

/// The number right after index `s - 1`, if it fits in an `i32`.
fn take_number(cs: &[char], s: usize) -> (r: Option<i32>)
    requires
        s <= cs@.len(),
    ensures
        match take_num(cs@, s as int) {
            Some(v) => r == Some(v as i32),
            None => r is None,
        },
{
    let e = scan_digit_chars(cs, s);
    proof {
        lemma_run_digits(cs@, s as int);
    }
    if e == s {
        return None;
    }
    let ghost d = cs@.subrange(s as int, e as int);
    proof {
        lemma_parse_digit_run(d);
    }
    match parse_u32_slice(cs, s, e) {
        Some(v) => {
            if v <= 2147483647u32 {
                Some(v as i32)
            } else {
                None
            }
        },
        None => None,
    }
}

/// Exec mirror of [`ScanParams`].
struct ScanState {
    tempo: i32,
    length: i32,
    quantize: i32,
    volume: i32,
    noise: i32,
    has_track: bool,
}

spec fn state_view(s: ScanState) -> ScanParams {
    ScanParams {
        tempo: s.tempo as int,
        length: s.length as int,
        quantize: s.quantize as int,
        volume: s.volume as int,
        noise: s.noise as int,
        has_track: s.has_track,
    }
}

fn params_back_exec(cs: &[char], st: ScanState) -> (r: ScanState)
    ensures
        state_view(r) == params_back(cs@, cs@.len() as int, state_view(st)),
{
    let mut cur = st;
    let mut i: usize = cs.len();
    while i > 0
        invariant
            i <= cs@.len(),
            params_back(cs@, cs@.len() as int, state_view(st)) == params_back(cs@, i as int, state_view(cur)),
        decreases i,
    {
        let k = i - 1;
        let c = cs[k];
        let n = take_number(cs, k + 1);
        if (c == 't' || c == 'T') && cur.tempo < 0 && n.is_some() {
            cur = ScanState { tempo: n.unwrap(), ..cur };
        } else if (c == 'l' || c == 'L') && cur.length < 0 && n.is_some() {
            cur = ScanState { length: n.unwrap(), ..cur };
        } else if c == 'Q' && cur.quantize < 0 && n.is_some() {
            cur = ScanState { quantize: n.unwrap(), ..cur };
        } else if c == 'v' && cur.volume < 0 && n.is_some() {
            cur = ScanState { volume: n.unwrap(), ..cur };
        }
        i = k;
    }
    cur
}

fn mode_of(inner: &[char]) -> (r: Option<i32>)
    ensures
        match mode_value(inner@) {
            Some(v) => r == Some(v as i32),
            None => r is None,
        },
{
    if inner.len() < 4 || inner[0] != 'm' || inner[1] != 'o' || inner[2] != 'd' || inner[3] != 'e' {
        proof {
            if inner@.len() >= 4 && inner@.subrange(0, 4) == seq!['m', 'o', 'd', 'e'] {
                assert(inner@.subrange(0, 4)[0] == inner@[0]);
                assert(inner@.subrange(0, 4)[1] == inner@[1]);
                assert(inner@.subrange(0, 4)[2] == inner@[2]);
                assert(inner@.subrange(0, 4)[3] == inner@[3]);
            }
        }
        return None;
    }
    assert(inner@.subrange(0, 4) =~= seq!['m', 'o', 'd', 'e']);
    let j = skip_ws_forward(inner, 4, inner.len());
    let e = scan_digit_chars(inner, j);
    let ghost rest = inner@.subrange(j as int, inner@.len() as int);
    proof {
        lemma_run_suffix(inner@, j as int, j as int);
        lemma_run_digits(inner@, j as int);
        assert(rest.subrange(0, char_digit_run_end(rest, 0)) =~= inner@.subrange(j as int, e as int));
    }
    if e == j {
        return None;
    }
    proof {
        lemma_parse_digit_run(inner@.subrange(j as int, e as int));
    }
    match parse_u32_slice(inner, j, e) {
        Some(v) => {
            if v <= 255 {
                if v == 1 {
                    Some(1)
                } else if v == 2 {
                    Some(2)
                } else {
                    Some(0)
                }
            } else {
                None
            }
        },
        None => None,
    }
}

fn noise_exec(cs: &[char]) -> (r: Option<i32>)
    ensures
        match noise_from(cs@, 0, None) {
            Some(v) => r == Some(v as i32) && 0 <= v <= 2,
            None => r is None,
        },
{
    let mut found: Option<i32> = None;
    let ghost gfound: Option<int> = None;
    let mut idx: usize = 0;
    while idx < cs.len()
        invariant
            idx <= cs@.len(),
            noise_from(cs@, 0, None) == noise_from(cs@, idx as int, gfound),
            match gfound {
                Some(v) => found == Some(v as i32) && 0 <= v <= 2,
                None => found is None,
            },
        decreases cs@.len() - idx,
    {
        if cs[idx] != '\'' {
            idx += 1;
            continue;
        }
        let mut close = idx + 1;
        while close < cs.len() && cs[close] != '\''
            invariant
                idx < close <= cs@.len(),
                char_find(cs@, '\'', idx + 1) == char_find(cs@, '\'', close as int),
            decreases cs@.len() - close,
        {
            close += 1;
        }
        if close >= cs.len() {
            proof {
                assert(noise_from(cs@, idx as int, gfound) == gfound);
            }
            idx = cs.len();
            continue;
        }
        let inner = crate::strings::chars_between(cs, idx + 1, close);
        match mode_of(inner.as_slice()) {
            Some(v) => {
                found = Some(v);
                proof {
                    gfound = Some(v as int);
                }
            },
            None => {},
        }
        idx = close + 1;
    }
    found
}

/// The part of `line` before the cursor (on the cursor line) and before
/// any `;`.
fn line_segment(line: &str, cursor: bool, col1: u32) -> (r: &str)
    requires
        cursor ==> at_boundary(line.spec_bytes(), segment_end(line.spec_bytes(), scan_raw_end(line.spec_bytes(), true, col1))),
    ensures
        r.spec_bytes() == line.spec_bytes().subrange(0, segment_end(line.spec_bytes(), scan_raw_end(line.spec_bytes(), cursor, col1))),
        r@ == seg_chars(line.spec_bytes(), cursor, col1),
{
    let bytes = line.as_bytes();
    let ghost b = line.spec_bytes();
    let end_raw: usize = if cursor {
        let c: usize = if col1 == 0 { 0 } else { (col1 - 1) as usize };
        if c < bytes.len() { c } else { bytes.len() }
    } else {
        bytes.len()
    };
    let end = find_byte(bytes, 0x3Bu8, 0, end_raw);
    proof {
        vstd::utf8::encode_utf8_valid_utf8(line@);
        lemma_byte_find(b.subrange(0, end_raw as int), 0x3Bu8, 0);
        if end < end_raw {
            assert(b[end as int] == b.subrange(0, end_raw as int)[end as int]);
        }
        assert(b.subrange(0, end_raw as int).subrange(0, end as int) =~= b.subrange(0, end as int));
    }
    let segment = sub_str(line, 0, end);
    proof {
        vstd::utf8::encode_utf8_decode_utf8(segment@);
    }
    segment
}

/// The preview for typing `typed` at 0-based `(line, col)` of `model`.
fn preview_in<R: LineReader>(model: &R, line: u32, col: u32, typed: char) -> (r: Option<PreviewNoteHit>)
    requires
        preview_ok(model, line, col, typed),
    ensures
        r == spec_preview(model, line, col, typed),
{
    let l1: u32 = line.saturating_add(1);
    let line_text = model.get_line_content(l1);
    let lb = line_text.as_bytes();
    let ghost lbv = line_bytes(model, l1);
    assert(line_text.spec_bytes() == lbv);
    let col_zero = col as usize;
    if is_in_comment(line_text, col_zero) || is_in_key_sig(line_text, col_zero) {
        return None;
    }
    let typed_lower = to_ascii_lower(typed);
    if typed != typed_lower {
        return None;
    }
    let letter: char;
    let over: Option<i32>;
    let pulse_start: u32;
    let pulse_end: u32;
    if is_preview_letter(typed_lower) {
        assert(col < u32::MAX);
        letter = typed_lower;
        over = None;
        pulse_start = col;
        pulse_end = col + 1;
    } else if typed_lower == '+' || typed_lower == '-' {
        if col_zero == 0 || col_zero - 1 >= lb.len() {
            return None;
        }
        let prev = lb[col_zero - 1] as char;
        let prev_lower = to_ascii_lower(prev);
        if !is_preview_letter(prev_lower) {
            return None;
        }
        assert(col < u32::MAX);
        letter = prev_lower;
        over = Some(if typed_lower == '+' { 1 } else { -1 });
        pulse_start = col - 1;
        pulse_end = col + 1;
    } else {
        return None;
    }
    let ghost t = typed_note(lbv, col as int, typed)->0;
    assert(t.0 == letter && t.2 == pulse_start && t.3 == pulse_end);
    let col1: u32 = col + 1;

    // Walk back to the enclosing track selector gathering playback context.
    let ghost init = initial_params();
    let mut st = ScanState { tempo: -1, length: -1, quantize: -1, volume: -1, noise: -1, has_track: false };
    let mut ln: u32 = l1;
    let mut done = false;
    while !done
        invariant
            1 <= ln <= l1,
            l1 == one_based(line),
            col1 == col + 1,
            at_boundary(line_bytes(model, l1), segment_end(line_bytes(model, l1), scan_raw_end(line_bytes(model, l1), true, col1))),
            !done ==> ctx_scan(model, l1, col1, l1, init) == ctx_scan(model, l1, col1, ln, state_view(st)),
            done ==> ctx_scan(model, l1, col1, l1, init) == state_view(st),
        decreases ln as int * 2 + (if done { 0int } else { 1int }),
    {
        let ghost st_before = state_view(st);
        let text = model.get_line_content(ln);
        let ghost b = line_bytes(model, ln);
        assert(text.spec_bytes() == b);
        let segment = line_segment(text, ln == l1, col1);
        let cs = str_chars(segment);
        if st.noise < 0 {
            match noise_exec(cs.as_slice()) {
                Some(v) => {
                    st = ScanState { noise: v, ..st };
                },
                None => {},
            }
        }
        proof {
            let p0 = st_before;
            let p1 = if p0.noise < 0 {
                match noise_from(cs@, 0, None) {
                    Some(v) => ScanParams { noise: v, ..p0 },
                    None => p0,
                }
            } else {
                p0
            };
            assert(state_view(st) == p1);
        }
        st = params_back_exec(cs.as_slice(), st);
        assert(state_view(st) == line_params(cs@, st_before));
        if parse_leading_track_selector(text).is_some() {
            st = ScanState { has_track: true, ..st };
            done = true;
        } else if ln <= 1 {
            done = true;
        } else {
            ln = ln - 1;
        }
    }
    let ghost p = state_view(st);
    if !st.has_track {
        return None;
    }

    // The octave of the channel the cursor plays in.
    let enclosing = find_enclosing_track_selector_at(model, l1);
    let (num_channels, track_line): (usize, Option<u32>) = match &enclosing {
        Some((sel, tl)) => (if sel.spans.len() < 1 { 1 } else { sel.spans.len() }, Some(*tl)),
        None => (1, None),
    };
    assert((num_channels, track_line) == preview_channels(model, l1));
    let chans = scan_channel_context_at(model, l1, col1, num_channels, track_line);
    let active: usize = if chans.active_channel >= 0 && (chans.active_channel as usize) < chans.octaves.len() {
        chans.active_channel as usize
    } else {
        0
    };
    let octave: i32 = if active < chans.octaves.len() { chans.octaves[active] } else { 6 };
    assert(octave as int == preview_octave(model, l1, col1));

    let key_sig = scan_key_sig_at(model, l1, col1);
    let acc: i32 = match over {
        Some(a) => a,
        None => key_sig.get_or_zero(if letter == 'h' { 'b' } else { letter }) as i32,
    };
    let semitone = preview_semitone_of(letter);
    let midi_signed: i32 = (octave - 1) * 12 + semitone + acc;
    assert(midi_signed == raw_midi(model, line, col, typed));
    let midi: u8 = if midi_signed < 0 { 0 } else if midi_signed > 127 { 127 } else { midi_signed as u8 };
    Some(PreviewNoteHit {
        midi,
        pulse_start,
        pulse_end,
        tempo: if st.tempo >= 0 { st.tempo as u32 } else { 120 },
        length: if st.length >= 0 { st.length as u32 } else { 4 },
        quantize: if st.quantize >= 1 { if st.quantize < 8 { st.quantize as u32 } else { 8 } } else { 8 },
        volume: if st.volume >= 0 { if st.volume < 15 { st.volume as u32 } else { 15 } } else { 15 },
        noise_mode: if st.noise == 1 { 1 } else if st.noise == 2 { 2 } else { 0 },
    })
}

fn is_preview_letter(c: char) -> (r: bool)
    ensures
        r == preview_letter(c),
{
    c == 'c' || c == 'd' || c == 'e' || c == 'f' || c == 'g' || c == 'a' || c == 'b' || c == 'h'
}

fn preview_semitone_of(c: char) -> (r: i32)
    ensures
        r == preview_semitone(c),
{
    if c == 'c' { 0 } else if c == 'd' { 2 } else if c == 'e' { 4 } else if c == 'f' { 5 }
    else if c == 'g' { 7 } else if c == 'a' { 9 } else { 11 }
}

/// `m1` and `m2` hold the same lines.
pub open spec fn same_lines<R1: LineReader, R2: LineReader>(m1: &R1, m2: &R2) -> bool {
    forall|n: u32| #[trigger] line_bytes(m1, n) == line_bytes(m2, n)
}

pub(crate) proof fn lemma_enclosing_agree<R1: LineReader, R2: LineReader>(m1: &R1, m2: &R2, n: u32)
    requires
        same_lines(m1, m2),
    ensures
        enclosing_selector(m1, n) == enclosing_selector(m2, n),
    decreases n,
{
    assert(line_bytes(m1, n) == line_bytes(m2, n));
    if n > 1 {
        lemma_enclosing_agree(m1, m2, (n - 1) as u32);
    }
}

pub(crate) proof fn lemma_lines_scan_agree<R1: LineReader, R2: LineReader>(
    m1: &R1,
    m2: &R2,
    line_number: u32,
    column: u32,
    n: int,
    ln: int,
    s: crate::octave_scan::OctScan,
)
    requires
        same_lines(m1, m2),
    ensures
        crate::octave_scan::lines_scan(m1, line_number, column, n, ln, s)
            == crate::octave_scan::lines_scan(m2, line_number, column, n, ln, s),
    decreases line_number + 1 - ln,
{
    if ln > line_number || ln < 0 {
    } else {
        assert(line_bytes(m1, ln as u32) == line_bytes(m2, ln as u32));
        let b = line_bytes(m1, ln as u32);
        let s2 = crate::octave_scan::line_scan(b, crate::octave_scan::scan_end(b, ln == line_number, column), 0, false, false, s, n);
        lemma_lines_scan_agree(m1, m2, line_number, column, n, ln + 1, s2);
    }
}

pub(crate) proof fn lemma_channel_scan_agree<R1: LineReader, R2: LineReader>(
    m1: &R1,
    m2: &R2,
    line_number: u32,
    column: u32,
    num_channels: usize,
    track_line: Option<u32>,
)
    requires
        same_lines(m1, m2),
    ensures
        spec_channel_scan(m1, line_number, column, num_channels, track_line)
            == spec_channel_scan(m2, line_number, column, num_channels, track_line),
{
    lemma_enclosing_agree(m1, m2, line_number);
    let start = crate::octave_scan::start_line(m1, line_number, track_line);
    assert(start == crate::octave_scan::start_line(m2, line_number, track_line));
    lemma_lines_scan_agree(m1, m2, line_number, column, num_channels as int, start,
        crate::octave_scan::initial_scan(num_channels));
}

pub(crate) proof fn lemma_keysig_agree<R1: LineReader, R2: LineReader>(m1: &R1, m2: &R2, line_number: u32, column: u32, ln: u32)
    requires
        same_lines(m1, m2),
    ensures
        crate::key_sig::keysig_cmds(m1, line_number, column, ln) == crate::key_sig::keysig_cmds(m2, line_number, column, ln),
    decreases ln,
{
    assert(line_bytes(m1, ln) == line_bytes(m2, ln));
    assert(crate::key_sig::line_keysig_blocks(m1, line_number, column, ln)
        == crate::key_sig::line_keysig_blocks(m2, line_number, column, ln));
    if ln > 1 {
        lemma_keysig_agree(m1, m2, line_number, column, (ln - 1) as u32);
    }
}

proof fn lemma_ctx_agree<R1: LineReader, R2: LineReader>(m1: &R1, m2: &R2, line: u32, col1: u32, ln: u32, p: ScanParams)
    requires
        same_lines(m1, m2),
    ensures
        ctx_scan(m1, line, col1, ln, p) == ctx_scan(m2, line, col1, ln, p),
    decreases ln,
{
    assert(line_bytes(m1, ln) == line_bytes(m2, ln));
    if ln > 1 {
        let b = line_bytes(m1, ln);
        lemma_ctx_agree(m1, m2, line, col1, (ln - 1) as u32, line_params(seg_chars(b, ln == line, col1), p));
    }
}

/// Models holding the same lines give the same preview.
proof fn lemma_preview_agree<R1: LineReader, R2: LineReader>(m1: &R1, m2: &R2, line: u32, col: u32, typed: char)
    requires
        same_lines(m1, m2),
    ensures
        spec_preview(m1, line, col, typed) == spec_preview(m2, line, col, typed),
        preview_ok(m1, line, col, typed) == preview_ok(m2, line, col, typed),
{
    let l1 = one_based(line);
    let col1 = (col + 1) as u32;
    assert(line_bytes(m1, l1) == line_bytes(m2, l1));
    lemma_ctx_agree(m1, m2, l1, col1, l1, initial_params());
    lemma_enclosing_agree(m1, m2, l1);
    assert(preview_channels(m1, l1) == preview_channels(m2, l1));
    let (n, tl) = preview_channels(m1, l1);
    lemma_channel_scan_agree(m1, m2, l1, col1, n, tl);
    lemma_keysig_agree(m1, m2, l1, col1, l1);
    assert(spec_scan_key_sig(m1, l1, col1) == spec_scan_key_sig(m2, l1, col1));
    assert(preview_octave(m1, l1, col1) == preview_octave(m2, l1, col1));
}

/// Decide whether typing `typed` at 0-based `(line, col)` of `text` —
/// `col` being the column of the typed character itself — previews a
/// note, and with what pitch, flash range and playback context. `None`
/// in a comment or a `_{...}` block, for an upper-case letter, for a
/// character that is no note (or `+`/`-` not right after a note letter),
/// and outside any track.
pub fn preview_note_at(text: &str, line: u32, col: u32, typed: char) -> (r: Option<PreviewNoteHit>)
    requires
        preview_ok(&text_model(text.spec_bytes()), line, col, typed),
    ensures
        r == spec_preview(&text_model(text.spec_bytes()), line, col, typed),
{
    let model = LinesModel::from_text(text);
    let ghost b = text.spec_bytes();
    proof {
        assert(is_text_model(model, b));
        lemma_text_models_agree(model, text_model(b), b);
        lemma_preview_agree(&model, &text_model(b), line, col, typed);
    }
    preview_in(&model, line, col, typed)
}

} // verus!
