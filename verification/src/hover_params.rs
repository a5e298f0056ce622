//! Hover on instrument definitions: the number fields of FM and
//! 2-operator instruments, and the tokens of PSG envelopes.
//!
//! These lookups need the lines around the cursor, so they work on the
//! whole text split into lines. Spans are UTF-8 byte offsets in the line.

use vstd::prelude::*;
use vstd::string::StringSliceAdditionalSpecFns;
use vstd::utf8::encode_utf8;
use crate::strings::{
    is_unicode_ws, trim_start_chars, trim_chars, char_digit_run_end, byte_find, dec_chars, str_chars,
    skip_ws_forward, skip_ws_backward, chars_between, scan_digit_chars, find_byte, push_decimal,
};
use crate::hover::{HitModel, hm, hws, dig, digit_end, lemma_digit_end, skip_sign, htoken, hover_markdown, format_hover};
use crate::docs::{entry_for_key, spec_fm_param_docs, spec_two_op_param_docs};
use crate::track_selector::{leading_selector, parse_leading_track_selector};

verus! {

// ---------------------------------------------------------------------------
// Line shapes
// ---------------------------------------------------------------------------

/// `rest` opens with `kw`, followed by nothing, whitespace or `;`.
pub open spec fn keyword_break(rest: Seq<char>, kw: Seq<char>) -> bool {
    &&& rest.len() >= kw.len()
    &&& rest.subrange(0, kw.len() as int) == kw
    &&& (rest.len() == kw.len() || is_unicode_ws(rest[kw.len() as int]) || rest[kw.len() as int] == ';')
}

/// For `t` that opens with `@` and one or more ASCII digits, the index
/// after the digits; otherwise 0.
pub open spec fn at_digits_end(t: Seq<char>) -> int {
    if t.len() > 0 && t[0] == '@' && char_digit_run_end(t, 1) > 1 {
        char_digit_run_end(t, 1)
    } else {
        0
    }
}

/// An `@N <kw>` definition line (leading whitespace allowed).
pub open spec fn definition_line(c: Seq<char>, kw: Seq<char>) -> bool {
    let t = trim_start_chars(c);
    let d = at_digits_end(t);
    d > 0 && keyword_break(trim_start_chars(t.subrange(d, t.len() as int)), kw)
}

/// A trimmed line holding `@N` alone, or `@N` and a comment.
pub open spec fn bare_at_number(t: Seq<char>) -> bool {
    let d = at_digits_end(t);
    d > 0 && {
        let rest = trim_start_chars(t.subrange(d, t.len() as int));
        rest.len() == 0 || rest[0] == ';'
    }
}

/// A (trimmed) line that is empty or a comment.
pub open spec fn blank_or_comment(t: Seq<char>) -> bool {
    t.len() == 0 || t[0] == ';'
}

/// The instrument header above line `i` (scanning upward from `i`): a line
/// `@N <kw>`, or a bare `@N` whose next line opens with `kw`. The scan
/// stops at any other `@` line, a `#` line or a track line.
pub open spec fn anchor_from(ls: Seq<Seq<char>>, i: int, kw: Seq<char>) -> Option<int>
    decreases i + 1,
{
    if i < 0 || i >= ls.len() {
        None
    } else {
        let t = trim_start_chars(ls[i]);
        if t.len() > 0 && t[0] == '@' {
            if definition_line(ls[i], kw) || (bare_at_number(t) && i + 1 < ls.len() && keyword_break(
                trim_chars(ls[i + 1]),
                kw,
            )) {
                Some(i)
            } else {
                None
            }
        } else if t.len() > 0 && t[0] == '#' {
            None
        } else if leading_selector(encode_utf8(ls[i])) is Some {
            None
        } else {
            anchor_from(ls, i - 1, kw)
        }
    }
}

/// Among lines `lo..=j`, scanning upward past blank and comment lines, the
/// first other line is a bare `@N`.
pub open spec fn prev_bare(ls: Seq<Seq<char>>, j: int, lo: int) -> bool
    decreases j - lo + 1,
{
    if j < lo || j < 0 || j >= ls.len() {
        false
    } else {
        let p = trim_chars(ls[j]);
        if blank_or_comment(p) {
            prev_bare(ls, j - 1, lo)
        } else {
            bare_at_number(p)
        }
    }
}

/// Line `i` opens with `kw` and continues a bare `@N` header found within
/// the three lines above it.
pub open spec fn multiline_keyword_line(ls: Seq<Seq<char>>, i: int, kw: Seq<char>) -> bool {
    &&& 0 <= i < ls.len()
    &&& keyword_break(trim_start_chars(ls[i]), kw)
    &&& prev_bare(ls, i - 1, if i >= 3 { i - 3 } else { 0 })
}

// ---------------------------------------------------------------------------
// Number fields
// ---------------------------------------------------------------------------

/// The signed integer fields of `c` from `idx`: `(start, end)` of each
/// optional sign and digit run. A sign or other byte not followed by a
/// digit is skipped together with the byte after it.
pub open spec fn num_scan(c: Seq<u8>, idx: int) -> Seq<(int, int)>
    decreases c.len() + 1 - idx,
{
    if idx < 0 || idx >= c.len() {
        Seq::empty()
    } else if hws(c[idx]) {
        num_scan(c, idx + 1)
    } else {
        let i1 = skip_sign(c, idx);
        if i1 >= c.len() || !dig(c[i1]) {
            num_scan(c, i1 + 1)
        } else {
            proof {
                lemma_digit_end(c, i1 + 1);
            }
            seq![(idx, digit_end(c, i1))] + num_scan(c, digit_end(c, i1))
        }
    }
}

/// `pe` clamped to the length of `b`.
pub open spec fn clamp_to(b: Seq<u8>, pe: int) -> int {
    if pe < b.len() { pe } else { b.len() as int }
}

/// The number fields of line `b` before byte `pe`.
pub open spec fn numbers_of(b: Seq<u8>, pe: int) -> Seq<(int, int)> {
    num_scan(b.subrange(0, clamp_to(b, pe)), 0)
}

/// Index (from `i`) of the first field that holds `col` or ends at it.
pub open spec fn num_index(ns: Seq<(int, int)>, col: int, i: int) -> Option<int>
    decreases ns.len() - i,
{
    if i < 0 || i >= ns.len() {
        None
    } else if (ns[i].0 <= col < ns[i].1) || (col == ns[i].1 && col > ns[i].0) {
        Some(i)
    } else {
        num_index(ns, col, i + 1)
    }
}

/// Byte index of the first `;` of `b`, or its length.
pub open spec fn semicolon_at(b: Seq<u8>) -> int {
    byte_find(b, 0x3Bu8, 0)
}

/// ASCII whitespace (`char::is_ascii_whitespace`), a digit, `+`, `-` or `,`.
pub open spec fn param_byte(x: u8) -> bool {
    x == 0x20u8 || x == 0x09u8 || x == 0x0Au8 || x == 0x0Cu8 || x == 0x0Du8 || dig(x) || x == 0x2Bu8 || x
        == 0x2Du8 || x == 0x2Cu8
}

/// Everything before byte `pe` of `b` is a parameter byte.
pub open spec fn numeric_param_line(b: Seq<u8>, pe: int) -> bool {
    forall|k: int| 0 <= k < clamp_to(b, pe) ==> param_byte(#[trigger] b[k])
}

/// `ns` without its first field when that field directly follows an `@`.
pub open spec fn strip_at(b: Seq<u8>, ns: Seq<(int, int)>) -> Seq<(int, int)> {
    if ns.len() > 0 && 0 < ns[0].0 <= b.len() && b[ns[0].0 - 1] == 0x40u8 {
        ns.drop_first()
    } else {
        ns
    }
}

/// The first index at or after `i` where `b` holds the bytes `p`.
pub open spec fn find_pat(b: Seq<u8>, p: Seq<u8>, i: int) -> Option<int>
    decreases b.len() + 1 - i,
{
    if i < 0 || i + p.len() > b.len() {
        None
    } else if b.subrange(i, i + p.len()) == p {
        Some(i)
    } else {
        find_pat(b, p, i + 1)
    }
}

/// The fields of `ns` that do not start inside `lo..hi`.
pub open spec fn keep_outside(ns: Seq<(int, int)>, lo: int, hi: int) -> Seq<(int, int)>
    decreases ns.len(),
{
    if ns.len() == 0 {
        ns
    } else {
        let rest = keep_outside(ns.drop_last(), lo, hi);
        if ns.last().0 < lo || ns.last().0 >= hi { rest.push(ns.last()) } else { rest }
    }
}

/// The number fields of a 2-operator line: without a leading `@N` and
/// without the digit of its `2op` keyword.
pub open spec fn two_op_numbers(b: Seq<u8>, pe: int) -> Seq<(int, int)> {
    let ns = strip_at(b, numbers_of(b, pe));
    match find_pat(b.subrange(0, clamp_to(b, pe)), seq![0x32u8, 0x6Fu8, 0x70u8], 0) {
        Some(p) => keep_outside(ns, p, p + 3),
        None => ns,
    }
}

// ---------------------------------------------------------------------------
// FM
// ---------------------------------------------------------------------------

/// The parameter keys of a ten-field FM operator line.
pub open spec fn fm10_keys() -> Seq<Seq<char>> {
    seq!["AR"@, "DR"@, "SR"@, "RR"@, "SL"@, "TL"@, "KS"@, "ML"@, "DT"@, "SSG"@]
}

/// The key of field `k` on an FM parameter line with `n` fields.
pub open spec fn fm_key(n: int, k: int) -> Option<Seq<char>> {
    if n == 2 && k == 0 {
        Some("ALG"@)
    } else if n == 2 && k == 1 {
        Some("FB"@)
    } else if n == 10 && 0 <= k < 10 {
        Some(fm10_keys()[k])
    } else if n == 1 && k == 0 {
        Some("TRS"@)
    } else {
        None
    }
}

/// Label and documentation of FM parameter `key`.
pub open spec fn fm_doc(key: Seq<char>) -> Option<(&'static str, &'static str)> {
    match entry_for_key(spec_fm_param_docs(), key) {
        Some(e) => Some((e.label, e.doc)),
        None => None,
    }
}

/// How many ten-field operator lines stand in lines `idx..=last`, up to
/// the next `@` line.
pub open spec fn op_count(ls: Seq<Seq<char>>, idx: int, last: int) -> int
    decreases last + 1 - idx,
{
    if idx > last || idx < 0 || idx >= ls.len() {
        0
    } else {
        let t = trim_start_chars(ls[idx]);
        if t.len() > 0 && t[0] == '@' {
            0
        } else if blank_or_comment(t) {
            op_count(ls, idx + 1, last)
        } else {
            let b = encode_utf8(ls[idx]);
            (if numbers_of(b, semicolon_at(b)).len() == 10 { 1int } else { 0int }) + op_count(ls, idx + 1, last)
        }
    }
}

/// `OP<n> <label>` for an operator field, else the label.
pub open spec fn op_label(op: int, label: Seq<char>) -> Seq<char> {
    if op > 0 {
        "OP"@ + dec_chars(op as nat) + " "@ + label
    } else {
        label
    }
}

/// The index of the line above `li` where the header scan starts.
pub open spec fn above(li: int) -> int {
    if li > 0 { li - 1 } else { 0 }
}

/// Hover on the `ALG` / `FB` fields of an FM header line.
pub open spec fn fm_header_hit(b: Seq<u8>, pe: int, col: int) -> Option<HitModel> {
    let ns = strip_at(b, numbers_of(b, pe));
    match num_index(ns, col, 0) {
        Some(k) => if ns.len() < 2 || k >= 2 {
            None
        } else {
            match fm_doc(if k == 0 { "ALG"@ } else { "FB"@ }) {
                Some((l, d)) => Some(hm(l@, d@, ns[k].0, ns[k].1)),
                None => None,
            }
        },
        None => None,
    }
}

/// Hover on a field of FM parameter line `li` (bytes `b`) below header `a`.
pub open spec fn fm_param_hit(ls: Seq<Seq<char>>, li: int, a: int, b: Seq<u8>, pe: int, col: int) -> Option<HitModel> {
    let ns = numbers_of(b, pe);
    match num_index(ns, col, 0) {
        None => None,
        Some(k) => match fm_key(ns.len() as int, k) {
            None => None,
            Some(key) => match fm_doc(key) {
                None => None,
                Some((l, d)) => {
                    let op = if ns.len() == 10 { op_count(ls, a + 1, li) } else { 0 };
                    Some(HitModel { markdown: hover_markdown(op_label(op, l@), d@), start: ns[k].0, end: ns[k].1 })
                },
            },
        },
    }
}

/// Hover on an FM instrument line `li` at byte `col`.
pub open spec fn fm_hit(ls: Seq<Seq<char>>, li: int, col: int) -> Option<HitModel> {
    let c = ls[li];
    let b = encode_utf8(c);
    let t = trim_start_chars(c);
    let is_anchor = definition_line(c, "fm"@);
    let pe = semicolon_at(b);
    if blank_or_comment(t) || (t[0] == '@' && !is_anchor) || col >= pe {
        None
    } else if is_anchor || multiline_keyword_line(ls, li, "fm"@) {
        fm_header_hit(b, pe, col)
    } else if !numeric_param_line(b, pe) {
        None
    } else {
        match anchor_from(ls, above(li), "fm"@) {
            None => None,
            Some(a) => if li <= a { None } else { fm_param_hit(ls, li, a, b, pe, col) },
        }
    }
}

// ---------------------------------------------------------------------------
// 2-operator
// ---------------------------------------------------------------------------

/// Hover on a 2-operator instrument line `li` at byte `col`.
pub open spec fn two_op_hit(ls: Seq<Seq<char>>, li: int, col: int) -> Option<HitModel> {
    let c = ls[li];
    let b = encode_utf8(c);
    let pe = semicolon_at(b);
    if blank_or_comment(trim_start_chars(c)) || !(definition_line(c, "2op"@) || multiline_keyword_line(
        ls,
        li,
        "2op"@,
    )) || col >= pe {
        None
    } else {
        let ns = two_op_numbers(b, pe);
        match num_index(ns, col, 0) {
            Some(k) => if ns.len() < 6 || k >= 6 || k >= spec_two_op_param_docs().len() {
                None
            } else {
                Some(hm(spec_two_op_param_docs()[k].label@, spec_two_op_param_docs()[k].doc@, ns[k].0, ns[k].1))
            },
            None => None,
        }
    }
}

// ---------------------------------------------------------------------------
// PSG
// ---------------------------------------------------------------------------

pub const PSG_LOOP_LABEL: &'static str = "PSG envelope loop position";
pub const PSG_LOOP_DOC: &'static str = "Set the loop point inside this PSG envelope. Playback jumps back here when the envelope reaches the end.";
pub const PSG_SUSTAIN_LABEL: &'static str = "PSG envelope sustain position";
pub const PSG_SUSTAIN_DOC: &'static str = "Set the sustain point inside this PSG envelope. Sustain keeps the envelope around this point while the note is held.";
pub const PSG_LENGTH_LABEL: &'static str = "PSG envelope default step length";
pub const PSG_LENGTH_DOC: &'static str = "Set the default length in frames for the following PSG envelope values on this definition line.";
pub const PSG_SLIDE_LABEL: &'static str = "PSG envelope slide";
pub const PSG_SLIDE_DOC: &'static str = "Slide from one PSG volume value to another. `value>target:length` slides over the given number of frames.";
pub const PSG_HOLD_LABEL: &'static str = "PSG envelope hold";
pub const PSG_HOLD_DOC: &'static str = "Keep this PSG volume value for the specified number of frames.";
pub const PSG_VOLUME_LABEL: &'static str = "PSG envelope volume";
pub const PSG_VOLUME_DOC: &'static str = "PSG instruments are sequences of volume values. `15` is loudest, `0` is silence. Use `>` for slides, `:` for frame length, `|` for loop, and `/` for sustain.";
pub const PSG_ENVELOPE_LABEL: &'static str = "PSG envelope";
pub const PSG_ENVELOPE_DOC: &'static str = "PSG instruments are sequences of volume values. `15` is loudest, `0` is silence.\nUse `>` for slides, `:` for frame length, `|` for loop, and `/` for sustain.";

/// Every byte of `t` from `i` is an ASCII digit.
pub open spec fn all_dig(t: Seq<u8>, i: int) -> bool {
    forall|k: int| i <= k < t.len() ==> dig(#[trigger] t[k])
}

/// `l:` and digits.
pub open spec fn l_colon_number(t: Seq<u8>) -> bool {
    t.len() >= 3 && t[0] == 0x6Cu8 && t[1] == 0x3Au8 && all_dig(t, 2)
}

/// `value>target` or `value>target:length`, each one or more digits.
pub open spec fn slide_token(t: Seq<u8>) -> bool {
    let d1 = digit_end(t, 0);
    d1 > 0 && d1 < t.len() && t[d1] == 0x3Eu8 && {
        let d2 = digit_end(t, d1 + 1);
        d2 > d1 + 1 && (d2 == t.len() || (t[d2] == 0x3Au8 && {
            let d3 = digit_end(t, d2 + 1);
            d3 == t.len() && d3 > d2 + 1
        }))
    }
}

/// `value:frames`, each one or more digits.
pub open spec fn hold_token(t: Seq<u8>) -> bool {
    let d1 = digit_end(t, 0);
    d1 > 0 && d1 < t.len() && t[d1] == 0x3Au8 && {
        let d2 = digit_end(t, d1 + 1);
        d2 == t.len() && d2 > d1 + 1
    }
}

/// Label and body for PSG envelope token `t`.
pub open spec fn psg_token_doc(t: Seq<u8>) -> (&'static str, &'static str) {
    if t == seq![0x7Cu8] {
        (PSG_LOOP_LABEL, PSG_LOOP_DOC)
    } else if t == seq![0x2Fu8] {
        (PSG_SUSTAIN_LABEL, PSG_SUSTAIN_DOC)
    } else if l_colon_number(t) {
        (PSG_LENGTH_LABEL, PSG_LENGTH_DOC)
    } else if slide_token(t) {
        (PSG_SLIDE_LABEL, PSG_SLIDE_DOC)
    } else if hold_token(t) {
        (PSG_HOLD_LABEL, PSG_HOLD_DOC)
    } else if t.len() > 0 && all_dig(t, 0) {
        (PSG_VOLUME_LABEL, PSG_VOLUME_DOC)
    } else {
        (PSG_ENVELOPE_LABEL, PSG_ENVELOPE_DOC)
    }
}

/// Where envelope data starts on a line that names `psg`: after its
/// first `psg` (the whitespace before the header holds none).
pub open spec fn psg_offset(b: Seq<u8>) -> int {
    match find_pat(b, seq![0x70u8, 0x73u8, 0x67u8], 0) {
        Some(k) => k + 3,
        None => 3,
    }
}

/// For a non-blank line `li`: where PSG envelope data may start on it, if
/// it belongs to a PSG instrument.
pub open spec fn psg_data_start(ls: Seq<Seq<char>>, li: int) -> Option<int> {
    let c = ls[li];
    let b = encode_utf8(c);
    let t = trim_start_chars(c);
    if t[0] == '@' {
        if definition_line(c, "psg"@) { Some(psg_offset(b)) } else { None }
    } else if multiline_keyword_line(ls, li, "psg"@) {
        Some(psg_offset(b))
    } else if leading_selector(b) is Some {
        None
    } else if anchor_from(ls, above(li), "psg"@) is Some {
        Some(0)
    } else {
        None
    }
}

/// Hover on a PSG instrument line `li` at byte `col`.
pub open spec fn psg_hit(ls: Seq<Seq<char>>, li: int, col: int) -> Option<HitModel> {
    let c = ls[li];
    let b = encode_utf8(c);
    if blank_or_comment(trim_start_chars(c)) {
        None
    } else {
        match psg_data_start(ls, li) {
            None => None,
            Some(ds) => if col >= semicolon_at(b) || col < ds {
                None
            } else {
                match htoken(b, col) {
                    None => None,
                    Some((s, e)) => {
                        let (l, d) = psg_token_doc(b.subrange(s, e));
                        Some(hm(l@, d@, s, e))
                    },
                }
            },
        }
    }
}

// ---------------------------------------------------------------------------
// Executable: line shapes
// ---------------------------------------------------------------------------

/// The lines of a text, each by its characters.
pub open spec fn lines_view(v: Seq<String>) -> Seq<Seq<char>> {
    v.map_values(|s: String| s@)
}

pub(crate) fn trim_start_vec(c: &[char]) -> (r: Vec<char>)
    ensures
        r@ == trim_start_chars(c@),
        r@.len() <= c@.len(),
{
    let p = skip_ws_forward(c, 0, c.len());
    assert(c@.subrange(0, c@.len() as int) =~= c@);
    chars_between(c, p, c.len())
}

pub(crate) fn trim_vec(c: &[char]) -> (r: Vec<char>)
    ensures
        r@ == trim_chars(c@),
{
    let t = trim_start_vec(c);
    let e = skip_ws_backward(t.as_slice(), 0, t.len());
    assert(t@.subrange(0, t@.len() as int) =~= t@);
    chars_between(t.as_slice(), 0, e)
}

fn at_digits_end_of(t: &[char]) -> (r: usize)
    ensures
        r == at_digits_end(t@),
        r <= t@.len(),
{
    if t.len() > 0 && t[0] == '@' {
        let d = scan_digit_chars(t, 1);
        if d > 1 {
            return d;
        }
    }
    0
}

fn keyword_break_at(rest: &[char], kw: &[char]) -> (r: bool)
    ensures
        r == keyword_break(rest@, kw@),
{
    if rest.len() < kw.len() {
        return false;
    }
    let mut i: usize = 0;
    while i < kw.len()
        invariant
            i <= kw@.len() <= rest@.len(),
            forall|k: int| 0 <= k < i ==> rest@[k] == kw@[k],
        decreases kw@.len() - i,
    {
        if rest[i] != kw[i] {
            assert(rest@.subrange(0, kw@.len() as int)[i as int] != kw@[i as int]);
            return false;
        }
        i += 1;
    }
    assert(rest@.subrange(0, kw@.len() as int) =~= kw@);
    let n = kw.len();
    n == rest.len() || crate::strings::whitespace_char(rest[n]) || rest[n] == ';'
}

fn is_definition_line(c: &[char], kw: &[char]) -> (r: bool)
    ensures
        r == definition_line(c@, kw@),
{
    let t = trim_start_vec(c);
    let d = at_digits_end_of(t.as_slice());
    if d == 0 {
        return false;
    }
    let rest = chars_between(t.as_slice(), d, t.len());
    let rt = trim_start_vec(rest.as_slice());
    keyword_break_at(rt.as_slice(), kw)
}

fn is_bare_at_number(t: &[char]) -> (r: bool)
    ensures
        r == bare_at_number(t@),
{
    let d = at_digits_end_of(t);
    if d == 0 {
        return false;
    }
    let rest = chars_between(t, d, t.len());
    let rt = trim_start_vec(rest.as_slice());
    rt.len() == 0 || rt[0] == ';'
}

fn line_chars(lines: &Vec<String>, i: usize) -> (r: Vec<char>)
    requires
        i < lines@.len(),
    ensures
        r@ == lines_view(lines@)[i as int],
{
    str_chars(lines[i].as_str())
}

/// The header line of the instrument around line `i`; see [`anchor_from`].
fn find_instrument_anchor(lines: &Vec<String>, i: usize, kw: &[char]) -> (r: Option<usize>)
    ensures
        match anchor_from(lines_view(lines@), i as int, kw@) {
            Some(a) => r == Some(a as usize) && 0 <= a <= i,
            None => r is None,
        },
{
    let ghost ls = lines_view(lines@);
    if i >= lines.len() {
        return None;
    }
    let n = lines.len();
    let mut k = i;
    loop
        invariant
            n == lines@.len() == ls.len(),
            k <= i < lines@.len(),
            ls == lines_view(lines@),
            anchor_from(ls, i as int, kw@) == anchor_from(ls, k as int, kw@),
        decreases k,
    {
        let c = line_chars(lines, k);
        assert(c@ == ls[k as int]);
        let t = trim_start_vec(c.as_slice());
        if t.len() > 0 && t[0] == '@' {
            if is_definition_line(c.as_slice(), kw) {
                return Some(k);
            }
            if k + 1 < n && is_bare_at_number(t.as_slice()) {
                let nc = line_chars(lines, k + 1);
                let nt = trim_vec(nc.as_slice());
                if keyword_break_at(nt.as_slice(), kw) {
                    return Some(k);
                }
            }
            return None;
        }
        if t.len() > 0 && t[0] == '#' {
            return None;
        }
        match parse_leading_track_selector(lines[k].as_str()) {
            Some(_) => {
                return None;
            },
            None => {},
        }
        if k == 0 {
            assert(anchor_from(ls, -1, kw@) is None);
            return None;
        }
        k -= 1;
    }
}

/// See [`multiline_keyword_line`].
fn is_multiline_keyword_line(lines: &Vec<String>, i: usize, kw: &[char]) -> (r: bool)
    ensures
        r == multiline_keyword_line(lines_view(lines@), i as int, kw@),
{
    let ghost ls = lines_view(lines@);
    if i >= lines.len() {
        return false;
    }
    let c = line_chars(lines, i);
    assert(c@ == ls[i as int]);
    let t = trim_start_vec(c.as_slice());
    if !keyword_break_at(t.as_slice(), kw) {
        return false;
    }
    let lo: usize = if i >= 3 { i - 3 } else { 0 };
    let mut j = i;
    assert(ls.len() == lines@.len());
    while j > lo
        invariant
            lo <= j <= i < lines@.len() == ls.len(),
            keyword_break(trim_start_chars(ls[i as int]), kw@),
            lo == (if i >= 3 { i - 3 } else { 0 }),
            ls == lines_view(lines@),
            prev_bare(ls, i - 1, lo as int) == prev_bare(ls, j - 1, lo as int),
        decreases j,
    {
        let pc = line_chars(lines, j - 1);
        assert(pc@ == ls[j - 1]);
        let p = trim_vec(pc.as_slice());
        if !(p.len() == 0 || p[0] == ';') {
            assert(!blank_or_comment(p@));
            assert(prev_bare(ls, j - 1, lo as int) == bare_at_number(p@));
            return is_bare_at_number(p.as_slice());
        }
        j -= 1;
    }
    false
}

// ---------------------------------------------------------------------------
// Executable: number fields
// ---------------------------------------------------------------------------

/// Spans with integer bounds.
pub open spec fn spans_of(v: Seq<(usize, usize)>) -> Seq<(int, int)> {
    v.map_values(|p: (usize, usize)| (p.0 as int, p.1 as int))
}

fn parse_numbers(b: &[u8], pe: usize) -> (r: Vec<(usize, usize)>)
    ensures
        spans_of(r@) == numbers_of(b@, pe as int),
        forall|k: int| 0 <= k < r@.len() ==> (#[trigger] r@[k]).0 < r@[k].1 <= b@.len(),
{
    let lim: usize = if pe < b.len() { pe } else { b.len() };
    let ghost c = b@.subrange(0, lim as int);
    let mut out: Vec<(usize, usize)> = Vec::new();
    let mut idx: usize = 0;
    while idx < lim
        invariant
            lim <= b@.len(),
            lim == clamp_to(b@, pe as int),
            c == b@.subrange(0, lim as int),
            idx <= lim,
            numbers_of(b@, pe as int) == spans_of(out@) + num_scan(c, idx as int),
            forall|k: int| 0 <= k < out@.len() ==> (#[trigger] out@[k]).0 < out@[k].1 <= idx,
        decreases lim - idx,
    {
        assert(c[idx as int] == b@[idx as int]);
        if crate::hover::is_ws(b[idx]) {
            idx += 1;
        } else {
            let start = idx;
            let i1 = if b[idx] == 0x2Bu8 || b[idx] == 0x2Du8 { idx + 1 } else { idx };
            assert(i1 == skip_sign(c, idx as int));
            if i1 < lim {
                assert(c[i1 as int] == b@[i1 as int]);
            }
            if i1 >= lim {
                assert(num_scan(c, i1 + 1) =~= Seq::empty());
                assert(num_scan(c, lim as int) =~= Seq::empty());
                idx = lim;
            } else if !(0x30u8 <= b[i1] && b[i1] <= 0x39u8) {
                idx = i1 + 1;
            } else {
                let mut e = i1;
                while e < lim && 0x30u8 <= b[e] && b[e] <= 0x39u8
                    invariant
                        i1 <= e <= lim <= b@.len(),
                        c == b@.subrange(0, lim as int),
                        digit_end(c, i1 as int) == digit_end(c, e as int),
                    decreases lim - e,
                {
                    e += 1;
                }
                if e < lim {
                    assert(c[e as int] == b@[e as int]);
                }
                assert(digit_end(c, e as int) == e);
                proof {
                    lemma_digit_end(c, i1 + 1);
                }
                let ghost prev = out@;
                assert(num_scan(c, start as int) == seq![(start as int, e as int)] + num_scan(c, e as int));
                out.push((start, e));
                assert(spans_of(out@) =~= spans_of(prev) + seq![(start as int, e as int)]);
                assert(spans_of(prev) + num_scan(c, start as int) =~= spans_of(out@) + num_scan(c, e as int));
                idx = e;
            }
        }
    }
    assert(spans_of(out@) + num_scan(c, idx as int) =~= spans_of(out@));
    out
}

fn number_index_at(ns: &Vec<(usize, usize)>, col: usize) -> (r: Option<usize>)
    ensures
        match num_index(spans_of(ns@), col as int, 0) {
            Some(k) => r == Some(k as usize) && 0 <= k < ns@.len(),
            None => r is None,
        },
{
    let ghost sp = spans_of(ns@);
    let mut i: usize = 0;
    while i < ns.len()
        invariant
            i <= ns@.len(),
            sp == spans_of(ns@),
            num_index(sp, col as int, 0) == num_index(sp, col as int, i as int),
        decreases ns@.len() - i,
    {
        let (s, e) = ns[i];
        assert(sp[i as int] == (s as int, e as int));
        if (col >= s && col < e) || (col == e && col > s) {
            return Some(i);
        }
        i += 1;
    }
    None
}

fn strip_at_number(b: &[u8], ns: Vec<(usize, usize)>) -> (r: Vec<(usize, usize)>)
    requires
        forall|k: int| 0 <= k < ns@.len() ==> (#[trigger] ns@[k]).0 < ns@[k].1 <= b@.len(),
    ensures
        spans_of(r@) == strip_at(b@, spans_of(ns@)),
        forall|k: int| 0 <= k < r@.len() ==> (#[trigger] r@[k]).0 < r@[k].1 <= b@.len(),
{
    if ns.len() > 0 && ns[0].0 > 0 && b[ns[0].0 - 1] == 0x40u8 {
        let mut out: Vec<(usize, usize)> = Vec::new();
        let mut i: usize = 1;
        while i < ns.len()
            invariant
                1 <= i <= ns@.len(),
                out@ == ns@.subrange(1, i as int),
            decreases ns@.len() - i,
        {
            out.push(ns[i]);
            assert(ns@.subrange(1, i + 1) =~= ns@.subrange(1, i as int).push(ns@[i as int]));
            i += 1;
        }
        assert(spans_of(out@) =~= spans_of(ns@).drop_first());
        out
    } else {
        ns
    }
}

fn semicolon_in(b: &[u8]) -> (r: usize)
    ensures
        r == semicolon_at(b@),
        r <= b@.len(),
{
    let r = find_byte(b, 0x3Bu8, 0, b.len());
    assert(b@.subrange(0, b@.len() as int) =~= b@);
    r
}

fn bytes_match_at(b: &[u8], i: usize, p: &[u8]) -> (r: bool)
    requires
        i + p@.len() <= b@.len(),
    ensures
        r == (b@.subrange(i as int, i + p@.len()) == p@),
{
    let _n = b.len();
    let mut k: usize = 0;
    while k < p.len()
        invariant
            k <= p@.len(),
            b@.len() <= usize::MAX,
            i + p@.len() <= b@.len(),
            forall|j: int| 0 <= j < k ==> b@[i + j] == p@[j],
        decreases p@.len() - k,
    {
        if b[i + k] != p[k] {
            assert(b@.subrange(i as int, i + p@.len())[k as int] != p@[k as int]);
            return false;
        }
        k += 1;
    }
    assert(b@.subrange(i as int, i + p@.len()) =~= p@);
    true
}

/// See [`find_pat`], on the first `lim` bytes.
fn find_pattern(b: &[u8], lim: usize, p: &[u8]) -> (r: Option<usize>)
    requires
        lim <= b@.len(),
    ensures
        match find_pat(b@.subrange(0, lim as int), p@, 0) {
            Some(k) => r == Some(k as usize) && 0 <= k && k + p@.len() <= lim,
            None => r is None,
        },
{
    let ghost c = b@.subrange(0, lim as int);
    if p.len() > lim {
        return None;
    }
    let last = lim - p.len();
    let mut i: usize = 0;
    while i <= last
        invariant
            c == b@.subrange(0, lim as int),
            last + p@.len() == lim <= b@.len(),
            find_pat(c, p@, 0) == find_pat(c, p@, i as int),
        decreases last + 1 - i,
    {
        assert(c.subrange(i as int, i + p@.len()) =~= b@.subrange(i as int, i + p@.len()));
        if bytes_match_at(b, i, p) {
            return Some(i);
        }
        if i == last {
            assert(find_pat(c, p@, i + 1) is None);
            return None;
        }
        i += 1;
    }
    None
}

fn keep_outside_of(ns: &Vec<(usize, usize)>, lo: usize, hi: usize, Ghost(n): Ghost<int>) -> (r: Vec<(usize, usize)>)
    requires
        forall|k: int| 0 <= k < ns@.len() ==> (#[trigger] ns@[k]).0 < ns@[k].1 <= n,
    ensures
        spans_of(r@) == keep_outside(spans_of(ns@), lo as int, hi as int),
        forall|k: int| 0 <= k < r@.len() ==> (#[trigger] r@[k]).0 < r@[k].1 <= n,
{
    let ghost sp = spans_of(ns@);
    let mut out: Vec<(usize, usize)> = Vec::new();
    let mut i: usize = 0;
    while i < ns.len()
        invariant
            i <= ns@.len(),
            sp == spans_of(ns@),
            spans_of(out@) == keep_outside(sp.subrange(0, i as int), lo as int, hi as int),
            forall|k: int| 0 <= k < ns@.len() ==> (#[trigger] ns@[k]).0 < ns@[k].1 <= n,
            forall|k: int| 0 <= k < out@.len() ==> (#[trigger] out@[k]).0 < out@[k].1 <= n,
        decreases ns@.len() - i,
    {
        let (s, e) = ns[i];
        let ghost prev = out@;
        let ghost sub = sp.subrange(0, i + 1);
        assert(sub.drop_last() =~= sp.subrange(0, i as int));
        assert(sub.last() == (s as int, e as int));
        if s < lo || s >= hi {
            out.push((s, e));
            assert(spans_of(out@) =~= spans_of(prev).push((s as int, e as int)));
        }
        i += 1;
    }
    assert(sp.subrange(0, ns@.len() as int) =~= sp);
    out
}

fn two_op_numbers_of(b: &[u8], pe: usize) -> (r: Vec<(usize, usize)>)
    ensures
        spans_of(r@) == two_op_numbers(b@, pe as int),
        forall|k: int| 0 <= k < r@.len() ==> (#[trigger] r@[k]).0 < r@[k].1 <= b@.len(),
{
    let ns = strip_at_number(b, parse_numbers(b, pe));
    let lim: usize = if pe < b.len() { pe } else { b.len() };
    let pat: Vec<u8> = vec![0x32u8, 0x6Fu8, 0x70u8];
    match find_pattern(b, lim, pat.as_slice()) {
        Some(p) => keep_outside_of(&ns, p, p + 3, Ghost(b@.len() as int)),
        None => ns,
    }
}

fn is_numeric_param_line(b: &[u8], pe: usize) -> (r: bool)
    ensures
        r == numeric_param_line(b@, pe as int),
{
    let lim: usize = if pe < b.len() { pe } else { b.len() };
    let mut i: usize = 0;
    while i < lim
        invariant
            i <= lim == clamp_to(b@, pe as int),
            lim <= b@.len(),
            forall|k: int| 0 <= k < i ==> param_byte(#[trigger] b@[k]),
        decreases lim - i,
    {
        let x = b[i];
        if !(x == 0x20u8 || x == 0x09u8 || x == 0x0Au8 || x == 0x0Cu8 || x == 0x0Du8 || (0x30u8 <= x && x <= 0x39u8)
            || x == 0x2Bu8 || x == 0x2Du8 || x == 0x2Cu8) {
            return false;
        }
        i += 1;
    }
    true
}

/// `r` is the hit `h` as Markdown and byte span, or nothing.
pub open spec fn span_hit_is(r: Option<(String, usize, usize)>, h: Option<HitModel>) -> bool {
    match h {
        Some(m) => r matches Some(x) && x.0@ == m.markdown && x.1 == m.start && x.2 == m.end,
        None => r is None,
    }
}

fn fm_header_hover(b: &[u8], pe: usize, col: usize) -> (r: Option<(String, usize, usize)>)
    ensures
        span_hit_is(r, fm_header_hit(b@, pe as int, col as int)),
{
    let ns = strip_at_number(b, parse_numbers(b, pe));
    let k = match number_index_at(&ns, col) {
        Some(k) => k,
        None => {
            return None;
        },
    };
    if ns.len() < 2 || k >= 2 {
        return None;
    }
    let key = if k == 0 { "ALG" } else { "FB" };
    match docs_fm(key) {
        Some((l, d)) => {
            let (s, e) = ns[k];
            Some((format_hover(l, d), s, e))
        },
        None => None,
    }
}

fn docs_fm(key: &str) -> (r: Option<(&'static str, &'static str)>)
    ensures
        r == fm_doc(key@),
{
    crate::docs::fm_param_doc(key)
}

fn fm_key_of(n: usize, k: usize) -> (r: Option<&'static str>)
    ensures
        match fm_key(n as int, k as int) {
            Some(x) => r matches Some(y) && y@ == x,
            None => r is None,
        },
{
    if n == 2 && k == 0 {
        Some("ALG")
    } else if n == 2 && k == 1 {
        Some("FB")
    } else if n == 10 && k < 10 {
        let r = if k == 0 {
            "AR"
        } else if k == 1 {
            "DR"
        } else if k == 2 {
            "SR"
        } else if k == 3 {
            "RR"
        } else if k == 4 {
            "SL"
        } else if k == 5 {
            "TL"
        } else if k == 6 {
            "KS"
        } else if k == 7 {
            "ML"
        } else if k == 8 {
            "DT"
        } else {
            "SSG"
        };
        assert(r@ == fm10_keys()[k as int]);
        Some(r)
    } else if n == 1 && k == 0 {
        Some("TRS")
    } else {
        None
    }
}

/// See [`op_count`], from the line after header `anchor` to `li`.
fn fm_operator_count(lines: &Vec<String>, anchor: usize, li: usize) -> (r: usize)
    requires
        anchor < li < lines@.len(),
    ensures
        r == op_count(lines_view(lines@), anchor + 1, li as int),
        r <= li - anchor,
{
    let ghost ls = lines_view(lines@);
    let n = lines.len();
    let mut count: usize = 0;
    let mut idx = anchor + 1;
    while idx <= li
        invariant
            n == lines@.len(),
            anchor + 1 <= idx <= li + 1,
            li < lines@.len() == ls.len(),
            ls == lines_view(lines@),
            count <= idx - (anchor + 1),
            count + op_count(ls, idx as int, li as int) == op_count(ls, anchor + 1, li as int),
        decreases li + 1 - idx,
    {
        let c = line_chars(lines, idx);
        let t = trim_start_vec(c.as_slice());
        if t.len() > 0 && t[0] == '@' {
            return count;
        }
        if !(t.len() == 0 || t[0] == ';') {
            let lb = lines[idx].as_str().as_bytes();
            let pe = semicolon_in(lb);
            let ns = parse_numbers(lb, pe);
            if ns.len() == 10 {
                count += 1;
            }
        }
        idx += 1;
    }
    count
}

fn fm_param_hover(lines: &Vec<String>, li: usize, anchor: usize, b: &[u8], pe: usize, col: usize) -> (r: Option<(String, usize, usize)>)
    requires
        anchor < li < lines@.len(),
        li <= u32::MAX,
    ensures
        span_hit_is(r, fm_param_hit(lines_view(lines@), li as int, anchor as int, b@, pe as int, col as int)),
{
    let ns = parse_numbers(b, pe);
    let k = match number_index_at(&ns, col) {
        Some(k) => k,
        None => {
            return None;
        },
    };
    let key = match fm_key_of(ns.len(), k) {
        Some(key) => key,
        None => {
            return None;
        },
    };
    let (l, d) = match docs_fm(key) {
        Some(p) => p,
        None => {
            return None;
        },
    };
    let op: usize = if ns.len() == 10 { fm_operator_count(lines, anchor, li) } else { 0 };
    let mut label = String::new();
    if op > 0 {
        let opc = str_chars("OP");
        crate::strings::push_chars(&mut label, opc.as_slice());
        push_decimal(&mut label, op as u32);
        let sp = str_chars(" ");
        crate::strings::push_chars(&mut label, sp.as_slice());
    }
    let lc = str_chars(l);
    crate::strings::push_chars(&mut label, lc.as_slice());
    assert(label@ =~= op_label(op as int, l@));
    let (s, e) = ns[k];
    Some((format_hover(label.as_str(), d), s, e))
}

/// Hover on the number fields of an FM instrument; see [`fm_hit`].
pub fn fm_hover(lines: &Vec<String>, li: usize, col: usize) -> (r: Option<(String, usize, usize)>)
    requires
        li < lines@.len(),
        li <= u32::MAX,
    ensures
        span_hit_is(r, fm_hit(lines_view(lines@), li as int, col as int)),
{
    let ghost ls = lines_view(lines@);
    let c = line_chars(lines, li);
    let b = lines[li].as_str().as_bytes();
    let t = trim_start_vec(c.as_slice());
    if t.len() == 0 || t[0] == ';' {
        return None;
    }
    let kw = str_chars("fm");
    let is_anchor = is_definition_line(c.as_slice(), kw.as_slice());
    if t[0] == '@' && !is_anchor {
        return None;
    }
    let pe = semicolon_in(b);
    if col >= pe {
        return None;
    }
    if is_anchor || is_multiline_keyword_line(lines, li, kw.as_slice()) {
        return fm_header_hover(b, pe, col);
    }
    if !is_numeric_param_line(b, pe) {
        return None;
    }
    let anchor = match find_instrument_anchor(lines, if li > 0 { li - 1 } else { 0 }, kw.as_slice()) {
        Some(a) => a,
        None => {
            return None;
        },
    };
    if li <= anchor {
        return None;
    }
    fm_param_hover(lines, li, anchor, b, pe, col)
}

/// Hover on the number fields of a 2-operator instrument; see [`two_op_hit`].
pub fn two_op_hover(lines: &Vec<String>, li: usize, col: usize) -> (r: Option<(String, usize, usize)>)
    requires
        li < lines@.len(),
    ensures
        span_hit_is(r, two_op_hit(lines_view(lines@), li as int, col as int)),
{
    let c = line_chars(lines, li);
    let b = lines[li].as_str().as_bytes();
    let t = trim_start_vec(c.as_slice());
    if t.len() == 0 || t[0] == ';' {
        return None;
    }
    let kw = str_chars("2op");
    if !is_definition_line(c.as_slice(), kw.as_slice()) && !is_multiline_keyword_line(lines, li, kw.as_slice()) {
        return None;
    }
    let pe = semicolon_in(b);
    if col >= pe {
        return None;
    }
    let ns = two_op_numbers_of(b, pe);
    if ns.len() < 6 {
        return None;
    }
    let k = match number_index_at(&ns, col) {
        Some(k) => k,
        None => {
            return None;
        },
    };
    if k >= 6 {
        return None;
    }
    match crate::docs::two_op_param_doc(k) {
        Some((l, d)) => {
            let (s, e) = ns[k];
            Some((format_hover(l, d), s, e))
        },
        None => None,
    }
}

fn psg_offset_of(b: &[u8]) -> (r: usize)
    ensures
        r == psg_offset(b@),
{
    let pat: Vec<u8> = vec![0x70u8, 0x73u8, 0x67u8];
    assert(b@.subrange(0, b@.len() as int) =~= b@);
    match find_pattern(b, b.len(), pat.as_slice()) {
        Some(k) => k + 3,
        None => 3,
    }
}

fn psg_token_doc_of(t: &[u8]) -> (r: (&'static str, &'static str))
    ensures
        r == psg_token_doc(t@),
{
    if t.len() == 1 && t[0] == 0x7Cu8 {
        assert(t@ =~= seq![0x7Cu8]);
        return (PSG_LOOP_LABEL, PSG_LOOP_DOC);
    }
    assert(t@ != seq![0x7Cu8]) by {
        if t@.len() == 1 {
            assert(t@[0] != seq![0x7Cu8][0]);
        }
    }
    if t.len() == 1 && t[0] == 0x2Fu8 {
        assert(t@ =~= seq![0x2Fu8]);
        return (PSG_SUSTAIN_LABEL, PSG_SUSTAIN_DOC);
    }
    assert(t@ != seq![0x2Fu8]) by {
        if t@.len() == 1 {
            assert(t@[0] != seq![0x2Fu8][0]);
        }
    }
    if t.len() >= 3 && t[0] == 0x6Cu8 && t[1] == 0x3Au8 && crate::hover::all_digits_from(t, 2) {
        return (PSG_LENGTH_LABEL, PSG_LENGTH_DOC);
    }
    if is_slide(t) {
        return (PSG_SLIDE_LABEL, PSG_SLIDE_DOC);
    }
    if is_hold(t) {
        return (PSG_HOLD_LABEL, PSG_HOLD_DOC);
    }
    if t.len() > 0 && crate::hover::all_digits_from(t, 0) {
        return (PSG_VOLUME_LABEL, PSG_VOLUME_DOC);
    }
    (PSG_ENVELOPE_LABEL, PSG_ENVELOPE_DOC)
}

fn is_slide(t: &[u8]) -> (r: bool)
    ensures
        r == slide_token(t@),
{
    let d1 = crate::hover::scan_digit_bytes(t, 0);
    if d1 == 0 || d1 >= t.len() || t[d1] != 0x3Eu8 {
        return false;
    }
    let d2 = crate::hover::scan_digit_bytes(t, d1 + 1);
    if d2 == d1 + 1 {
        return false;
    }
    if d2 == t.len() {
        return true;
    }
    if t[d2] != 0x3Au8 {
        return false;
    }
    let d3 = crate::hover::scan_digit_bytes(t, d2 + 1);
    d3 == t.len() && d3 > d2 + 1
}

fn is_hold(t: &[u8]) -> (r: bool)
    ensures
        r == hold_token(t@),
{
    let d1 = crate::hover::scan_digit_bytes(t, 0);
    if d1 == 0 || d1 >= t.len() || t[d1] != 0x3Au8 {
        return false;
    }
    let d2 = crate::hover::scan_digit_bytes(t, d1 + 1);
    d2 == t.len() && d2 > d1 + 1
}

/// Hover on the envelope of a PSG instrument; see [`psg_hit`].
pub fn psg_hover(lines: &Vec<String>, li: usize, col: usize) -> (r: Option<(String, usize, usize)>)
    requires
        li < lines@.len(),
    ensures
        span_hit_is(r, psg_hit(lines_view(lines@), li as int, col as int)),
{
    let c = line_chars(lines, li);
    let line = lines[li].as_str();
    let b = line.as_bytes();
    let t = trim_start_vec(c.as_slice());
    if t.len() == 0 || t[0] == ';' {
        return None;
    }
    let kw = str_chars("psg");
    let ds: usize;
    if t[0] == '@' {
        if !is_definition_line(c.as_slice(), kw.as_slice()) {
            return None;
        }
        ds = psg_offset_of(b);
    } else if is_multiline_keyword_line(lines, li, kw.as_slice()) {
        ds = psg_offset_of(b);
    } else {
        match parse_leading_track_selector(line) {
            Some(_) => {
                return None;
            },
            None => {},
        }
        match find_instrument_anchor(lines, if li > 0 { li - 1 } else { 0 }, kw.as_slice()) {
            Some(_) => {
                ds = 0;
            },
            None => {
                return None;
            },
        }
    }
    let pe = semicolon_in(b);
    if col >= pe || col < ds {
        return None;
    }
    match crate::hover::hover_token(line, col) {
        Some((tok, s, e)) => {
            let (l, d) = psg_token_doc_of(tok.as_bytes());
            Some((format_hover(l, d), s, e))
        },
        None => None,
    }
}

} // verus!
