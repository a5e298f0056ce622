//! Hover documentation lookup.
//!
//! Returns the matched span on the line along with the Markdown body, so
//! callers can attach a range to the hover bubble; multi-character
//! constructs (`@1`, `V-8`, `_{+fc}`, `'mode 1'`) hover as one region.
//! Columns are UTF-8 byte offsets within the line.

use vstd::prelude::*;
use vstd::string::StringSliceAdditionalSpecFns;
use vstd::utf8::{decode_utf8, encode_utf8, valid_utf8};
use crate::strings::{str_chars, push_chars, is_unicode_ws, dec_chars, push_decimal, std_lines, std_line_ranges, chars_between};
use crate::text_scan::{at_boundary, sub_str, lemma_ascii_then_boundary, in_key_sig, is_in_key_sig, comment_before, is_in_comment};
use crate::track_selector::{leading_selector, parse_leading_track_selector};
use crate::docs;
use crate::hover_params::{lines_view, two_op_hit, fm_hit, psg_hit, two_op_hover, fm_hover, psg_hover};
use crate::docs::{
    doc_for_key, entry_for_key, entry_for_label, nonempty_doc, command_entry_pick, spec_command_completions,
    spec_at_meta, spec_rate_offset, spec_platform_commands, spec_fm_param_docs, spec_two_op_param_docs,
    spec_meta_keywords, spec_platform_values, spec_option_values, spec_timesig_values, spec_group_values,
    spec_instrument_types, is_numeric_track_label, is_letter_track_label, spec_track_doc_numeric, spec_track_doc_letters,
};

verus! {

/// A resolved hover: Markdown body and the 0-based line and byte range
/// it covers.
#[derive(Debug, Clone, PartialEq, Eq)]
pub struct HoverInfo {
    pub markdown: String,
    /// 0-based line index that contains the hover.
    pub line: u32,
    /// Start of the covered range (UTF-8 byte offset).
    pub start: u32,
    /// End of the covered range (UTF-8 byte offset, exclusive).
    pub end: u32,
}

// ---------------------------------------------------------------------------
// Markdown
// ---------------------------------------------------------------------------

/// `s` with every backtick escaped as `` \` ``.
pub open spec fn escape_ticks(s: Seq<char>) -> Seq<char>
    decreases s.len(),
{
    if s.len() == 0 {
        Seq::empty()
    } else {
        escape_ticks(s.drop_last()) + if s.last() == '`' { seq!['\\', '`'] } else { seq![s.last()] }
    }
}

/// A backticked label header, then the body after a blank line when
/// there is one.
pub open spec fn hover_markdown(label: Seq<char>, doc: Seq<char>) -> Seq<char> {
    seq!['`'] + escape_ticks(label) + seq!['`'] + if doc.len() == 0 { Seq::empty() } else { seq!['\n', '\n'] + doc }
}

fn push_escaped(out: &mut String, s: &str)
    ensures
        final(out)@ == old(out)@ + escape_ticks(s@),
{
    let c = str_chars(s);
    let mut i: usize = 0;
    while i < c.len()
        invariant
            c@ == s@,
            i <= c@.len(),
            out@ == old(out)@ + escape_ticks(c@.subrange(0, i as int)),
        decreases c@.len() - i,
    {
        let ghost prev = out@;
        if c[i] == '`' {
            out.push('\\');
            out.push('`');
        } else {
            out.push(c[i]);
        }
        assert(c@.subrange(0, i + 1).drop_last() =~= c@.subrange(0, i as int));
        assert(out@ =~= old(out)@ + escape_ticks(c@.subrange(0, i + 1)));
        i += 1;
    }
    assert(c@.subrange(0, c@.len() as int) =~= c@);
}

/// Format `(label, doc)` as hover Markdown: a backticked label header
/// followed by the body.
pub fn format_hover(label: &str, doc: &str) -> (r: String)
    ensures
        r@ == hover_markdown(label@, doc@),
{
    let mut out = String::new();
    out.push('`');
    push_escaped(&mut out, label);
    out.push('`');
    if !doc.is_empty() {
        out.push('\n');
        out.push('\n');
        let d = str_chars(doc);
        push_chars(&mut out, d.as_slice());
    }
    assert(out@ =~= hover_markdown(label@, doc@));
    out
}

// ---------------------------------------------------------------------------
// Byte-level helpers
// ---------------------------------------------------------------------------

/// Space, tab, CR, LF, vertical tab or form feed.
pub open spec fn hws(c: u8) -> bool {
    c == 0x20u8 || c == 0x09u8 || c == 0x0Du8 || c == 0x0Au8 || c == 0x0Bu8 || c == 0x0Cu8
}

pub(crate) fn is_ws(c: u8) -> (r: bool)
    ensures
        r == hws(c),
{
    c == 0x20u8 || c == 0x09u8 || c == 0x0Du8 || c == 0x0Au8 || c == 0x0Bu8 || c == 0x0Cu8
}

/// ASCII digit byte.
pub open spec fn dig(c: u8) -> bool {
    0x30u8 <= c <= 0x39u8
}

/// The characters of the bytes `b[s..e]`.
pub open spec fn piece(b: Seq<u8>, s: int, e: int) -> Seq<char> {
    decode_utf8(b.subrange(s, e))
}

/// Start of the run of non-whitespace bytes ending at `i`.
pub open spec fn run_left(b: Seq<u8>, i: int) -> int
    decreases i,
{
    if i <= 0 || i > b.len() || hws(b[i - 1]) { i } else { run_left(b, i - 1) }
}

/// End of the run of non-whitespace bytes starting at `i`.
pub open spec fn run_right(b: Seq<u8>, i: int) -> int
    decreases b.len() - i,
{
    if i < 0 || i >= b.len() || hws(b[i]) { i } else { run_right(b, i + 1) }
}

/// The whitespace-delimited token around byte `col`.
pub open spec fn htoken(b: Seq<u8>, col: int) -> Option<(int, int)> {
    if col > b.len() {
        None
    } else {
        let s = run_left(b, col);
        let e = run_right(b, col);
        if s >= e { None } else { Some((s, e)) }
    }
}

proof fn lemma_runs(b: Seq<u8>, col: int)
    requires
        0 <= col <= b.len(),
    ensures
        0 <= run_left(b, col) <= col,
        col <= run_right(b, col) <= b.len(),
        run_left(b, col) == 0 || hws(b[run_left(b, col) - 1]),
        run_right(b, col) == b.len() || hws(b[run_right(b, col)]),
        forall|k: int| run_left(b, col) <= k < run_right(b, col) ==> !hws(#[trigger] b[k]),
    decreases b.len() - col + col,
{
    lemma_run_left(b, col);
    lemma_run_right(b, col);
}

proof fn lemma_run_left(b: Seq<u8>, i: int)
    requires
        0 <= i <= b.len(),
    ensures
        0 <= run_left(b, i) <= i,
        run_left(b, i) == 0 || hws(b[run_left(b, i) - 1]),
        forall|k: int| run_left(b, i) <= k < i ==> !hws(#[trigger] b[k]),
    decreases i,
{
    if i > 0 && !hws(b[i - 1]) {
        lemma_run_left(b, i - 1);
    }
}

proof fn lemma_run_right(b: Seq<u8>, i: int)
    requires
        0 <= i <= b.len(),
    ensures
        i <= run_right(b, i) <= b.len(),
        run_right(b, i) == b.len() || hws(b[run_right(b, i)]),
        forall|k: int| i <= k < run_right(b, i) ==> !hws(#[trigger] b[k]),
    decreases b.len() - i,
{
    if i < b.len() && !hws(b[i]) {
        lemma_run_right(b, i + 1);
    }
}

/// A token's span lies on character boundaries.
proof fn lemma_token_boundaries(b: Seq<u8>, s: int, e: int)
    requires
        valid_utf8(b),
        0 <= s <= e <= b.len(),
        s == 0 || hws(b[s - 1]),
        e == b.len() || hws(b[e]),
    ensures
        at_boundary(b, s),
        at_boundary(b, e),
{
    if 0 < s < b.len() {
        lemma_ascii_then_boundary(b, s - 1);
    }
}

/// The whitespace-delimited token around `col` on `line`, with its span.
pub(crate) fn hover_token(line: &str, col: usize) -> (r: Option<(&str, usize, usize)>)
    ensures
        match htoken(line.spec_bytes(), col as int) {
            None => r is None,
            Some((s, e)) => r matches Some((t, rs, re)) && rs == s && re == e && t.spec_bytes() == line.spec_bytes().subrange(s, e)
                && t@ == piece(line.spec_bytes(), s, e),
        },
{
    let bytes = line.as_bytes();
    let ghost b = line.spec_bytes();
    if col > bytes.len() {
        return None;
    }
    let mut start = col;
    while start > 0 && !is_ws(bytes[start - 1])
        invariant
            b == bytes@,
            start <= col <= b.len(),
            run_left(b, col as int) == run_left(b, start as int),
        decreases start,
    {
        start -= 1;
    }
    let mut end = col;
    while end < bytes.len() && !is_ws(bytes[end])
        invariant
            b == bytes@,
            col <= end <= b.len(),
            run_right(b, col as int) == run_right(b, end as int),
        decreases b.len() - end,
    {
        end += 1;
    }
    if start >= end {
        return None;
    }
    proof {
        lemma_runs(b, col as int);
        vstd::utf8::encode_utf8_valid_utf8(line@);
        lemma_token_boundaries(b, start as int, end as int);
    }
    let t = sub_str(line, start, end);
    proof {
        vstd::utf8::encode_utf8_decode_utf8(t@);
    }
    Some((t, start, end))
}

/// Quote pairs of `q` scanned left to right from `i` (`last` the open
/// quote awaiting its partner): the first pair that spans `col`.
pub open spec fn hquote(b: Seq<u8>, col: int, q: u8, i: int, last: Option<int>) -> Option<(int, int)>
    decreases b.len() - i,
{
    if i < 0 || i >= b.len() {
        None
    } else if b[i] == q {
        match last {
            Some(open) => if open <= col <= i { Some((open, i)) } else { hquote(b, col, q, i + 1, None) },
            None => hquote(b, col, q, i + 1, Some(i)),
        }
    } else {
        hquote(b, col, q, i + 1, last)
    }
}

fn quote_bounds(line: &str, col: usize, q: u8) -> (r: Option<(usize, usize)>)
    ensures
        match hquote(line.spec_bytes(), col as int, q, 0, None) {
            None => r is None,
            Some((s, e)) => r matches Some((rs, re)) && rs == s && re == e,
        },
        r matches Some((s, e)) ==> (s < e < line.spec_bytes().len() && line.spec_bytes()[s as int] == q
            && line.spec_bytes()[e as int] == q),
{
    let bytes = line.as_bytes();
    let ghost b = line.spec_bytes();
    let mut last: Option<usize> = None;
    let mut i: usize = 0;
    while i < bytes.len()
        invariant
            b == bytes@,
            b == line.spec_bytes(),
            i <= b.len(),
            hquote(b, col as int, q, 0, None) == hquote(b, col as int, q, i as int, match last {
                Some(l) => Some(l as int),
                None => None,
            }),
            last matches Some(l) ==> l < i && b[l as int] == q,
        decreases b.len() - i,
    {
        if bytes[i] == q {
            match last {
                Some(open) => {
                    if col >= open && col <= i {
                        return Some((open, i));
                    }
                    last = None;
                },
                None => {
                    last = Some(i);
                },
            }
        }
        i += 1;
    }
    None
}

/// `@` followed by one or more ASCII digits.
pub open spec fn at_number_bytes(t: Seq<u8>) -> bool {
    t.len() > 1 && t[0] == 0x40u8 && forall|k: int| 1 <= k < t.len() ==> dig(#[trigger] t[k])
}

pub(crate) fn all_digits_from(t: &[u8], from: usize) -> (r: bool)
    requires
        from <= t@.len(),
    ensures
        r == forall|k: int| from <= k < t@.len() ==> dig(#[trigger] t@[k]),
{
    let mut i = from;
    while i < t.len()
        invariant
            from <= i <= t@.len(),
            forall|k: int| from <= k < i ==> dig(#[trigger] t@[k]),
        decreases t@.len() - i,
    {
        if !(0x30u8 <= t[i] && t[i] <= 0x39u8) {
            return false;
        }
        i += 1;
    }
    true
}

fn is_at_number(token: &str) -> (r: bool)
    ensures
        r == at_number_bytes(token.spec_bytes()),
{
    let t = token.as_bytes();
    t.len() > 1 && t[0] == 0x40u8 && all_digits_from(t, 1)
}

/// `@`, optionally one of `E`, `M`, `P`, then one or more ASCII digits.
pub open spec fn at_meta_bytes(t: Seq<u8>) -> bool {
    t.len() > 0 && t[0] == 0x40u8 && {
        let i = if t.len() > 1 && (t[1] == 0x45u8 || t[1] == 0x4Du8 || t[1] == 0x50u8) { 2int } else { 1int };
        i < t.len() && forall|k: int| i <= k < t.len() ==> dig(#[trigger] t[k])
    }
}

fn is_at_meta_token(token: &str) -> (r: bool)
    ensures
        r == at_meta_bytes(token.spec_bytes()),
{
    let t = token.as_bytes();
    if t.len() == 0 || t[0] != 0x40u8 {
        return false;
    }
    let mut idx: usize = 1;
    if idx < t.len() && (t[idx] == 0x45u8 || t[idx] == 0x4Du8 || t[idx] == 0x50u8) {
        idx += 1;
    }
    if idx >= t.len() {
        return false;
    }
    all_digits_from(t, idx)
}

/// The `@` meta label a token names: `@E<num>`, `@M<num>`, `@P<num>` by
/// its second byte, else `@<num>`.
pub open spec fn at_meta_label(t: Seq<u8>) -> &'static str {
    if t.len() >= 2 && t[0] == 0x40u8 && t[1] == 0x45u8 {
        "@E<num>"
    } else if t.len() >= 2 && t[0] == 0x40u8 && t[1] == 0x4Du8 {
        "@M<num>"
    } else if t.len() >= 2 && t[0] == 0x40u8 && t[1] == 0x50u8 {
        "@P<num>"
    } else {
        "@<num>"
    }
}

/// The non-empty documentation of the `@` meta entry labelled `label`.
pub open spec fn at_meta_doc_of(label: &'static str) -> Option<&'static str> {
    match entry_for_label(spec_at_meta(), label@) {
        Some(e) => nonempty_doc(e.doc),
        None => None,
    }
}

fn at_meta_label_of(t: &[u8]) -> (r: &'static str)
    ensures
        r == at_meta_label(t@),
{
    if t.len() >= 2 && t[0] == 0x40u8 && t[1] == 0x45u8 {
        "@E<num>"
    } else if t.len() >= 2 && t[0] == 0x40u8 && t[1] == 0x4Du8 {
        "@M<num>"
    } else if t.len() >= 2 && t[0] == 0x40u8 && t[1] == 0x50u8 {
        "@P<num>"
    } else {
        "@<num>"
    }
}

/// What looking up a meta token inside a longer token gives.
pub enum AtMetaFind {
    Found(&'static str, &'static str, int, int),
    NotFound,
    /// The byte after the `@` starts a multi-byte character, where the
    /// lookup's one-byte slice is not on a character boundary.
    Fails,
}

/// Index of the last `@` in `t[..n]`, or `-1`.
pub open spec fn last_at(t: Seq<u8>, n: int) -> int
    decreases n,
{
    if n <= 0 || n > t.len() { -1 } else if t[n - 1] == 0x40u8 { n - 1 } else { last_at(t, n - 1) }
}

/// End of the ASCII digit run of `t` from `i`.
pub open spec fn digit_end(t: Seq<u8>, i: int) -> int
    decreases t.len() - i,
{
    if i < 0 || i >= t.len() || !dig(t[i]) { i } else { digit_end(t, i + 1) }
}

pub proof fn lemma_digit_end(t: Seq<u8>, i: int)
    requires
        0 <= i <= t.len(),
    ensures
        i <= digit_end(t, i) <= t.len(),
    decreases t.len() - i,
{
    if i < t.len() && dig(t[i]) {
        lemma_digit_end(t, i + 1);
    }
}

pub(crate) fn scan_digit_bytes(t: &[u8], i: usize) -> (r: usize)
    requires
        i <= t@.len(),
    ensures
        r == digit_end(t@, i as int),
        i <= r <= t@.len(),
{
    let mut e = i;
    while e < t.len() && 0x30u8 <= t[e] && t[e] <= 0x39u8
        invariant
            i <= e <= t@.len(),
            digit_end(t@, i as int) == digit_end(t@, e as int),
        decreases t@.len() - e,
    {
        e += 1;
    }
    e
}

/// An `@` meta reference inside token `t`, found from the last `@` at
/// or before `offset`, when `offset` lies on its `@` and digits.
pub open spec fn at_meta_in(t: Seq<u8>, offset: int) -> AtMetaFind {
    if offset + 1 > t.len() || !at_boundary(t, offset + 1) {
        AtMetaFind::NotFound
    } else {
        let at_pos = last_at(t, offset + 1);
        if at_pos < 0 {
            AtMetaFind::NotFound
        } else if t.len() - at_pos > 1 && t[at_pos + 1] >= 0x80u8 {
            AtMetaFind::Fails
        } else {
            let tagged = t.len() - at_pos > 1 && (t[at_pos + 1] == 0x45u8 || t[at_pos + 1] == 0x4Du8 || t[at_pos + 1] == 0x50u8);
            let label = if !tagged { "@<num>" } else if t[at_pos + 1] == 0x45u8 { "@E<num>" } else if t[at_pos + 1] == 0x4Du8 { "@M<num>" } else { "@P<num>" };
            let ds = at_pos + if tagged { 2int } else { 1int };
            let de = digit_end(t, ds);
            if de == ds || !(at_pos <= offset < de) {
                AtMetaFind::NotFound
            } else {
                match at_meta_doc_of(label) {
                    Some(doc) => AtMetaFind::Found(label, doc, at_pos, de),
                    None => AtMetaFind::NotFound,
                }
            }
        }
    }
}

fn at_meta_in_token(token: &str, offset: usize) -> (r: Option<(&'static str, &'static str, usize, usize)>)
    requires
        !(at_meta_in(token.spec_bytes(), offset as int) is Fails),
    ensures
        match at_meta_in(token.spec_bytes(), offset as int) {
            AtMetaFind::Found(l, d, a, e) => r matches Some((rl, rd, ra, re)) && rl == l && rd == d && ra == a && re == e,
            _ => r is None,
        },
{
    let t = token.as_bytes();
    let ghost tb = token.spec_bytes();
    if offset >= t.len() {
        return None;
    }
    if offset + 1 < t.len() && 0x80u8 <= t[offset + 1] && t[offset + 1] <= 0xBFu8 {
        return None;
    }
    let mut k = offset + 1;
    while k > 0 && t[k - 1] != 0x40u8
        invariant
            tb == t@,
            k <= offset + 1 <= t@.len(),
            last_at(tb, offset + 1) == last_at(tb, k as int),
        decreases k,
    {
        k -= 1;
    }
    if k == 0 {
        return None;
    }
    let at_pos = k - 1;
    if t.len() - at_pos > 1 && t[at_pos + 1] >= 0x80u8 {
        return None;
    }
    let tagged = t.len() - at_pos > 1 && (t[at_pos + 1] == 0x45u8 || t[at_pos + 1] == 0x4Du8 || t[at_pos + 1] == 0x50u8);
    let label: &'static str = if !tagged {
        "@<num>"
    } else if t[at_pos + 1] == 0x45u8 {
        "@E<num>"
    } else if t[at_pos + 1] == 0x4Du8 {
        "@M<num>"
    } else {
        "@P<num>"
    };
    let ds = at_pos + if tagged { 2 } else { 1 };
    let de = scan_digit_bytes(t, ds);
    if de == ds || !(at_pos <= offset && offset < de) {
        return None;
    }
    match docs::at_meta_doc(label) {
        Some(doc) => Some((label, doc, at_pos, de)),
        None => None,
    }
}

/// `t` starts with the bytes `p`.
pub open spec fn bytes_start_with(t: Seq<u8>, p: Seq<u8>) -> bool {
    t.len() >= p.len() && t.subrange(0, p.len() as int) == p
}

fn starts_with_bytes(t: &[u8], p: &[u8]) -> (r: bool)
    ensures
        r == bytes_start_with(t@, p@),
{
    if t.len() < p.len() {
        return false;
    }
    let mut i: usize = 0;
    while i < p.len()
        invariant
            i <= p@.len() <= t@.len(),
            forall|k: int| 0 <= k < i ==> t@[k] == p@[k],
        decreases p@.len() - i,
    {
        if t[i] != p[i] {
            assert(t@.subrange(0, p@.len() as int)[i as int] != p@[i as int]);
            return false;
        }
        i += 1;
    }
    assert(t@.subrange(0, p@.len() as int) =~= p@);
    true
}

/// The label of the PCM parameter keyed `key`, or the key itself.
pub open spec fn rate_offset_label_or(key: &'static str) -> &'static str {
    match entry_for_key(spec_rate_offset(), key@) {
        Some(e) => e.label,
        None => key,
    }
}

/// `rate=` / `offset=` at the start of a token.
pub open spec fn rate_offset_hit(t: Seq<u8>) -> Option<(&'static str, &'static str)> {
    if bytes_start_with(t, seq![0x72u8, 0x61u8, 0x74u8, 0x65u8, 0x3Du8]) {
        match doc_for_key(spec_rate_offset(), "rate="@) {
            Some(d) => Some((rate_offset_label_or("rate="), d)),
            None => None,
        }
    } else if bytes_start_with(t, seq![0x6Fu8, 0x66u8, 0x66u8, 0x73u8, 0x65u8, 0x74u8, 0x3Du8]) {
        match doc_for_key(spec_rate_offset(), "offset="@) {
            Some(d) => Some((rate_offset_label_or("offset="), d)),
            None => None,
        }
    } else {
        None
    }
}

fn rate_offset_in_token(token: &str) -> (r: Option<(&'static str, &'static str)>)
    ensures
        r == rate_offset_hit(token.spec_bytes()),
{
    let t = token.as_bytes();
    let rate: [u8; 5] = [0x72u8, 0x61u8, 0x74u8, 0x65u8, 0x3Du8];
    let off: [u8; 7] = [0x6Fu8, 0x66u8, 0x66u8, 0x73u8, 0x65u8, 0x74u8, 0x3Du8];
    assert(rate@ =~= seq![0x72u8, 0x61u8, 0x74u8, 0x65u8, 0x3Du8]);
    assert(off@ =~= seq![0x6Fu8, 0x66u8, 0x66u8, 0x73u8, 0x65u8, 0x74u8, 0x3Du8]);
    if starts_with_bytes(t, &rate) {
        let label = match docs::rate_offset_label("rate=") {
            Some(l) => l,
            None => "rate=",
        };
        return match docs::rate_offset_doc("rate=") {
            Some(d) => Some((label, d)),
            None => None,
        };
    }
    if starts_with_bytes(t, &off) {
        let label = match docs::rate_offset_label("offset=") {
            Some(l) => l,
            None => "offset=",
        };
        return match docs::rate_offset_doc("offset=") {
            Some(d) => Some((label, d)),
            None => None,
        };
    }
    None
}

/// The command name inside a quoted platform command `'...'` spanning
/// bytes `s..=e`: its first whitespace-delimited word.
pub open spec fn platform_cmd_name(b: Seq<u8>, s: int, e: int) -> Option<Seq<char>> {
    if s + 1 >= e {
        None
    } else {
        let t = crate::strings::trim_start_chars(piece(b, s + 1, e));
        if t.len() == 0 { None } else { Some(t.subrange(0, crate::instrument_preview::ws_index(t, 0))) }
    }
}

/// The platform command documented for the quote at `s..=e`.
pub open spec fn platform_hit(b: Seq<u8>, s: int, e: int) -> Option<(&'static str, &'static str)> {
    match platform_cmd_name(b, s, e) {
        None => None,
        Some(cmd) => match doc_for_key(spec_platform_commands(), cmd) {
            None => None,
            Some(d) => match entry_for_key(spec_platform_commands(), cmd) {
                Some(en) => Some((en.label, d)),
                None => None,
            },
        },
    }
}

pub(crate) fn string_of_chars(c: &[char]) -> (r: String)
    ensures
        r@ == c@,
{
    let mut s = String::new();
    push_chars(&mut s, c);
    assert(s@ =~= c@);
    s
}

fn platform_command_at_inner(line: &str, sq_start: usize, sq_end: usize) -> (r: Option<(&'static str, &'static str)>)
    requires
        sq_start < sq_end < line.spec_bytes().len(),
        line.spec_bytes()[sq_start as int] == 0x27u8,
        line.spec_bytes()[sq_end as int] == 0x27u8,
    ensures
        r == platform_hit(line.spec_bytes(), sq_start as int, sq_end as int),
{
    let ghost b = line.spec_bytes();
    if sq_start + 1 >= sq_end {
        return None;
    }
    proof {
        vstd::utf8::encode_utf8_valid_utf8(line@);
        lemma_ascii_then_boundary(b, sq_start as int);
    }
    let inner = sub_str(line, sq_start + 1, sq_end);
    proof {
        vstd::utf8::encode_utf8_decode_utf8(inner@);
    }
    let c = str_chars(inner);
    let p = crate::strings::skip_ws_forward(c.as_slice(), 0, c.len());
    assert(c@.subrange(0, c@.len() as int) =~= c@);
    let ghost t = crate::strings::trim_start_chars(piece(b, sq_start + 1, sq_end as int));
    assert(inner@ == piece(b, sq_start + 1, sq_end as int));
    assert(t == c@.subrange(p as int, c@.len() as int));
    if p == c.len() {
        return None;
    }
    let w = crate::instrument_preview::find_ws(c.as_slice(), p, c.len());
    let word = chars_between(c.as_slice(), p, w);
    assert(word@ =~= t.subrange(0, crate::instrument_preview::ws_index(t, 0)));
    assert(platform_cmd_name(b, sq_start as int, sq_end as int) == Some(word@));
    let cmd = string_of_chars(word.as_slice());
    let doc = match docs::platform_command_doc(cmd.as_str()) {
        Some(d) => d,
        None => {
            return None;
        },
    };
    match docs::platform_command_label(cmd.as_str()) {
        Some(l) => Some((l, doc)),
        None => None,
    }
}

/// `*` and ASCII digits anywhere on a line, or (at the line start) a run
/// of ASCII uppercase letters.
pub open spec fn track_token(start: int, t: Seq<u8>) -> bool {
    (t.len() > 1 && t[0] == 0x2Au8 && forall|k: int| 1 <= k < t.len() ==> dig(#[trigger] t[k]))
        || (start == 0 && t.len() > 0 && forall|k: int| 0 <= k < t.len() ==> 0x41u8 <= #[trigger] t[k] <= 0x5Au8)
}

fn is_track_token(start: usize, token: &str) -> (r: bool)
    ensures
        r == track_token(start as int, token.spec_bytes()),
{
    let t = token.as_bytes();
    if t.len() > 1 && t[0] == 0x2Au8 && all_digits_from(t, 1) {
        return true;
    }
    assert(!(t@.len() > 1 && t@[0] == 0x2Au8 && forall|k: int| 1 <= k < t@.len() ==> dig(#[trigger] t@[k])));
    if start != 0 || t.len() == 0 {
        return false;
    }
    let mut i: usize = 0;
    while i < t.len()
        invariant
            i <= t@.len(),
            start == 0,
            t@ == token.spec_bytes(),
            !(t@.len() > 1 && t@[0] == 0x2Au8 && forall|k: int| 1 <= k < t@.len() ==> dig(#[trigger] t@[k])),
            forall|k: int| 0 <= k < i ==> 0x41u8 <= #[trigger] t@[k] <= 0x5Au8,
        decreases t@.len() - i,
    {
        if !(0x41u8 <= t[i] && t[i] <= 0x5Au8) {
            return false;
        }
        i += 1;
    }
    true
}

/// First non-whitespace byte at or after `i`.
pub open spec fn skip_hws(b: Seq<u8>, i: int) -> int
    decreases b.len() - i,
{
    if i < 0 || i >= b.len() || !hws(b[i]) { i } else { skip_hws(b, i + 1) }
}

/// The `#keyword` that opens a line (after whitespace): its span.
pub open spec fn meta_bounds(b: Seq<u8>) -> Option<(int, int)> {
    let s = skip_hws(b, 0);
    if s >= b.len() || b[s] != 0x23u8 { None } else { Some((s, run_right(b, s + 1))) }
}

proof fn lemma_skip_hws(b: Seq<u8>, i: int)
    requires
        0 <= i <= b.len(),
    ensures
        i <= skip_hws(b, i) <= b.len(),
    decreases b.len() - i,
{
    if i < b.len() && hws(b[i]) {
        lemma_skip_hws(b, i + 1);
    }
}

fn meta_keyword_bounds(line: &str) -> (r: Option<(usize, usize, &str)>)
    ensures
        match meta_bounds(line.spec_bytes()) {
            None => r is None,
            Some((s, e)) => r matches Some((rs, re, kw)) && rs == s && re == e && kw@ == piece(line.spec_bytes(), s, e),
        },
{
    let bytes = line.as_bytes();
    let ghost b = line.spec_bytes();
    let mut start: usize = 0;
    while start < bytes.len() && is_ws(bytes[start])
        invariant
            b == bytes@,
            start <= b.len(),
            skip_hws(b, 0) == skip_hws(b, start as int),
        decreases b.len() - start,
    {
        start += 1;
    }
    if start >= bytes.len() || bytes[start] != 0x23u8 {
        return None;
    }
    let mut end = start + 1;
    while end < bytes.len() && !is_ws(bytes[end])
        invariant
            b == bytes@,
            start + 1 <= end <= b.len(),
            run_right(b, start + 1) == run_right(b, end as int),
        decreases b.len() - end,
    {
        end += 1;
    }
    proof {
        lemma_run_right(b, start + 1);
        vstd::utf8::encode_utf8_valid_utf8(line@);
        if start + 1 < b.len() {
            lemma_ascii_then_boundary(b, start as int);
        }
    }
    let kw = sub_str(line, start, end);
    proof {
        vstd::utf8::encode_utf8_decode_utf8(kw@);
    }
    Some((start, end, kw))
}

// ---------------------------------------------------------------------------
// Commands within a token
// ---------------------------------------------------------------------------

/// A command found inside a token: label, documentation and span.
pub struct CmdHit {
    pub label: &'static str,
    pub doc: &'static str,
    pub start: int,
    pub end: int,
}

/// The command-table label of `key`, or the key itself.
pub open spec fn label_or(key: Seq<char>, fallback: &'static str) -> &'static str {
    match entry_for_key(spec_command_completions(), key) {
        Some(e) => e.label,
        None => fallback,
    }
}

/// A documented command `key` spanning `start..end`, if it has a doc.
pub open spec fn doc_hit(key: &'static str, start: int, end: int) -> Option<CmdHit> {
    match doc_for_key(spec_command_completions(), key@) {
        Some(d) => Some(CmdHit { label: label_or(key@, key), doc: d, start, end }),
        None => None,
    }
}

/// One of `+ - =`.
pub open spec fn acc_byte(c: u8) -> bool {
    c == 0x2Bu8 || c == 0x2Du8 || c == 0x3Du8
}

/// One of the single-letter commands `olQqCRLstTvVpkKMGDr^&`.
pub open spec fn cmd_byte(c: u8) -> bool {
    c == 0x6Fu8 || c == 0x6Cu8 || c == 0x51u8 || c == 0x71u8 || c == 0x43u8 || c == 0x52u8 || c == 0x4Cu8
        || c == 0x73u8 || c == 0x74u8 || c == 0x54u8 || c == 0x76u8 || c == 0x56u8 || c == 0x70u8 || c == 0x6Bu8
        || c == 0x4Bu8 || c == 0x4Du8 || c == 0x47u8 || c == 0x44u8 || c == 0x72u8 || c == 0x5Eu8 || c == 0x26u8
}

/// End of the run of `.` bytes from `i`.
pub open spec fn dots_end(t: Seq<u8>, i: int) -> int
    decreases t.len() - i,
{
    if i < 0 || i >= t.len() || t[i] != 0x2Eu8 { i } else { dots_end(t, i + 1) }
}

/// `i + 1` when `t[i]` is `+` or `-`, else `i`.
pub open spec fn skip_sign(t: Seq<u8>, i: int) -> int {
    if 0 <= i < t.len() && (t[i] == 0x2Bu8 || t[i] == 0x2Du8) { i + 1 } else { i }
}

/// The note at `idx`: its explicit accidental's index and its end (after
/// accidental, `:`-ticks or length digits, and dots).
pub open spec fn note_extent(t: Seq<u8>, idx: int) -> (Option<int>, int) {
    let e0 = idx + 1;
    let acc = if e0 < t.len() && acc_byte(t[e0]) { Some(e0) } else { None };
    let e1 = if acc is Some { e0 + 1 } else { e0 };
    let e2 = if e1 < t.len() && t[e1] == 0x3Au8 { digit_end(t, e1 + 1) } else { digit_end(t, e1) };
    (acc, dots_end(t, e2))
}

/// The `_` command at `idx`: its key and end.
pub open spec fn underscore_extent(t: Seq<u8>, idx: int) -> (&'static str, int) {
    let double = idx + 1 < t.len() && t[idx + 1] == 0x5Fu8;
    let e0 = if double { idx + 2 } else { idx + 1 };
    if e0 < t.len() && t[e0] == 0x7Bu8 {
        let close = e0 + 1 + crate::strings::byte_find(t.subrange(e0 + 1, t.len() as int), 0x7Du8, 0);
        ("_{", if close < t.len() { close + 1 } else { close })
    } else {
        (if double { "__" } else { "_" }, digit_end(t, skip_sign(t, e0)))
    }
}

/// The `\` command at `idx`: its key and end.
pub open spec fn backslash_extent(t: Seq<u8>, idx: int) -> (&'static str, int) {
    if idx + 1 < t.len() && t[idx + 1] == 0x3Du8 {
        let a = digit_end(t, skip_sign(t, idx + 2));
        let b = if a < t.len() && t[a] == 0x2Cu8 { a + 1 } else { a };
        ("\\=", digit_end(t, skip_sign(t, b)))
    } else {
        ("\\", digit_end(t, idx + 1))
    }
}

/// The single-letter command at `idx`: whether it has an explicit sign,
/// and its end.
pub open spec fn letter_extent(t: Seq<u8>, idx: int) -> (bool, int) {
    let signed = idx + 1 < t.len() && (t[idx + 1] == 0x2Bu8 || t[idx + 1] == 0x2Du8);
    (signed, digit_end(t, if signed { idx + 2 } else { idx + 1 }))
}

/// The accidental key for byte `c`.
pub open spec fn acc_key(c: u8) -> &'static str {
    if c == 0x2Bu8 { "+" } else if c == 0x2Du8 { "-" } else { "=" }
}

pub proof fn lemma_extents(t: Seq<u8>, idx: int)
    requires
        0 <= idx < t.len(),
    ensures
        idx < note_extent(t, idx).1 <= t.len(),
        idx < underscore_extent(t, idx).1 <= t.len(),
        idx < backslash_extent(t, idx).1 <= t.len(),
        idx < letter_extent(t, idx).1 <= t.len(),
{
    let e0 = idx + 1;
    let e1 = if e0 < t.len() && acc_byte(t[e0]) { e0 + 1 } else { e0 };
    if e1 < t.len() && t[e1] == 0x3Au8 {
        lemma_digit_end(t, e1 + 1);
        lemma_dots_end(t, digit_end(t, e1 + 1));
    } else {
        lemma_digit_end(t, e1);
        lemma_dots_end(t, digit_end(t, e1));
    }
    let double = idx + 1 < t.len() && t[idx + 1] == 0x5Fu8;
    let u0 = if double { idx + 2 } else { idx + 1 };
    if u0 < t.len() && t[u0] == 0x7Bu8 {
        crate::strings::lemma_byte_find(t.subrange(u0 + 1, t.len() as int), 0x7Du8, 0);
    } else {
        lemma_digit_end(t, skip_sign(t, u0));
    }
    if idx + 1 < t.len() && t[idx + 1] == 0x3Du8 {
        let a0 = skip_sign(t, idx + 2);
        lemma_digit_end(t, a0);
        let a = digit_end(t, a0);
        let bb = if a < t.len() && t[a] == 0x2Cu8 { a + 1 } else { a };
        lemma_digit_end(t, skip_sign(t, bb));
    } else {
        lemma_digit_end(t, idx + 1);
    }
    let signed = idx + 1 < t.len() && (t[idx + 1] == 0x2Bu8 || t[idx + 1] == 0x2Du8);
    lemma_digit_end(t, if signed { idx + 2 } else { idx + 1 });
}

pub proof fn lemma_dots_end(t: Seq<u8>, i: int)
    requires
        0 <= i <= t.len(),
    ensures
        i <= dots_end(t, i) <= t.len(),
    decreases t.len() - i,
{
    if i < t.len() && t[i] == 0x2Eu8 {
        lemma_dots_end(t, i + 1);
    }
}

/// One step of the command scan at `idx`: the answer, or the index where
/// the scan goes on.
pub enum CmdStep {
    Done(Option<CmdHit>),
    Next(int),
}

/// The command scan's step at `idx` (`0 <= idx < t.len()`).
pub open spec fn cmd_step(t: Seq<u8>, offset: int, idx: int) -> CmdStep {
    let c = t[idx];
    if 0x61u8 <= c <= 0x68u8 {
        let (acc, end) = note_extent(t, idx);
        if idx <= offset < end {
            CmdStep::Done(match acc {
                Some(ai) => if offset == ai { doc_hit(acc_key(t[ai]), ai, ai + 1) } else { doc_hit("notes", idx, end) },
                None => doc_hit("notes", idx, end),
            })
        } else {
            CmdStep::Next(end)
        }
    } else if c == 0x5Fu8 {
        let (key, end) = underscore_extent(t, idx);
        if idx <= offset < end { CmdStep::Done(doc_hit(key, idx, end)) } else { CmdStep::Next(end) }
    } else if c == 0x5Cu8 {
        let (key, end) = backslash_extent(t, idx);
        if idx <= offset < end { CmdStep::Done(doc_hit(key, idx, end)) } else { CmdStep::Next(end) }
    } else if cmd_byte(c) {
        let (signed, end) = letter_extent(t, idx);
        if idx <= offset < end {
            CmdStep::Done(match command_entry_pick(spec_command_completions(), seq![c as char], signed) {
                Some(e) => if e.doc@.len() == 0 { None } else { Some(CmdHit { label: e.label, doc: e.doc, start: idx, end }) },
                None => None,
            })
        } else {
            CmdStep::Next(end)
        }
    } else {
        CmdStep::Next(idx + 1)
    }
}

/// The command of token `t` under byte `offset`, scanning from `idx`.
pub open spec fn cmd_scan(t: Seq<u8>, offset: int, idx: int) -> Option<CmdHit>
    decreases t.len() - idx,
{
    if idx < 0 || idx >= t.len() {
        None
    } else {
        proof {
            lemma_extents(t, idx);
        }
        match cmd_step(t, offset, idx) {
            CmdStep::Done(r) => r,
            CmdStep::Next(j) => if j <= idx { None } else { cmd_scan(t, offset, j) },
        }
    }
}

fn command_hit(key: &'static str, start: usize, end: usize) -> (r: Option<(&'static str, &'static str, usize, usize)>)
    ensures
        match doc_hit(key, start as int, end as int) {
            Some(h) => r matches Some((l, d, s, e)) && l == h.label && d == h.doc && s == h.start && e == h.end,
            None => r is None,
        },
{
    match docs::command_doc(key) {
        Some(doc) => {
            let label = match docs::command_completion_label(key) {
                Some(l) => l,
                None => key,
            };
            Some((label, doc, start, end))
        },
        None => None,
    }
}

fn skip_digits_from(t: &[u8], i: usize) -> (r: usize)
    requires
        i <= t@.len(),
    ensures
        r == digit_end(t@, i as int),
        i <= r <= t@.len(),
{
    scan_digit_bytes(t, i)
}

/// The hit of the command scan, in exec form.
pub open spec fn hit_tuple(h: Option<CmdHit>, r: Option<(&'static str, &'static str, usize, usize)>) -> bool {
    match h {
        Some(h) => r matches Some((l, d, s, e)) && l == h.label && d == h.doc && s == h.start && e == h.end,
        None => r is None,
    }
}

fn note_step(t: &[u8], offset: usize, idx: usize) -> (r: (bool, Option<(&'static str, &'static str, usize, usize)>, usize))
    requires
        idx < t@.len(),
        0x61u8 <= t@[idx as int] <= 0x68u8,
    ensures
        match cmd_step(t@, offset as int, idx as int) {
            CmdStep::Done(h) => r.0 && hit_tuple(h, r.1),
            CmdStep::Next(j) => !r.0 && r.2 == j,
        },
{
    let _len = t.len();
    let ghost tb = t@;
    let start = idx;
    let mut end = idx + 1;
    let mut acc: Option<usize> = None;
    if end < t.len() && (t[end] == 0x2Bu8 || t[end] == 0x2Du8 || t[end] == 0x3Du8) {
        acc = Some(end);
        end += 1;
    }
    if end < t.len() && t[end] == 0x3Au8 {
        end = scan_digit_bytes(t, end + 1);
    } else {
        end = scan_digit_bytes(t, end);
    }
    while end < t.len() && t[end] == 0x2Eu8
        invariant
            tb == t@,
            end <= t@.len(),
            note_extent(tb, idx as int).1 == dots_end(tb, end as int),
        decreases t@.len() - end,
    {
        end += 1;
    }
    assert(note_extent(tb, idx as int) == (match acc { Some(a) => Some(a as int), None => None::<int> }, end as int));
    if offset >= start && offset < end {
        match acc {
            Some(ai) => {
                if offset == ai {
                    let key: &'static str = if t[ai] == 0x2Bu8 { "+" } else if t[ai] == 0x2Du8 { "-" } else { "=" };
                    return (true, command_hit(key, ai, ai + 1), end);
                }
            },
            None => {},
        }
        return (true, command_hit("notes", start, end), end);
    }
    (false, None, end)
}

fn underscore_step(t: &[u8], offset: usize, idx: usize) -> (r: (bool, Option<(&'static str, &'static str, usize, usize)>, usize))
    requires
        idx < t@.len(),
        t@[idx as int] == 0x5Fu8,
    ensures
        match cmd_step(t@, offset as int, idx as int) {
            CmdStep::Done(h) => r.0 && hit_tuple(h, r.1),
            CmdStep::Next(j) => !r.0 && r.2 == j,
        },
{
    let _len = t.len();
    let start = idx;
    let double = idx + 1 < t.len() && t[idx + 1] == 0x5Fu8;
    let e0 = if double { idx + 2 } else { idx + 1 };
    let key: &'static str;
    let end: usize;
    if e0 < t.len() && t[e0] == 0x7Bu8 {
        key = "_{";
        let close = crate::strings::find_byte(t, 0x7Du8, e0 + 1, t.len());
        end = if close < t.len() { close + 1 } else { close };
    } else {
        key = if double { "__" } else { "_" };
        let s0 = if e0 < t.len() && (t[e0] == 0x2Bu8 || t[e0] == 0x2Du8) { e0 + 1 } else { e0 };
        end = scan_digit_bytes(t, s0);
    }
    assert(underscore_extent(t@, idx as int) == (key, end as int));
    if offset >= start && offset < end {
        return (true, command_hit(key, start, end), end);
    }
    (false, None, end)
}

fn backslash_step(t: &[u8], offset: usize, idx: usize) -> (r: (bool, Option<(&'static str, &'static str, usize, usize)>, usize))
    requires
        idx < t@.len(),
        t@[idx as int] == 0x5Cu8,
    ensures
        match cmd_step(t@, offset as int, idx as int) {
            CmdStep::Done(h) => r.0 && hit_tuple(h, r.1),
            CmdStep::Next(j) => !r.0 && r.2 == j,
        },
{
    let _len = t.len();
    let start = idx;
    let key: &'static str;
    let end: usize;
    if idx + 1 < t.len() && t[idx + 1] == 0x3Du8 {
        key = "\\=";
        let s0 = if idx + 2 < t.len() && (t[idx + 2] == 0x2Bu8 || t[idx + 2] == 0x2Du8) { idx + 3 } else { idx + 2 };
        let a = scan_digit_bytes(t, s0);
        let b = if a < t.len() && t[a] == 0x2Cu8 { a + 1 } else { a };
        let s1 = if b < t.len() && (t[b] == 0x2Bu8 || t[b] == 0x2Du8) { b + 1 } else { b };
        end = scan_digit_bytes(t, s1);
    } else {
        key = "\\";
        end = scan_digit_bytes(t, idx + 1);
    }
    assert(backslash_extent(t@, idx as int) == (key, end as int));
    if offset >= start && offset < end {
        return (true, command_hit(key, start, end), end);
    }
    (false, None, end)
}

fn is_cmd_byte(c: u8) -> (r: bool)
    ensures
        r == cmd_byte(c),
{
    c == 0x6Fu8 || c == 0x6Cu8 || c == 0x51u8 || c == 0x71u8 || c == 0x43u8 || c == 0x52u8 || c == 0x4Cu8
        || c == 0x73u8 || c == 0x74u8 || c == 0x54u8 || c == 0x76u8 || c == 0x56u8 || c == 0x70u8 || c == 0x6Bu8
        || c == 0x4Bu8 || c == 0x4Du8 || c == 0x47u8 || c == 0x44u8 || c == 0x72u8 || c == 0x5Eu8 || c == 0x26u8
}

fn letter_step(t: &[u8], offset: usize, idx: usize) -> (r: (bool, Option<(&'static str, &'static str, usize, usize)>, usize))
    requires
        idx < t@.len(),
        cmd_byte(t@[idx as int]),
        !(0x61u8 <= t@[idx as int] <= 0x68u8),
    ensures
        match cmd_step(t@, offset as int, idx as int) {
            CmdStep::Done(h) => r.0 && hit_tuple(h, r.1),
            CmdStep::Next(j) => !r.0 && r.2 == j,
        },
{
    let _len = t.len();
    let c = t[idx];
    let start = idx;
    let signed = idx + 1 < t.len() && (t[idx + 1] == 0x2Bu8 || t[idx + 1] == 0x2Du8);
    let end = scan_digit_bytes(t, if signed { idx + 2 } else { idx + 1 });
    assert(letter_extent(t@, idx as int) == (signed, end as int));
    if offset >= start && offset < end {
        let mut key = String::new();
        key.push(c as char);
        assert(key@ =~= seq![c as char]);
        let r = match docs::command_entry(key.as_str(), signed) {
            Some((label, doc)) => Some((label, doc, start, end)),
            None => None,
        };
        return (true, r, end);
    }
    (false, None, end)
}

/// The documented command of `token` under byte `offset`.
fn command_at(token: &str, offset: usize) -> (r: Option<(&'static str, &'static str, usize, usize)>)
    ensures
        hit_tuple(cmd_scan(token.spec_bytes(), offset as int, 0), r),
{
    let t = token.as_bytes();
    let ghost tb = token.spec_bytes();
    let mut idx: usize = 0;
    while idx < t.len()
        invariant
            tb == t@,
            tb == token.spec_bytes(),
            idx <= t@.len(),
            cmd_scan(tb, offset as int, 0) == cmd_scan(tb, offset as int, idx as int),
        decreases t@.len() - idx,
    {
        let c = t[idx];
        proof {
            lemma_extents(tb, idx as int);
        }
        let (done, res, next) = if 0x61u8 <= c && c <= 0x68u8 {
            note_step(t, offset, idx)
        } else if c == 0x5Fu8 {
            underscore_step(t, offset, idx)
        } else if c == 0x5Cu8 {
            backslash_step(t, offset, idx)
        } else if is_cmd_byte(c) {
            letter_step(t, offset, idx)
        } else {
            (false, None, idx + 1)
        };
        assert(cmd_scan(tb, offset as int, idx as int) == match cmd_step(tb, offset as int, idx as int) {
            CmdStep::Done(r) => r,
            CmdStep::Next(j) => if j <= idx { None } else { cmd_scan(tb, offset as int, j) },
        });
        if done {
            return res;
        }
        idx = next;
    }
    None
}

// ---------------------------------------------------------------------------
// Single-line dispatch
// ---------------------------------------------------------------------------

/// A hover body and the byte range it covers.
pub struct HitModel {
    pub markdown: Seq<char>,
    pub start: int,
    pub end: int,
}

/// The result of a hover lookup on a line.
pub enum Outcome {
    Hit(HitModel),
    Miss,
    /// The lookup of an `@` meta reference inside a token would slice
    /// through a multi-byte character.
    Fails,
}

/// A hit with the standard label/doc Markdown.
pub open spec fn hm(label: Seq<char>, doc: Seq<char>, s: int, e: int) -> HitModel {
    HitModel { markdown: hover_markdown(label, doc), start: s, end: e }
}

/// A platform command in single quotes around `col`.
pub open spec fn platform_quote_hit(b: Seq<u8>, col: int) -> Option<HitModel> {
    match hquote(b, col, 0x27u8, 0, None) {
        Some((s, e)) => match platform_hit(b, s, e) {
            Some((l, d)) => Some(hm(l@, d@, s, e + 1)),
            None => None,
        },
        None => None,
    }
}

/// An `@`, `@E`, `@M` or `@P` number token around `col`.
pub open spec fn at_meta_token_hit(b: Seq<u8>, col: int) -> Option<HitModel> {
    match htoken(b, col) {
        Some((s, e)) => {
            let tb = b.subrange(s, e);
            if at_meta_bytes(tb) {
                match at_meta_doc_of(at_meta_label(tb)) {
                    Some(d) => Some(hm(at_meta_label(tb)@, d@, s, e)),
                    None => None,
                }
            } else {
                None
            }
        },
        None => None,
    }
}

/// Splitting state: words done, word being read.
pub open spec fn ws_scan(s: Seq<char>, n: int) -> (Seq<Seq<char>>, Seq<char>)
    decreases n,
{
    if n <= 0 {
        (Seq::empty(), Seq::empty())
    } else {
        let st = ws_scan(s, n - 1);
        if is_unicode_ws(s[n - 1]) {
            (if st.1.len() == 0 { st.0 } else { st.0.push(st.1) }, Seq::empty())
        } else {
            (st.0, st.1.push(s[n - 1]))
        }
    }
}

/// The whitespace-separated words of `s` (`str::split_whitespace`).
pub open spec fn ws_words(s: Seq<char>) -> Seq<Seq<char>> {
    let st = ws_scan(s, s.len() as int);
    if st.1.len() == 0 { st.0 } else { st.0.push(st.1) }
}

/// Index of the last element of `v` equal to `x`, or `-1`.
pub open spec fn last_index_of(v: Seq<Seq<char>>, x: Seq<char>, n: int) -> int
    decreases n,
{
    if n <= 0 || n > v.len() { -1 } else if v[n - 1] == x { n - 1 } else { last_index_of(v, x, n - 1) }
}

/// `@` followed by one or more ASCII digits.
pub open spec fn at_number_chars(t: Seq<char>) -> bool {
    t.len() > 1 && t[0] == '@' && forall|k: int| 1 <= k < t.len() ==> crate::strings::is_digit_char(#[trigger] t[k])
}

/// The Markdown for a PCM sample path.
pub open spec fn pcm_markdown(path: Seq<char>) -> Seq<char> {
    "**PCM sample path**\n\nRelative to the MML file: `"@ + escape_ticks(path) + seq!['`']
}

/// A sample path in double quotes around `col` after `@N pcm`.
pub open spec fn pcm_path_hit(b: Seq<u8>, col: int) -> Option<HitModel> {
    match hquote(b, col, 0x22u8, 0, None) {
        Some((ds, de)) => if ds + 1 < de {
            let toks = ws_words(piece(b, 0, ds));
            let k = last_index_of(toks, seq!['p', 'c', 'm'], toks.len() as int);
            let path = piece(b, ds + 1, de);
            if k > 0 && at_number_chars(toks[k - 1]) && path.len() > 0 {
                Some(HitModel { markdown: pcm_markdown(path), start: ds, end: de + 1 })
            } else {
                None
            }
        } else {
            None
        },
        None => None,
    }
}

/// One of the single-symbol commands `[]()|/{}><`.
pub open spec fn symbol_byte(c: u8) -> bool {
    c == 0x5Bu8 || c == 0x5Du8 || c == 0x28u8 || c == 0x29u8 || c == 0x7Cu8 || c == 0x2Fu8 || c == 0x7Bu8
        || c == 0x7Du8 || c == 0x3Eu8 || c == 0x3Cu8
}

/// The command-table label of `key`, or `key`.
pub open spec fn label_chars_or(key: Seq<char>) -> Seq<char> {
    match entry_for_key(spec_command_completions(), key) {
        Some(e) => e.label@,
        None => key,
    }
}

/// A single-symbol command at `col`, outside a key signature.
pub open spec fn symbol_hit(b: Seq<u8>, col: int) -> Option<HitModel> {
    if 0 <= col < b.len() {
        let c = b[col];
        let on_open = c == 0x7Bu8 && col > 0 && b[col - 1] == 0x5Fu8;
        if symbol_byte(c) && !in_key_sig(b, col) && !on_open {
            match doc_for_key(spec_command_completions(), seq![c as char]) {
                Some(d) => Some(hm(label_chars_or(seq![c as char]), d@, col, col + 1)),
                None => None,
            }
        } else {
            None
        }
    } else {
        None
    }
}

/// The documentation of a track selector token.
pub open spec fn track_doc_of(t: Seq<char>) -> Option<&'static str> {
    if is_numeric_track_label(t) {
        Some(spec_track_doc_numeric())
    } else if is_letter_track_label(t) {
        Some(spec_track_doc_letters())
    } else {
        None
    }
}

/// The documentation of a meta keyword: its doc, or its summary.
pub open spec fn meta_doc_of(t: Seq<char>) -> Option<&'static str> {
    match entry_for_key(spec_meta_keywords(), t) {
        Some(e) => Some(if e.doc@.len() == 0 { e.detail } else { e.doc }),
        None => None,
    }
}

/// The documentation of value `t` of meta keyword `kw`.
pub open spec fn meta_value_doc(kw: Seq<char>, t: Seq<char>) -> Option<&'static str> {
    if kw == "#platform"@ {
        doc_for_key(spec_platform_values(), t)
    } else if kw == "#option"@ {
        doc_for_key(spec_option_values(), t)
    } else if kw == "#timesig"@ {
        doc_for_key(spec_timesig_values(), t)
    } else if kw == "#group"@ {
        doc_for_key(spec_group_values(), t)
    } else {
        None
    }
}

/// The `\` / `\=` / `=` commands at `col`.
pub open spec fn echo_hit(b: Seq<u8>, col: int) -> Option<HitModel> {
    if 0 <= col < b.len() && b[col] == 0x5Cu8 {
        let is_eq = col + 1 < b.len() && b[col + 1] == 0x3Du8;
        let key: &'static str = if is_eq { "\\=" } else { "\\" };
        match doc_for_key(spec_command_completions(), key@) {
            Some(d) => Some(hm(label_or(key@, key)@, d@, col, col + if is_eq { 2int } else { 1int })),
            None => None,
        }
    } else if 0 <= col < b.len() && b[col] == 0x3Du8 {
        if col > 0 && b[col - 1] == 0x5Cu8 {
            match doc_for_key(spec_command_completions(), "\\="@) {
                Some(d) => Some(hm(label_or("\\="@, "\\=")@, d@, col - 1, col + 1)),
                None => None,
            }
        } else {
            match doc_for_key(spec_command_completions(), "="@) {
                Some(d) => Some(hm(label_or("="@, "=")@, d@, col, col + 1)),
                None => None,
            }
        }
    } else {
        None
    }
}

/// The last lookups on token `s..e`: instrument keyword, PCM parameter,
/// then the command under the cursor.
pub open spec fn token_tail(b: Seq<u8>, col: int, s: int, e: int) -> Outcome {
    let tb = b.subrange(s, e);
    let tk = piece(b, s, e);
    let offset = if col - s < e - s - 1 { col - s } else { e - s - 1 };
    match echo_hit(b, col) {
        Some(h) => Outcome::Hit(h),
        None => match doc_for_key(spec_instrument_types(), tk) {
            Some(d) => Outcome::Hit(hm(tk, d@, s, e)),
            None => match rate_offset_hit(tb) {
                Some((l, d)) => Outcome::Hit(hm(l@, d@, s, e)),
                None => match cmd_scan(tb, offset, 0) {
                    Some(h) => Outcome::Hit(hm(h.label@, h.doc@, s + h.start, s + h.end)),
                    None => Outcome::Miss,
                },
            },
        },
    }
}

/// `t` holds an `@` byte.
pub open spec fn has_at(t: Seq<u8>) -> bool {
    exists|k: int| 0 <= k < t.len() && t[k] == 0x40u8
}

/// The lookups on the token `s..e` around `col`.
pub open spec fn token_cascade(b: Seq<u8>, col: int, s: int, e: int) -> Outcome {
    let tb = b.subrange(s, e);
    let tk = piece(b, s, e);
    let offset = if col - s < e - s - 1 { col - s } else { e - s - 1 };
    if track_token(s, tb) && track_doc_of(tk) is Some {
        Outcome::Hit(hm("A..Z / *<num>"@, track_doc_of(tk).unwrap()@, s, e))
    } else if meta_bounds(b) is Some && col >= meta_bounds(b).unwrap().1 && s >= meta_bounds(b).unwrap().1 {
        let (ms, me) = meta_bounds(b).unwrap();
        match meta_value_doc(piece(b, ms, me), tk) {
            Some(d) => Outcome::Hit(hm(tk, d@, s, e)),
            None => Outcome::Miss,
        }
    } else if tb[0] == 0x23u8 {
        match meta_doc_of(tk) {
            Some(d) => Outcome::Hit(hm(tk, d@, s, e)),
            None => Outcome::Miss,
        }
    } else if has_at(tb) {
        match at_meta_in(tb, offset) {
            AtMetaFind::Found(l, d, a, ae) => Outcome::Hit(hm(l@, d@, s + a, s + ae)),
            AtMetaFind::Fails => Outcome::Fails,
            AtMetaFind::NotFound => token_tail(b, col, s, e),
        }
    } else {
        token_tail(b, col, s, e)
    }
}

/// Hover on one line `b` at byte `col`.
pub open spec fn hover_line(b: Seq<u8>, col: int) -> Outcome {
    if b.len() == 0 {
        Outcome::Miss
    } else if platform_quote_hit(b, col) is Some {
        Outcome::Hit(platform_quote_hit(b, col).unwrap())
    } else if at_meta_token_hit(b, col) is Some {
        Outcome::Hit(at_meta_token_hit(b, col).unwrap())
    } else if pcm_path_hit(b, col) is Some {
        Outcome::Hit(pcm_path_hit(b, col).unwrap())
    } else if symbol_hit(b, col) is Some {
        Outcome::Hit(symbol_hit(b, col).unwrap())
    } else {
        match htoken(b, col) {
            None => Outcome::Miss,
            Some((s, e)) => token_cascade(b, col, s, e),
        }
    }
}

// ---------------------------------------------------------------------------
// Single-line dispatch, executable
// ---------------------------------------------------------------------------

/// A hover body and the byte range it covers on its line.
struct Hit {
    markdown: String,
    start: usize,
    end: usize,
}

/// `r` is the hit `h`, or nothing when there is none.
spec fn hit_is(r: Option<Hit>, h: Option<HitModel>) -> bool {
    match h {
        Some(m) => r matches Some(x) && x.markdown@ == m.markdown && x.start == m.start && x.end == m.end,
        None => r is None,
    }
}

/// `r` is what outcome `o` gives.
spec fn outcome_is(r: Option<Hit>, o: Outcome) -> bool {
    match o {
        Outcome::Hit(h) => hit_is(r, Some(h)),
        _ => r is None,
    }
}

fn platform_quote_at(line: &str, col: usize) -> (r: Option<Hit>)
    ensures
        hit_is(r, platform_quote_hit(line.spec_bytes(), col as int)),
{
    let _len = line.as_bytes().len();
    match quote_bounds(line, col, 0x27u8) {
        Some((s, e)) => match platform_command_at_inner(line, s, e) {
            Some((l, d)) => Some(Hit { markdown: format_hover(l, d), start: s, end: e + 1 }),
            None => None,
        },
        None => None,
    }
}

fn at_meta_token_at(line: &str, col: usize) -> (r: Option<Hit>)
    ensures
        hit_is(r, at_meta_token_hit(line.spec_bytes(), col as int)),
{
    match hover_token(line, col) {
        Some((t, s, e)) => {
            if is_at_meta_token(t) {
                let label = at_meta_label_of(t.as_bytes());
                match docs::at_meta_doc(label) {
                    Some(d) => Some(Hit { markdown: format_hover(label, d), start: s, end: e }),
                    None => None,
                }
            } else {
                None
            }
        },
        None => None,
    }
}

/// The words of `c` split at Unicode whitespace.
pub(crate) fn split_ws_words(c: &[char]) -> (r: Vec<Vec<char>>)
    ensures
        r@.len() == ws_words(c@).len(),
        forall|i: int| 0 <= i < r@.len() ==> (#[trigger] r@[i])@ == ws_words(c@)[i],
{
    let mut words: Vec<Vec<char>> = Vec::new();
    let mut cur: Vec<char> = Vec::new();
    let mut i: usize = 0;
    while i < c.len()
        invariant
            i <= c@.len(),
            words@.len() == ws_scan(c@, i as int).0.len(),
            forall|k: int| 0 <= k < words@.len() ==> (#[trigger] words@[k])@ == ws_scan(c@, i as int).0[k],
            cur@ == ws_scan(c@, i as int).1,
        decreases c@.len() - i,
    {
        if crate::strings::whitespace_char(c[i]) {
            if cur.len() > 0 {
                words.push(cur);
                cur = Vec::new();
            }
        } else {
            cur.push(c[i]);
        }
        i += 1;
    }
    if cur.len() > 0 {
        words.push(cur);
    }
    words
}

pub(crate) fn is_pcm_word(w: &Vec<char>) -> (r: bool)
    ensures
        r == (w@ == seq!['p', 'c', 'm']),
{
    let r = w.len() == 3 && w[0] == 'p' && w[1] == 'c' && w[2] == 'm';
    if r {
        assert(w@ =~= seq!['p', 'c', 'm']);
    }
    r
}

fn is_at_number_chars(w: &Vec<char>) -> (r: bool)
    ensures
        r == at_number_chars(w@),
{
    if w.len() <= 1 || w[0] != '@' {
        return false;
    }
    let mut i: usize = 1;
    while i < w.len()
        invariant
            1 <= i <= w@.len(),
            w@.len() > 1,
            w@[0] == '@',
            forall|k: int| 1 <= k < i ==> crate::strings::is_digit_char(#[trigger] w@[k]),
        decreases w@.len() - i,
    {
        if !('0' <= w[i] && w[i] <= '9') {
            return false;
        }
        i += 1;
    }
    true
}

/// The position of the last `pcm` word, or `-1`, with the word before it
/// checked to be an `@` number.
fn pcm_after_at_number(words: &Vec<Vec<char>>, ghost_words: Ghost<Seq<Seq<char>>>) -> (r: bool)
    requires
        words@.len() == ghost_words@.len(),
        forall|i: int| 0 <= i < words@.len() ==> (#[trigger] words@[i])@ == ghost_words@[i],
    ensures
        r == ({
            let k = last_index_of(ghost_words@, seq!['p', 'c', 'm'], ghost_words@.len() as int);
            k > 0 && at_number_chars(ghost_words@[k - 1])
        }),
{
    let ghost toks = ghost_words@;
    let mut n = words.len();
    while n > 0 && !is_pcm_word(&words[n - 1])
        invariant
            n <= words@.len() == toks.len(),
            forall|i: int| 0 <= i < words@.len() ==> (#[trigger] words@[i])@ == toks[i],
            last_index_of(toks, seq!['p', 'c', 'm'], toks.len() as int) == last_index_of(toks, seq!['p', 'c', 'm'], n as int),
        decreases n,
    {
        n -= 1;
    }
    if n <= 1 {
        return false;
    }
    is_at_number_chars(&words[n - 2])
}

fn pcm_path_at(line: &str, col: usize) -> (r: Option<Hit>)
    ensures
        hit_is(r, pcm_path_hit(line.spec_bytes(), col as int)),
{
    let ghost b = line.spec_bytes();
    let _len = line.as_bytes().len();
    let (ds, de) = match quote_bounds(line, col, 0x22u8) {
        Some(q) => q,
        None => {
            return None;
        },
    };
    if ds + 1 >= de {
        return None;
    }
    proof {
        vstd::utf8::encode_utf8_valid_utf8(line@);
        lemma_ascii_then_boundary(b, ds as int);
    }
    let prefix = sub_str(line, 0, ds);
    let path = sub_str(line, ds + 1, de);
    proof {
        vstd::utf8::encode_utf8_decode_utf8(prefix@);
        vstd::utf8::encode_utf8_decode_utf8(path@);
    }
    let pc = str_chars(prefix);
    let words = split_ws_words(pc.as_slice());
    let ok = pcm_after_at_number(&words, Ghost(ws_words(pc@)));
    let pathc = str_chars(path);
    if !ok || pathc.len() == 0 {
        return None;
    }
    let mut md = String::new();
    let head = str_chars("**PCM sample path**\n\nRelative to the MML file: `");
    push_chars(&mut md, head.as_slice());
    push_escaped(&mut md, path);
    md.push('`');
    assert(md@ =~= pcm_markdown(path@));
    Some(Hit { markdown: md, start: ds, end: de + 1 })
}

fn is_symbol_byte(c: u8) -> (r: bool)
    ensures
        r == symbol_byte(c),
{
    c == 0x5Bu8 || c == 0x5Du8 || c == 0x28u8 || c == 0x29u8 || c == 0x7Cu8 || c == 0x2Fu8 || c == 0x7Bu8
        || c == 0x7Du8 || c == 0x3Eu8 || c == 0x3Cu8
}

fn symbol_at(line: &str, col: usize) -> (r: Option<Hit>)
    ensures
        hit_is(r, symbol_hit(line.spec_bytes(), col as int)),
{
    let b = line.as_bytes();
    if col >= b.len() {
        return None;
    }
    let c = b[col];
    let on_open = c == 0x7Bu8 && col > 0 && b[col - 1] == 0x5Fu8;
    if !is_symbol_byte(c) || is_in_key_sig(line, col) || on_open {
        return None;
    }
    let mut key = String::new();
    key.push(c as char);
    assert(key@ =~= seq![c as char]);
    match docs::command_doc(key.as_str()) {
        Some(d) => {
            let md = match docs::command_completion_label(key.as_str()) {
                Some(l) => format_hover(l, d),
                None => format_hover(key.as_str(), d),
            };
            Some(Hit { markdown: md, start: col, end: col + 1 })
        },
        None => None,
    }
}

fn meta_value_lookup(kw: &str, t: &str) -> (r: Option<&'static str>)
    ensures
        r == meta_value_doc(kw@, t@),
{
    if crate::strings::str_eq(kw, "#platform") {
        docs::platform_value_doc(t)
    } else if crate::strings::str_eq(kw, "#option") {
        docs::option_value_doc(t)
    } else if crate::strings::str_eq(kw, "#timesig") {
        docs::timesig_value_doc(t)
    } else if crate::strings::str_eq(kw, "#group") {
        docs::group_value_doc(t)
    } else {
        None
    }
}

fn has_at_byte(t: &[u8]) -> (r: bool)
    ensures
        r == has_at(t@),
{
    let mut i: usize = 0;
    while i < t.len()
        invariant
            i <= t@.len(),
            forall|k: int| 0 <= k < i ==> t@[k] != 0x40u8,
        decreases t@.len() - i,
    {
        if t[i] == 0x40u8 {
            return true;
        }
        i += 1;
    }
    false
}

fn echo_at(line: &str, col: usize) -> (r: Option<Hit>)
    ensures
        hit_is(r, echo_hit(line.spec_bytes(), col as int)),
{
    let b = line.as_bytes();
    if col < b.len() && b[col] == 0x5Cu8 {
        let is_eq = col + 1 < b.len() && b[col + 1] == 0x3Du8;
        let key: &'static str = if is_eq { "\\=" } else { "\\" };
        match docs::command_doc(key) {
            Some(d) => {
                let l = match docs::command_completion_label(key) {
                    Some(l) => l,
                    None => key,
                };
                Some(Hit { markdown: format_hover(l, d), start: col, end: col + if is_eq { 2 } else { 1 } })
            },
            None => None,
        }
    } else if col < b.len() && b[col] == 0x3Du8 {
        let key: &'static str = if col > 0 && b[col - 1] == 0x5Cu8 { "\\=" } else { "=" };
        let start = if col > 0 && b[col - 1] == 0x5Cu8 { col - 1 } else { col };
        match docs::command_doc(key) {
            Some(d) => {
                let l = match docs::command_completion_label(key) {
                    Some(l) => l,
                    None => key,
                };
                Some(Hit { markdown: format_hover(l, d), start, end: col + 1 })
            },
            None => None,
        }
    } else {
        None
    }
}

/// A command hit of the scan lies inside the token.
proof fn lemma_cmd_scan_bounds(t: Seq<u8>, offset: int, idx: int)
    requires
        0 <= idx,
    ensures
        cmd_scan(t, offset, idx) matches Some(h) ==> 0 <= h.start <= h.end <= t.len(),
    decreases t.len() - idx,
{
    if idx < t.len() {
        lemma_extents(t, idx);
        match cmd_step(t, offset, idx) {
            CmdStep::Done(_) => {},
            CmdStep::Next(j) => {
                if j > idx {
                    lemma_cmd_scan_bounds(t, offset, j);
                }
            },
        }
    }
}

/// A meta reference found inside a token lies inside it.
proof fn lemma_at_meta_in_bounds(t: Seq<u8>, offset: int)
    ensures
        at_meta_in(t, offset) matches AtMetaFind::Found(_, _, a, ae) ==> 0 <= a <= ae <= t.len(),
{
    if offset + 1 <= t.len() && at_boundary(t, offset + 1) {
        let at_pos = last_at(t, offset + 1);
        lemma_last_at(t, offset + 1);
        if at_pos >= 0 {
            let tagged = t.len() - at_pos > 1 && (t[at_pos + 1] == 0x45u8 || t[at_pos + 1] == 0x4Du8 || t[at_pos + 1] == 0x50u8);
            let ds = at_pos + if tagged { 2int } else { 1int };
            lemma_digit_end(t, ds);
        }
    }
}

proof fn lemma_last_at(t: Seq<u8>, n: int)
    requires
        0 <= n <= t.len(),
    ensures
        -1 <= last_at(t, n) < n,
        last_at(t, n) >= 0 ==> n >= 1,
    decreases n,
{
    if n > 0 && t[n - 1] != 0x40u8 {
        lemma_last_at(t, n - 1);
    }
}

fn token_tail_at(line: &str, col: usize, t: &str, s: usize, e: usize) -> (r: Option<Hit>)
    requires
        s <= col <= e <= line.spec_bytes().len(),
        s < e,
        t.spec_bytes() == line.spec_bytes().subrange(s as int, e as int),
        t@ == piece(line.spec_bytes(), s as int, e as int),
    ensures
        outcome_is(r, token_tail(line.spec_bytes(), col as int, s as int, e as int)),
{
    match echo_at(line, col) {
        Some(h) => {
            return Some(h);
        },
        None => {},
    }
    match docs::instrument_doc(t) {
        Some(d) => {
            return Some(Hit { markdown: format_hover(t, d), start: s, end: e });
        },
        None => {},
    }
    match rate_offset_in_token(t) {
        Some((l, d)) => {
            return Some(Hit { markdown: format_hover(l, d), start: s, end: e });
        },
        None => {},
    }
    let offset = if col - s < e - s - 1 { col - s } else { e - s - 1 };
    proof {
        lemma_cmd_scan_bounds(t.spec_bytes(), offset as int, 0);
    }
    match command_at(t, offset) {
        Some((l, d, hs, he)) => Some(Hit { markdown: format_hover(l, d), start: s + hs, end: s + he }),
        None => None,
    }
}

fn token_cascade_at(line: &str, col: usize, t: &str, s: usize, e: usize) -> (r: Option<Hit>)
    requires
        s <= col <= e <= line.spec_bytes().len(),
        s < e,
        t.spec_bytes() == line.spec_bytes().subrange(s as int, e as int),
        t@ == piece(line.spec_bytes(), s as int, e as int),
        !(token_cascade(line.spec_bytes(), col as int, s as int, e as int) is Fails),
    ensures
        outcome_is(r, token_cascade(line.spec_bytes(), col as int, s as int, e as int)),
{
    if is_track_token(s, t) {
        match docs::track_doc(t) {
            Some(d) => {
                return Some(Hit { markdown: format_hover(docs::track_help_label(), d), start: s, end: e });
            },
            None => {},
        }
    }
    match meta_keyword_bounds(line) {
        Some((_ms, me, kw)) => {
            if col >= me && s >= me {
                return match meta_value_lookup(kw, t) {
                    Some(d) => Some(Hit { markdown: format_hover(t, d), start: s, end: e }),
                    None => None,
                };
            }
        },
        None => {},
    }
    let tb = t.as_bytes();
    if tb[0] == 0x23u8 {
        return match docs::meta_doc(t) {
            Some(d) => Some(Hit { markdown: format_hover(t, d), start: s, end: e }),
            None => None,
        };
    }
    if has_at_byte(tb) {
        let offset = if col - s < e - s - 1 { col - s } else { e - s - 1 };
        proof {
            lemma_at_meta_in_bounds(t.spec_bytes(), offset as int);
        }
        match at_meta_in_token(t, offset) {
            Some((l, d, a, ae)) => {
                return Some(Hit { markdown: format_hover(l, d), start: s + a, end: s + ae });
            },
            None => {},
        }
    }
    token_tail_at(line, col, t, s, e)
}

/// Hover on one line at byte `col`, without the instrument-block context.
fn hover_hit_line(line: &str, col: usize) -> (r: Option<Hit>)
    requires
        !(hover_line(line.spec_bytes(), col as int) is Fails),
    ensures
        outcome_is(r, hover_line(line.spec_bytes(), col as int)),
{
    let ghost b = line.spec_bytes();
    if line.as_bytes().len() == 0 {
        return None;
    }
    match platform_quote_at(line, col) {
        Some(h) => {
            return Some(h);
        },
        None => {},
    }
    match at_meta_token_at(line, col) {
        Some(h) => {
            return Some(h);
        },
        None => {},
    }
    match pcm_path_at(line, col) {
        Some(h) => {
            return Some(h);
        },
        None => {},
    }
    match symbol_at(line, col) {
        Some(h) => {
            return Some(h);
        },
        None => {},
    }
    match hover_token(line, col) {
        None => None,
        Some((t, s, e)) => {
            proof {
                lemma_runs(b, col as int);
            }
            token_cascade_at(line, col, t, s, e)
        },
    }
}

// ---------------------------------------------------------------------------
// Whole-text entry point
// ---------------------------------------------------------------------------

/// A track selector token at `col`, looked up before the one-line hovers.
pub open spec fn track_hit(b: Seq<u8>, col: int) -> Option<HitModel> {
    match htoken(b, col) {
        Some((s, e)) => if track_token(s, b.subrange(s, e)) && track_doc_of(piece(b, s, e)) is Some {
            Some(hm("A..Z / *<num>"@, track_doc_of(piece(b, s, e)).unwrap()@, s, e))
        } else {
            None
        },
        None => None,
    }
}

/// Hover on line `li` of the text whose lines are `ls`, at byte `col`:
/// nothing in a comment; else the 2-operator, FM and PSG instrument
/// fields, a track selector, then the one-line lookups.
pub open spec fn hover_text(ls: Seq<Seq<char>>, li: int, col: int) -> Outcome {
    if li < 0 || li >= ls.len() {
        Outcome::Miss
    } else {
        let b = encode_utf8(ls[li]);
        if comment_before(b, col) {
            Outcome::Miss
        } else if two_op_hit(ls, li, col) is Some {
            Outcome::Hit(two_op_hit(ls, li, col).unwrap())
        } else if fm_hit(ls, li, col) is Some {
            Outcome::Hit(fm_hit(ls, li, col).unwrap())
        } else if psg_hit(ls, li, col) is Some {
            Outcome::Hit(psg_hit(ls, li, col).unwrap())
        } else if track_hit(b, col) is Some {
            Outcome::Hit(track_hit(b, col).unwrap())
        } else {
            hover_line(b, col)
        }
    }
}

/// `r` is the hover outcome `o` on line `line`; spans are truncated to
/// `u32`.
pub open spec fn info_is(r: Option<HoverInfo>, o: Outcome, line: u32) -> bool {
    match o {
        Outcome::Hit(h) => r matches Some(i) && i.markdown@ == h.markdown && i.line == line && i.start == h.start as u32
            && i.end == h.end as u32,
        _ => r is None,
    }
}

/// The lines of `text` (`str::lines`).
fn text_lines(text: &str) -> (r: Vec<String>)
    ensures
        lines_view(r@) == std_lines(text@),
{
    let c = str_chars(text);
    let ranges = std_line_ranges(c.as_slice());
    let mut out: Vec<String> = Vec::new();
    let mut i: usize = 0;
    while i < ranges.len()
        invariant
            i <= ranges@.len() == std_lines(c@).len(),
            c@ == text@,
            out@.len() == i,
            forall|k: int| 0 <= k < ranges@.len() ==> (#[trigger] ranges@[k]).0 <= ranges@[k].1 <= c@.len()
                && c@.subrange(ranges@[k].0 as int, ranges@[k].1 as int) == std_lines(c@)[k],
            forall|k: int| 0 <= k < i ==> (#[trigger] out@[k])@ == std_lines(c@)[k],
        decreases ranges@.len() - i,
    {
        let (a, b) = ranges[i];
        let piece = chars_between(c.as_slice(), a, b);
        out.push(string_of_chars(piece.as_slice()));
        i += 1;
    }
    assert(lines_view(out@) =~= std_lines(text@));
    out
}

fn info(markdown: String, line: u32, start: usize, end: usize) -> (r: HoverInfo)
    ensures
        r.markdown == markdown,
        r.line == line,
        r.start == start as u32,
        r.end == end as u32,
{
    HoverInfo { markdown, line, start: start as u32, end: end as u32 }
}

/// Resolve a hover for `text` at 0-based `line` and byte `col`.
pub fn hover_at(text: &str, line: u32, col: u32) -> (r: Option<HoverInfo>)
    requires
        !(hover_text(std_lines(text@), line as int, col as int) is Fails),
    ensures
        info_is(r, hover_text(std_lines(text@), line as int, col as int), line),
{
    let lines = text_lines(text);
    let ghost ls = lines_view(lines@);
    let li = line as usize;
    let c = col as usize;
    if li >= lines.len() {
        return None;
    }
    let lc = lines[li].as_str();
    assert(lc@ == ls[li as int]);
    if is_in_comment(lc, c) {
        return None;
    }
    match two_op_hover(&lines, li, c) {
        Some((m, s, e)) => {
            return Some(info(m, line, s, e));
        },
        None => {},
    }
    match fm_hover(&lines, li, c) {
        Some((m, s, e)) => {
            return Some(info(m, line, s, e));
        },
        None => {},
    }
    match psg_hover(&lines, li, c) {
        Some((m, s, e)) => {
            return Some(info(m, line, s, e));
        },
        None => {},
    }
    match hover_token(lc, c) {
        Some((t, s, e)) => {
            if is_track_token(s, t) {
                match docs::track_doc(t) {
                    Some(d) => {
                        return Some(info(format_hover(docs::track_help_label(), d), line, s, e));
                    },
                    None => {},
                }
            }
        },
        None => {},
    }
    match hover_hit_line(lc, c) {
        Some(h) => Some(info(h.markdown, line, h.start, h.end)),
        None => None,
    }
}

// ---------------------------------------------------------------------------
// Inputs the lookup cannot serve
// ---------------------------------------------------------------------------

/// See [`at_meta_in`]: whether the lookup hits a multi-byte character.
fn at_meta_fails(t: &[u8], offset: usize) -> (r: bool)
    ensures
        r == (at_meta_in(t@, offset as int) is Fails),
{
    let ghost tb = t@;
    if offset >= t.len() {
        return false;
    }
    if offset + 1 < t.len() && 0x80u8 <= t[offset + 1] && t[offset + 1] <= 0xBFu8 {
        return false;
    }
    let mut k = offset + 1;
    while k > 0 && t[k - 1] != 0x40u8
        invariant
            tb == t@,
            k <= offset + 1 <= t@.len(),
            last_at(tb, offset + 1) == last_at(tb, k as int),
        decreases k,
    {
        k -= 1;
    }
    if k == 0 {
        return false;
    }
    let at_pos = k - 1;
    t.len() - at_pos > 1 && t[at_pos + 1] >= 0x80u8
}

/// Whether the one-line lookup at byte `col` cannot be served.
fn line_fails(line: &str, col: usize) -> (r: bool)
    ensures
        r == (hover_line(line.spec_bytes(), col as int) is Fails),
{
    let ghost b = line.spec_bytes();
    if line.as_bytes().len() == 0 {
        return false;
    }
    if platform_quote_at(line, col).is_some() || at_meta_token_at(line, col).is_some() || pcm_path_at(line, col).is_some()
        || symbol_at(line, col).is_some() {
        return false;
    }
    let (t, s, e) = match hover_token(line, col) {
        None => {
            return false;
        },
        Some(x) => x,
    };
    proof {
        lemma_runs(b, col as int);
    }
    if is_track_token(s, t) && docs::track_doc(t).is_some() {
        return false;
    }
    match meta_keyword_bounds(line) {
        Some((_ms, me, _kw)) => {
            if col >= me && s >= me {
                return false;
            }
        },
        None => {},
    }
    let tb = t.as_bytes();
    if tb[0] == 0x23u8 || !has_at_byte(tb) {
        return false;
    }
    let offset = if col - s < e - s - 1 { col - s } else { e - s - 1 };
    at_meta_fails(tb, offset)
}

/// Whether [`hover_at`] cannot serve `(line, col)` of `text`: an `@`
/// inside a token is followed by a multi-byte character where the
/// lookup reads one byte.
pub fn hover_fails(text: &str, line: u32, col: u32) -> (r: bool)
    ensures
        r == (hover_text(std_lines(text@), line as int, col as int) is Fails),
{
    let lines = text_lines(text);
    let ghost ls = lines_view(lines@);
    let li = line as usize;
    let c = col as usize;
    if li >= lines.len() {
        return false;
    }
    let lc = lines[li].as_str();
    assert(lc@ == ls[li as int]);
    if is_in_comment(lc, c) {
        return false;
    }
    if two_op_hover(&lines, li, c).is_some() || fm_hover(&lines, li, c).is_some() || psg_hover(&lines, li, c).is_some() {
        return false;
    }
    match hover_token(lc, c) {
        Some((t, s, _e)) => {
            if is_track_token(s, t) && docs::track_doc(t).is_some() {
                return false;
            }
        },
        None => {},
    }
    line_fails(lc, c)
}

} // verus!
