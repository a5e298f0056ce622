//! Instrument block finder.
//!
//! Locates `@N fm` or `@N psg` blocks around a cursor line.
//!
//! Block layout the finder recognises:
//!
//! ```text
//! @5 fm                ; single-line header
//! 1 1 1 1
//!  ...
//! ```
//!
//! ```text
//! @5                   ; multi-line header: `@N` alone, then `fm`/`psg`
//! fm                   ;   on the next non-blank, non-comment line
//! 1 1 1 1              ;   within three lines.
//! ```
//!
//! A block ends on the line before any of: an `@`/`#` header, a leading
//! track selector, or two consecutive blank lines.

use vstd::prelude::*;
use crate::strings::{
    trim_chars, trim_start_chars, is_alnum_char, ascii_lower, to_ascii_lower, char_digit_run_end,
    scan_digit_chars, parse_u32_chars, parse_u32_slice, skip_ws_forward, str_chars, trimmed_chars,
};
use vstd::utf8::encode_utf8;
use crate::track_selector::{LineReader, leading_selector, parse_leading_track_selector};

verus! {

/// One instrument-block region.
#[derive(Debug, Clone, Copy, PartialEq, Eq)]
pub struct InstrumentBlock {
    /// 1-based line where the `@N` header lives.
    pub start_line: u32,
    /// 1-based line of the last content line in the block.
    pub end_line: u32,
    /// The instrument number parsed from the `@N` header.
    pub instrument_number: u32,
}

/// Which instrument category to look for.
#[derive(Debug, Clone, Copy, PartialEq, Eq)]
pub enum InstrumentKind {
    Fm,
    Psg,
    Pcm,
}

/// The lowercase keyword that names `kind` in a header.
pub open spec fn kind_keyword(kind: InstrumentKind) -> Seq<char> {
    match kind {
        InstrumentKind::Fm => seq!['f', 'm'],
        InstrumentKind::Psg => seq!['p', 's', 'g'],
        InstrumentKind::Pcm => seq!['p', 'c', 'm'],
    }
}

/// `t` starts with the keyword of `kind` in any ASCII case, and the
/// keyword ends at a word boundary (no ASCII letter, digit or `_` after it).
pub open spec fn keyword_at(t: Seq<char>, kind: InstrumentKind) -> bool {
    let k = kind_keyword(kind);
    &&& t.len() >= k.len()
    &&& forall|i: int| 0 <= i < k.len() ==> ascii_lower(#[trigger] t[i]) == k[i]
    &&& !(t.len() > k.len() && (t[k.len() as int] == '_' || is_alnum_char(t[k.len() as int])))
}

/// `t` starts with `@` and one or more digits whose value fits in a
/// `u32`: that value, and the index just past the digits.
pub open spec fn at_number(t: Seq<char>) -> Option<(u32, int)> {
    if t.len() == 0 || t[0] != '@' {
        None
    } else {
        let e = char_digit_run_end(t, 1);
        if e == 1 {
            None
        } else {
            match parse_u32_chars(t.subrange(1, e)) {
                Some(n) => Some((n, e)),
                None => None,
            }
        }
    }
}

/// The instrument number when `t` is an `@N <kind>` header: `@`, digits,
/// whitespace, then the keyword of `kind` at a word boundary.
pub open spec fn header_number(t: Seq<char>, kind: InstrumentKind) -> Option<u32> {
    match at_number(t) {
        None => None,
        Some((n, e)) => {
            let after = t.subrange(e, t.len() as int);
            let rest = trim_start_chars(after);
            if rest.len() != after.len() && keyword_at(rest, kind) {
                Some(n)
            } else {
                None
            }
        },
    }
}

/// The instrument number when `t` is `@N` alone, optionally followed by
/// a `;` comment.
pub open spec fn bare_number(t: Seq<char>) -> Option<u32> {
    match at_number(t) {
        None => None,
        Some((n, e)) => {
            let rest = trim_start_chars(t.subrange(e, t.len() as int));
            if rest.len() == 0 || rest[0] == ';' {
                Some(n)
            } else {
                None
            }
        },
    }
}

proof fn lemma_header_starts_with_at(t: Seq<char>, kind: InstrumentKind)
    requires
        header_number(t, kind) is Some,
    ensures
        t.len() > 0 && t[0] == '@',
{
}

/// Blank or `;`-comment line (after trimming).
pub open spec fn is_blank_or_comment(t: Seq<char>) -> bool {
    t.len() == 0 || t[0] == ';'
}

/// A document as the block finder reads it: line `n` (1-based) and the
/// line count.
pub struct LineDoc {
    pub line: spec_fn(u32) -> Seq<char>,
    pub count: u32,
}

/// The document a [`LineReader`] presents.
pub open spec fn doc_of<R: LineReader>(m: &R) -> LineDoc {
    LineDoc { line: |n: u32| m.spec_line(n), count: m.spec_line_count() }
}

/// The trimmed characters of line `n`.
pub open spec fn trimmed_line(m: LineDoc, n: u32) -> Seq<char> {
    trim_chars((m.line)(n))
}

/// Ends every scan: an `@`/`#` header or a leading track selector.
pub open spec fn is_hard_stop(m: LineDoc, n: u32) -> bool {
    let t = trimmed_line(m, n);
    (t.len() > 0 && (t[0] == '@' || t[0] == '#')) || leading_selector(encode_utf8((m.line)(n))) is Some
}

/// First line in `j..=end` that is neither blank nor a comment.
pub open spec fn first_content_line(m: LineDoc, j: int, end: int) -> Option<int>
    decreases end + 1 - j,
{
    if j > end {
        None
    } else if is_blank_or_comment(trimmed_line(m, j as u32)) {
        first_content_line(m, j + 1, end)
    } else {
        Some(j)
    }
}

/// What the upward scan does at one line.
pub enum UpStep {
    /// The line heads a block of the target kind with this number.
    Found(u32),
    /// The scan gives up.
    Stop,
    /// The scan moves on to the line above.
    Continue,
}

/// The upward scan's decision at line `i`.
pub open spec fn up_step(m: LineDoc, i: u32, target: InstrumentKind) -> UpStep {
    let t = trimmed_line(m, i);
    match header_number(t, target) {
        Some(n) => UpStep::Found(n),
        None => match bare_number(t) {
            Some(n) => {
                let probe_end = if i + 3 < m.count { i + 3 } else { m.count as int };
                match first_content_line(m, i + 1, probe_end) {
                    Some(j) => if keyword_at(trimmed_line(m, j as u32), target) {
                        UpStep::Found(n)
                    } else {
                        UpStep::Stop
                    },
                    None => UpStep::Stop,
                }
            },
            None => if is_hard_stop(m, i) {
                UpStep::Stop
            } else {
                UpStep::Continue
            },
        },
    }
}

/// The header line and instrument number found scanning up from `i`.
pub open spec fn up_scan(m: LineDoc, i: u32, target: InstrumentKind) -> Option<(u32, u32)>
    decreases i,
{
    match up_step(m, i, target) {
        UpStep::Found(n) => Some((i, n)),
        UpStep::Stop => None,
        UpStep::Continue => if i <= 1 {
            None
        } else {
            up_scan(m, (i - 1) as u32, target)
        },
    }
}

/// The last line of the block scanning down from `i`: `blanks` consecutive
/// blank lines seen so far, `end` the last line kept.
pub open spec fn down_end(m: LineDoc, i: int, blanks: int, end: int) -> int
    decreases m.count + 1 - i,
{
    if i > m.count || is_hard_stop(m, i as u32) {
        end
    } else {
        let t = trimmed_line(m, i as u32);
        if t.len() == 0 {
            if blanks + 1 >= 2 {
                end
            } else {
                down_end(m, i + 1, blanks + 1, i)
            }
        } else if t[0] == ';' {
            down_end(m, i + 1, blanks, i)
        } else {
            down_end(m, i + 1, 0, i)
        }
    }
}

/// `e` with trailing blank and comment lines dropped, never below `h`.
pub open spec fn trim_back(m: LineDoc, e: int, h: int) -> int
    decreases e - h,
{
    if e <= h || !is_blank_or_comment(trimmed_line(m, e as u32)) {
        e
    } else {
        trim_back(m, e - 1, h)
    }
}

/// The block of kind `target` that contains line `line_number`.
pub open spec fn block_at(m: LineDoc, line_number: u32, target: InstrumentKind) -> Option<InstrumentBlock> {
    match up_scan(m, line_number, target) {
        None => None,
        Some((h, n)) => {
            let e = trim_back(m, down_end(m, h + 1, 0, h as int), h as int);
            if h == 0 || line_number < h || line_number > e {
                None
            } else {
                Some(InstrumentBlock { start_line: h, end_line: e as u32, instrument_number: n })
            }
        },
    }
}

proof fn lemma_down_end_bounds(m: LineDoc, i: int, blanks: int, end: int)
    requires
        end <= i,
    ensures
        end <= down_end(m, i, blanks, end),
        down_end(m, i, blanks, end) <= if end > m.count { end } else { m.count as int },
    decreases m.count + 1 - i,
{
    if i > m.count || is_hard_stop(m, i as u32) {
    } else {
        let t = trimmed_line(m, i as u32);
        if t.len() == 0 {
            if blanks + 1 < 2 {
                lemma_down_end_bounds(m, i + 1, blanks + 1, i);
            }
        } else if t[0] == ';' {
            lemma_down_end_bounds(m, i + 1, blanks, i);
        } else {
            lemma_down_end_bounds(m, i + 1, 0, i);
        }
    }
}

proof fn lemma_trim_back_bounds(m: LineDoc, e: int, h: int)
    requires
        h <= e,
    ensures
        h <= trim_back(m, e, h) <= e,
    decreases e - h,
{
    if e > h && is_blank_or_comment(trimmed_line(m, e as u32)) {
        lemma_trim_back_bounds(m, e - 1, h);
    }
}

proof fn lemma_up_scan_bounds(m: LineDoc, i: u32, target: InstrumentKind)
    ensures
        up_scan(m, i, target) matches Some((h, n)) ==> h <= i,
    decreases i,
{
    if up_step(m, i, target) is Continue && i > 1 {
        lemma_up_scan_bounds(m, (i - 1) as u32, target);
    }
}

/// A block found at `line_number` starts at a line `>= 1` and contains
/// `line_number`.
pub proof fn lemma_block_bounds(m: LineDoc, line_number: u32, target: InstrumentKind)
    ensures
        block_at(m, line_number, target) matches Some(b) ==> 1 <= b.start_line <= line_number <= b.end_line,
{
    lemma_up_scan_bounds(m, line_number, target);
    match up_scan(m, line_number, target) {
        Some((h, n)) => {
            lemma_down_end_bounds(m, h + 1, 0, h as int);
            let e0 = down_end(m, h + 1, 0, h as int);
            lemma_trim_back_bounds(m, e0, h as int);
        },
        None => {},
    }
}

/// Line `j` is no `@`/`#` header or track selector line.
pub open spec fn clean_line(m: LineDoc, j: int) -> bool {
    !is_hard_stop(m, j as u32)
}

proof fn lemma_down_end_clean(m: LineDoc, i: int, blanks: int, end: int)
    requires
        end < i,
    ensures
        forall|j: int| i <= j <= down_end(m, i, blanks, end) ==> #[trigger] clean_line(m, j),
    decreases m.count + 1 - i,
{
    if i > m.count || is_hard_stop(m, i as u32) {
    } else {
        let t = trimmed_line(m, i as u32);
        if t.len() == 0 {
            if blanks + 1 < 2 {
                lemma_down_end_clean(m, i + 1, blanks + 1, i);
            }
        } else if t[0] == ';' {
            lemma_down_end_clean(m, i + 1, blanks, i);
        } else {
            lemma_down_end_clean(m, i + 1, 0, i);
        }
    }
}

proof fn lemma_up_scan_found(m: LineDoc, i: u32, target: InstrumentKind)
    ensures
        up_scan(m, i, target) matches Some((h, n)) ==> up_step(m, h, target) == UpStep::Found(n),
    decreases i,
{
    if up_step(m, i, target) is Continue && i > 1 {
        lemma_up_scan_found(m, (i - 1) as u32, target);
    }
}

proof fn lemma_up_scan_inside(m: LineDoc, h: u32, l: u32, target: InstrumentKind)
    requires
        1 <= h <= l,
        up_step(m, h, target) is Found,
        forall|j: int| h < j <= l ==> #[trigger] clean_line(m, j),
    ensures
        up_scan(m, l, target) == up_scan(m, h, target),
    decreases l,
{
    if l > h {
        let t = trimmed_line(m, l);
        assert(clean_line(m, l as int));
        if header_number(t, target) is Some {
            lemma_header_starts_with_at(t, target);
        }
        assert(bare_number(t) is None);
        assert(up_step(m, l, target) is Continue);
        lemma_up_scan_inside(m, h, (l - 1) as u32, target);
    }
}

/// Every line of a found block resolves to that same block.
pub proof fn law_block_lines_agree(m: LineDoc, line_number: u32, target: InstrumentKind, l: u32)
    requires
        block_at(m, line_number, target) matches Some(b) && b.start_line <= l <= b.end_line,
    ensures
        block_at(m, l, target) == block_at(m, line_number, target),
{
    lemma_up_scan_bounds(m, line_number, target);
    lemma_up_scan_found(m, line_number, target);
    let (h, n) = up_scan(m, line_number, target).unwrap();
    let e0 = down_end(m, h + 1, 0, h as int);
    lemma_down_end_clean(m, h + 1, 0, h as int);
    lemma_down_end_bounds(m, h + 1, 0, h as int);
    lemma_trim_back_bounds(m, e0, h as int);
    if l > h {
        lemma_up_scan_inside(m, h, l, target);
    } else {
        assert(up_scan(m, h, target) == Some((h, n)));
    }
}

/// The upward scan from line `i` keeps its line arithmetic in `u32`: a
/// one-line header it finds lies below `u32::MAX` (the block's next line
/// is counted from it), and a bare `@N` line it meets lies at most three
/// lines below `u32::MAX` (the keyword is probed up to three lines on).
pub open spec fn up_scan_safe(m: LineDoc, i: u32, target: InstrumentKind) -> bool
    decreases i,
{
    let t = trimmed_line(m, i);
    if header_number(t, target) is Some {
        i < u32::MAX
    } else if bare_number(t) is Some {
        i <= u32::MAX - 3
    } else if is_hard_stop(m, i) || i <= 1 {
        true
    } else {
        up_scan_safe(m, (i - 1) as u32, target)
    }
}

/// Any scan starting three lines below `u32::MAX` is safe.
pub proof fn lemma_up_scan_safe_below(m: LineDoc, i: u32, target: InstrumentKind)
    requires
        i <= u32::MAX - 3,
    ensures
        up_scan_safe(m, i, target),
    decreases i,
{
    if i > 1 {
        lemma_up_scan_safe_below(m, (i - 1) as u32, target);
    }
}

/// The scan of `find_block_at` from line `line_number` is well defined:
/// it never walks above line 1.
pub open spec fn scan_start_ok(m: LineDoc, line_number: u32, target: InstrumentKind) -> bool {
    line_number >= 1 || !(up_step(m, 0, target) is Continue)
}

fn keyword_chars(kind: InstrumentKind) -> (r: Vec<char>)
    ensures
        r@ == kind_keyword(kind),
{
    match kind {
        InstrumentKind::Fm => vec!['f', 'm'],
        InstrumentKind::Psg => vec!['p', 's', 'g'],
        InstrumentKind::Pcm => vec!['p', 'c', 'm'],
    }
}

/// Whether `t[from..]` starts with the keyword of `kind` at a word boundary.
fn keyword_matches(t: &[char], from: usize, kind: InstrumentKind) -> (r: bool)
    requires
        from <= t@.len(),
    ensures
        r == keyword_at(t@.subrange(from as int, t@.len() as int), kind),
{
    let ghost rest = t@.subrange(from as int, t@.len() as int);
    let kw = keyword_chars(kind);
    if t.len() - from < kw.len() {
        return false;
    }
    let tlen = t.len();
    let mut i: usize = 0;
    while i < kw.len()
        invariant
            tlen == t@.len(),
            from <= t@.len(),
            i <= kw@.len(),
            kw@ == kind_keyword(kind),
            from + kw@.len() <= t@.len(),
            rest == t@.subrange(from as int, t@.len() as int),
            forall|k: int| 0 <= k < i ==> ascii_lower(#[trigger] rest[k]) == kw@[k],
        decreases kw@.len() - i,
    {
        if to_ascii_lower(t[from + i]) != kw[i] {
            assert(rest[i as int] == t@[from + i]);
            return false;
        }
        i += 1;
    }
    let n = from + kw.len();
    if n < t.len() {
        let c = t[n];
        assert(rest[kw@.len() as int] == c);
        if c == '_' || ('0' <= c && c <= '9') || ('a' <= c && c <= 'z') || ('A' <= c && c <= 'Z') {
            return false;
        }
    }
    true
}

/// `@` and digits at the start of `t`: the number and the index past the
/// digits.
pub(crate) fn parse_at_number(t: &[char]) -> (r: Option<(u32, usize)>)
    ensures
        match at_number(t@) {
            None => r is None,
            Some((n, e)) => r matches Some((rn, re)) && rn == n && re == e,
        },
        r matches Some((n, e)) ==> 1 < e <= t@.len(),
{
    if t.len() == 0 || t[0] != '@' {
        return None;
    }
    let e = scan_digit_chars(t, 1);
    if e == 1 {
        return None;
    }
    match parse_u32_slice(t, 1, e) {
        Some(n) => Some((n, e)),
        None => None,
    }
}

fn match_header_chars(t: &[char], kind: InstrumentKind) -> (r: Option<u32>)
    ensures
        r == header_number(t@, kind),
{
    let (n, e) = match parse_at_number(t) {
        Some(p) => p,
        None => {
            return None;
        },
    };
    let s = skip_ws_forward(t, e, t.len());
    proof {
        let after = t@.subrange(e as int, t@.len() as int);
        assert(trim_start_chars(after) == t@.subrange(s as int, t@.len() as int));
        assert(trim_start_chars(after).len() == t@.len() - s);
    }
    if s == e {
        return None;
    }
    if keyword_matches(t, s, kind) {
        Some(n)
    } else {
        None
    }
}

fn match_bare_chars(t: &[char]) -> (r: Option<u32>)
    ensures
        r == bare_number(t@),
{
    let (n, e) = match parse_at_number(t) {
        Some(p) => p,
        None => {
            return None;
        },
    };
    let s = skip_ws_forward(t, e, t.len());
    proof {
        let rest = t@.subrange(s as int, t@.len() as int);
        if s < t.len() {
            assert(rest[0] == t@[s as int]);
        }
    }
    if s == t.len() || t[s] == ';' {
        Some(n)
    } else {
        None
    }
}

/// Single-line header match: `Some(instrument_number)` when the
/// (already trimmed) `line_trimmed` is an `@N <kind>` header: `@`,
/// digits, whitespace, then the kind's keyword in any case, ending at a
/// word boundary.
pub fn match_header(line_trimmed: &str, kind: InstrumentKind) -> (r: Option<u32>)
    ensures
        r == header_number(line_trimmed@, kind),
{
    let t = str_chars(line_trimmed);
    match_header_chars(t.as_slice(), kind)
}

/// `Some(n)` when the (already trimmed) line is `@N` alone, optionally
/// followed by a `;` comment, as in a multi-line header layout.
pub fn match_bare_at_n(line_trimmed: &str) -> (r: Option<u32>)
    ensures
        r == bare_number(line_trimmed@),
{
    let t = str_chars(line_trimmed);
    match_bare_chars(t.as_slice())
}

/// Whether the trimmed line is a header of any of the kinds in
/// `stop_kinds`.
fn matches_any_stop(t: &[char], stop_kinds: &[InstrumentKind]) -> (r: bool)
    ensures
        r == exists|k: int| 0 <= k < stop_kinds@.len() && (#[trigger] header_number(t@, stop_kinds@[k])) is Some,
{
    let mut i: usize = 0;
    while i < stop_kinds.len()
        invariant
            i <= stop_kinds@.len(),
            forall|k: int| 0 <= k < i ==> (#[trigger] header_number(t@, stop_kinds@[k])) is None,
        decreases stop_kinds@.len() - i,
    {
        if match_header_chars(t, stop_kinds[i]).is_some() {
            return true;
        }
        i += 1;
    }
    false
}

/// Whether line `n`, with text `raw` and trimmed characters `t`, is an
/// `@`/`#` header or starts with a leading track selector.
fn hard_stop_line<R: LineReader>(model: &R, n: u32, raw: &str, t: &[char]) -> (r: bool)
    requires
        raw@ == model.spec_line(n),
        t@ == trimmed_line(doc_of(model), n),
    ensures
        r == is_hard_stop(doc_of(model), n),
{
    if t.len() > 0 && (t[0] == '@' || t[0] == '#') {
        return true;
    }
    parse_leading_track_selector(raw).is_some()
}

/// Whether the first non-blank, non-comment line in
/// `i + 1 ..= min(i + 3, total)` carries the keyword of `target`.
fn probe_keyword<R: LineReader>(model: &R, i: u32, total: u32, target: InstrumentKind) -> (r: bool)
    requires
        i <= u32::MAX - 3,
        total == model.spec_line_count(),
    ensures
        r == (match first_content_line(doc_of(model), i + 1, if i + 3 < total { i + 3 } else { total as int }) {
            Some(j) => keyword_at(trimmed_line(doc_of(model), j as u32), target),
            None => false,
        }),
{
    let probe_end: u32 = if i + 3 < total { i + 3 } else { total };
    let ghost pe = probe_end as int;
    let mut j: u64 = i as u64 + 1;
    while j <= probe_end as u64
        invariant
            i + 1 <= j,
            j <= pe + 1 || j == i + 1,
            pe == probe_end,
            pe == (if i + 3 < total { i + 3 } else { total as int }),
            probe_end <= u32::MAX,
            first_content_line(doc_of(model), i + 1, pe) == first_content_line(doc_of(model), j as int, pe),
        decreases pe + 1 - j,
    {
        let tv = trimmed_chars(model.get_line_content(j as u32));
        if tv.len() == 0 || tv[0] == ';' {
            j += 1;
        } else {
            assert(tv@.subrange(0, tv@.len() as int) =~= tv@);
            assert(tv@ == trimmed_line(doc_of(model), j as u32));
            assert(first_content_line(doc_of(model), j as int, pe) == Some(j as int));
            let r = keyword_matches(tv.as_slice(), 0, target);
            return r;
        }
    }
    false
}

/// Find an instrument block of kind `target` containing `line_number`
/// (1-based).
///
/// Scans upward to the header line, then downward to the block's end.
/// Returns `None` when the cursor is not inside a matching block, or when
/// a header of another kind (such as one of `stop_kinds`), an `@`/`#`
/// line or a track selector comes first.
pub fn find_block_at<R: LineReader>(
    model: &R,
    line_number: u32,
    target: InstrumentKind,
    stop_kinds: &[InstrumentKind],
) -> (r: Option<InstrumentBlock>)
    requires
        up_scan_safe(doc_of(model), line_number, target),
        scan_start_ok(doc_of(model), line_number, target),
    ensures
        r == block_at(doc_of(model), line_number, target),
{
    let total = model.get_line_count();

    // Upward scan: locate the header line.
    let mut i = line_number;
    let mut header_line: u32 = 0;
    let mut instrument_number: u32 = 0;
    let mut found = false;
    while !found
        invariant
            i <= line_number,
            total == model.spec_line_count(),
            !found ==> up_scan_safe(doc_of(model), i, target),
            found ==> header_line < u32::MAX,
            i >= 1 || !(up_step(doc_of(model), i, target) is Continue),
            !found ==> up_scan(doc_of(model), line_number, target) == up_scan(doc_of(model), i, target),
            found ==> up_scan(doc_of(model), line_number, target) == Some((header_line, instrument_number)),
        decreases i as int * 2 + (if found { 0int } else { 1int }),
    {
        let raw = model.get_line_content(i);
        let tv = trimmed_chars(raw);
        let t = tv.as_slice();
        if let Some(n) = match_header_chars(t, target) {
            header_line = i;
            instrument_number = n;
            found = true;
        } else if let Some(n) = match_bare_chars(t) {
            if probe_keyword(model, i, total, target) {
                header_line = i;
                instrument_number = n;
                found = true;
            } else {
                return None;
            }
        } else {
            let hard = hard_stop_line(model, i, raw, t);
            let other = matches_any_stop(t, stop_kinds);
            proof {
                if other {
                    let k = choose|k: int| 0 <= k < stop_kinds@.len() && (#[trigger] header_number(t@, stop_kinds@[k])) is Some;
                    lemma_header_starts_with_at(t@, stop_kinds@[k]);
                }
            }
            if hard || other {
                return None;
            }
            if i <= 1 {
                return None;
            }
            i -= 1;
        }
    }
    if header_line == 0 {
        return None;
    }

    // Downward scan: find the block's end.
    let ghost h = header_line as int;
    let mut end_line: u32 = header_line;
    let mut blanks: u32 = 0;
    let mut k: u64 = header_line as u64 + 1;
    let mut stop = false;
    while !stop && k <= total as u64
        invariant
            h == header_line,
            total == model.spec_line_count(),
            h + 1 <= k,
            k <= total + 1 || k == h + 1,
            blanks <= 2,
            !stop ==> blanks <= 1,
            stop ==> down_end(doc_of(model), h + 1, 0, h) == end_line as int,
            !stop ==> down_end(doc_of(model), h + 1, 0, h) == down_end(doc_of(model), k as int, blanks as int, end_line as int),
        decreases (total + 1 - k) * 2 + (if stop { 0int } else { 1int }),
    {
        let ln = k as u32;
        let raw = model.get_line_content(ln);
        let tv = trimmed_chars(raw);
        if hard_stop_line(model, ln, raw, tv.as_slice()) {
            stop = true;
        } else if tv.len() == 0 {
            blanks += 1;
            if blanks >= 2 {
                stop = true;
            } else {
                end_line = ln;
                k += 1;
            }
        } else if tv[0] == ';' {
            end_line = ln;
            k += 1;
        } else {
            blanks = 0;
            end_line = ln;
            k += 1;
        }
    }
    let ghost e0 = down_end(doc_of(model), h + 1, 0, h);

    // Drop trailing blank / comment-only lines.
    let mut kept = false;
    while !kept && end_line > header_line
        invariant
            h == header_line,
            !kept ==> trim_back(doc_of(model), e0, h) == trim_back(doc_of(model), end_line as int, h),
            kept ==> trim_back(doc_of(model), e0, h) == end_line as int,
        decreases end_line as int * 2 + (if kept { 0int } else { 1int }),
    {
        let tv = trimmed_chars(model.get_line_content(end_line));
        if tv.len() > 0 && tv[0] != ';' {
            kept = true;
        } else {
            end_line -= 1;
        }
    }

    if line_number < header_line || line_number > end_line {
        return None;
    }
    Some(InstrumentBlock { start_line: header_line, end_line, instrument_number })
}

/// Find an FM instrument block (`@N fm`) containing `line_number`.
pub fn find_fm_block_at<R: LineReader>(model: &R, line_number: u32) -> (r: Option<InstrumentBlock>)
    requires
        up_scan_safe(doc_of(model), line_number, InstrumentKind::Fm),
        scan_start_ok(doc_of(model), line_number, InstrumentKind::Fm),
    ensures
        r == block_at(doc_of(model), line_number, InstrumentKind::Fm),
{
    let stops = [InstrumentKind::Psg];
    find_block_at(model, line_number, InstrumentKind::Fm, &stops)
}

/// Find a PSG instrument block (`@N psg`) containing `line_number`.
pub fn find_psg_block_at<R: LineReader>(model: &R, line_number: u32) -> (r: Option<InstrumentBlock>)
    requires
        up_scan_safe(doc_of(model), line_number, InstrumentKind::Psg),
        scan_start_ok(doc_of(model), line_number, InstrumentKind::Psg),
    ensures
        r == block_at(doc_of(model), line_number, InstrumentKind::Psg),
{
    let stops = [InstrumentKind::Fm];
    find_block_at(model, line_number, InstrumentKind::Psg, &stops)
}

/// Decides [`up_scan_safe`]: whether [`find_block_at`] from
/// `line_number` keeps its line arithmetic in `u32`.
pub fn block_scan_safe<R: LineReader>(model: &R, line_number: u32, target: InstrumentKind) -> (r: bool)
    ensures
        r == up_scan_safe(doc_of(model), line_number, target),
{
    let mut i = line_number;
    loop
        invariant
            i <= line_number,
            up_scan_safe(doc_of(model), line_number, target) == up_scan_safe(doc_of(model), i, target),
        decreases i,
    {
        let raw = model.get_line_content(i);
        let tv = trimmed_chars(raw);
        let t = tv.as_slice();
        if match_header_chars(t, target).is_some() {
            return i < u32::MAX;
        }
        if match_bare_chars(t).is_some() {
            return i <= u32::MAX - 3;
        }
        if hard_stop_line(model, i, raw, t) || i <= 1 {
            return true;
        }
        i -= 1;
    }
}

} // verus!
