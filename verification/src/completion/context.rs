//! What the text before the cursor asks to complete.
//!
//! The predicates read the line as characters: `p` is the part of the
//! line before the cursor. Positions in the result are character indices;
//! the providers turn them into UTF-16 offsets.

use vstd::prelude::*;
use crate::strings::{is_unicode_ws, trim_start_chars, char_digit_run_end, whitespace_char, scan_digit_chars};
use crate::text_scan::{quote_aware_tokens, at_number_chars};
use crate::hover::{ws_words, split_ws_words, is_pcm_word, string_of_chars};
use crate::hover_params::trim_start_vec;
use crate::strings::{chars_between, str_chars};
use super::{units_before, bytes_before, utf16_len, utf8_len, char_utf8_len, char_utf16_len, lemma_prefix_monotone};

verus! {

// ---------------------------------------------------------------------------
// Positions
// ---------------------------------------------------------------------------

/// Character index for UTF-16 offset `target`, scanning from character
/// `k`: the character boundary that the byte conversion also picks.
pub open spec fn utf16_to_char(s: Seq<char>, target: int, k: int) -> int
    decreases s.len() - k,
{
    if k < 0 || k >= s.len() {
        s.len() as int
    } else if target < units_before(s, k + 1) {
        k
    } else if target == units_before(s, k + 1) {
        k + 1
    } else {
        utf16_to_char(s, target, k + 1)
    }
}

/// See [`utf16_to_char`].
pub fn char_cursor(s: &[char], target: u32) -> (k: usize)
    ensures
        k == utf16_to_char(s@, target as int, 0),
        k <= s@.len(),
{
    let mut i: usize = 0;
    let mut units: u64 = 0;
    while i < s.len()
        invariant
            i <= s@.len(),
            units == units_before(s@, i as int),
            units <= target,
            utf16_to_char(s@, target as int, 0) == utf16_to_char(s@, target as int, i as int),
        decreases s@.len() - i,
    {
        let next = units + char_utf16_len(s[i]) as u64;
        if (target as u64) < next {
            return i;
        }
        if (target as u64) == next {
            return i + 1;
        }
        units = next;
        i += 1;
    }
    s.len()
}

/// UTF-16 units before character `j`.
pub fn units_to(s: &[char], j: usize) -> (u: u32)
    requires
        j <= s@.len(),
        units_before(s@, s@.len() as int) <= u32::MAX,
    ensures
        u == units_before(s@, j as int),
{
    let mut i: usize = 0;
    let mut u: u32 = 0;
    while i < j
        invariant
            i <= j <= s@.len(),
            units_before(s@, s@.len() as int) <= u32::MAX,
            u == units_before(s@, i as int),
        decreases j - i,
    {
        proof {
            lemma_prefix_monotone(s@, i + 1, s@.len() as int);
        }
        u = u + char_utf16_len(s[i]) as u32;
        i += 1;
    }
    u
}

/// UTF-8 bytes before character `j`.
pub fn bytes_to(s: &[char], j: usize) -> (b: usize)
    requires
        j <= s@.len(),
        bytes_before(s@, s@.len() as int) <= usize::MAX,
    ensures
        b == bytes_before(s@, j as int),
{
    let mut i: usize = 0;
    let mut b: usize = 0;
    while i < j
        invariant
            i <= j <= s@.len(),
            bytes_before(s@, s@.len() as int) <= usize::MAX,
            b == bytes_before(s@, i as int),
        decreases j - i,
    {
        proof {
            lemma_prefix_monotone(s@, i + 1, s@.len() as int);
        }
        b = b + char_utf8_len(s[i]);
        i += 1;
    }
    b
}

// ---------------------------------------------------------------------------
// Character scans
// ---------------------------------------------------------------------------

/// Index of the last `c` among the first `n` characters of `p`, or `-1`.
pub open spec fn last_of(p: Seq<char>, c: char, n: int) -> int
    decreases n,
{
    if n <= 0 || n > p.len() {
        -1
    } else if p[n - 1] == c {
        n - 1
    } else {
        last_of(p, c, n - 1)
    }
}

/// How many of the first `n` characters of `p` are `c`.
pub open spec fn count_of(p: Seq<char>, c: char, n: int) -> int
    decreases n,
{
    if n <= 0 || n > p.len() {
        0
    } else {
        count_of(p, c, n - 1) + if p[n - 1] == c { 1int } else { 0int }
    }
}

/// Start of the run of non-whitespace characters of `p` that ends at `n`,
/// not going below `lo`.
pub open spec fn nonws_run_start(p: Seq<char>, lo: int, n: int) -> int
    decreases n - lo,
{
    if n <= lo || n > p.len() || is_unicode_ws(p[n - 1]) {
        n
    } else {
        nonws_run_start(p, lo, n - 1)
    }
}

/// Index of the first whitespace character of `p` at or after `i`, or
/// its length.
pub open spec fn next_ws(p: Seq<char>, i: int) -> int
    decreases p.len() - i,
{
    if i < 0 || i >= p.len() || is_unicode_ws(p[i]) {
        i
    } else {
        next_ws(p, i + 1)
    }
}

/// Number of leading whitespace characters of `p`.
pub open spec fn lead_ws(p: Seq<char>) -> int {
    p.len() - trim_start_chars(p).len()
}

/// `p` from `i` starts with `w`.
pub open spec fn chars_at(p: Seq<char>, i: int, w: Seq<char>) -> bool {
    0 <= i && i + w.len() <= p.len() && p.subrange(i, i + w.len()) == w
}

/// The first index at or after `i` where `w` occurs in `p`, or `-1`.
pub open spec fn find_chars(p: Seq<char>, w: Seq<char>, i: int) -> int
    decreases p.len() + 1 - i,
{
    if i < 0 || i + w.len() > p.len() {
        -1
    } else if chars_at(p, i, w) {
        i
    } else {
        find_chars(p, w, i + 1)
    }
}

/// ASCII letter, digit or `_`.
pub open spec fn word_char(c: char) -> bool {
    ('0' <= c <= '9') || ('A' <= c <= 'Z') || ('a' <= c <= 'z') || c == '_'
}

/// Start of the run of word characters of `s` ending at `n`.
pub open spec fn word_char_start(s: Seq<char>, n: int) -> int
    decreases n,
{
    if n <= 0 || n > s.len() || !word_char(s[n - 1]) {
        n
    } else {
        word_char_start(s, n - 1)
    }
}

// ---------------------------------------------------------------------------
// Contexts
// ---------------------------------------------------------------------------

/// The double- and single-quote states after the first `n` characters:
/// a quote of one kind toggles its state outside a run of the other.
pub open spec fn quote_flags(p: Seq<char>, n: int) -> (bool, bool)
    decreases n,
{
    if n <= 0 || n > p.len() {
        (false, false)
    } else {
        let (d, q) = quote_flags(p, n - 1);
        let c = p[n - 1];
        if c == '"' && !q {
            (!d, q)
        } else if c == '\'' && !d {
            (d, !q)
        } else {
            (d, q)
        }
    }
}

/// Inside an open single-quoted platform command.
pub open spec fn platform_context(p: Seq<char>) -> bool {
    quote_flags(p, p.len() as int).1
}

/// Where the platform command being typed starts: after the last
/// whitespace following the last `'`.
pub open spec fn platform_start(p: Seq<char>) -> int {
    nonws_run_start(p, last_of(p, '\'', p.len() as int) + 1, p.len() as int)
}

/// Inside an open double quote on a line with a `pcm` word.
pub open spec fn pcm_path_context(p: Seq<char>) -> bool {
    count_of(p, '"', p.len() as int) % 2 == 1 && ws_words(p).contains(seq!['p', 'c', 'm'])
}

/// The line (after whitespace) opens with `kw`, then whitespace.
pub open spec fn meta_value_context(p: Seq<char>, kw: Seq<char>) -> bool {
    let t = trim_start_chars(p);
    t.len() > kw.len() && t.subrange(0, kw.len() as int) == kw && is_unicode_ws(t[kw.len() as int])
}

/// The meta keywords whose values complete, in lookup order.
pub open spec fn meta_value_keywords() -> Seq<Seq<char>> {
    seq!["#platform"@, "#option"@, "#timesig"@, "#group"@]
}

/// The first meta keyword whose value is being typed: its position in
/// [`meta_value_keywords`].
pub open spec fn meta_value_kind(p: Seq<char>) -> Option<int> {
    if meta_value_context(p, "#platform"@) {
        Some(0)
    } else if meta_value_context(p, "#option"@) {
        Some(1)
    } else if meta_value_context(p, "#timesig"@) {
        Some(2)
    } else if meta_value_context(p, "#group"@) {
        Some(3)
    } else {
        None
    }
}

/// Where a meta value being typed after `kw` starts.
pub open spec fn meta_value_start(p: Seq<char>, kw: Seq<char>) -> int {
    let f = find_chars(p, kw, 0);
    let kw_end = if f >= 0 { f + kw.len() } else { 0 };
    nonws_run_start(p, kw_end, p.len() as int)
}

/// A `#` keyword being typed at the start of the line: the `#` index.
pub open spec fn hash_position(p: Seq<char>) -> Option<int> {
    let h = last_of(p, '#', p.len() as int);
    if h >= 0 && (forall|i: int| 0 <= i < h ==> is_unicode_ws(#[trigger] p[i])) && (forall|i: int|
        h < i < p.len() ==> !is_unicode_ws(#[trigger] p[i])) {
        Some(h)
    } else {
        None
    }
}

/// The trimmed line opens with `c`.
pub open spec fn opens_with(p: Seq<char>, c: char) -> bool {
    let t = trim_start_chars(p);
    t.len() > 0 && t[0] == c
}

/// After `@N pcm "path"` and whitespace: PCM parameters.
pub open spec fn rate_offset_context(p: Seq<char>) -> bool {
    let t = trim_start_chars(p);
    t.len() > 0 && is_unicode_ws(t.last()) && {
        let tk = quote_aware_tokens(t);
        tk.len() >= 3 && at_number_chars(tk[0]) && tk[1] == seq!['p', 'c', 'm'] && tk[2].len() > 0 && tk[2][0]
            == '"'
    }
}

/// For `p` = whitespace, `@`, digits, whitespace, rest: the index where
/// the rest starts.
pub open spec fn at_header_rest(p: Seq<char>) -> Option<int> {
    let l = lead_ws(p);
    if l < p.len() && p[l] == '@' {
        let d = char_digit_run_end(p, l + 1);
        if d > l + 1 && d < p.len() && is_unicode_ws(p[d]) {
            Some(d + lead_ws(p.subrange(d, p.len() as int)))
        } else {
            None
        }
    } else {
        None
    }
}

/// `@N <kw>` then nothing or whitespace: the index after `kw`.
pub open spec fn keyword_after_header(p: Seq<char>, kw: Seq<char>) -> Option<int> {
    match at_header_rest(p) {
        Some(r) => if chars_at(p, r, kw) && (r + kw.len() == p.len() || is_unicode_ws(p[r + kw.len()])) {
            Some(r + kw.len())
        } else {
            None
        },
        None => None,
    }
}

/// The path typed after `@N fm`, up to its last `/`, in the hierarchical
/// picker.
pub open spec fn fm_fragment(p: Seq<char>, fm_end: int) -> Option<Seq<char>> {
    let typed = trim_start_chars(p.subrange(fm_end, p.len() as int));
    let slash = last_of(typed, '/', typed.len() as int);
    if slash >= 0 {
        Some(typed.subrange(0, slash))
    } else {
        None
    }
}

/// `@N ` then a prefix of an instrument type keyword.
pub open spec fn instrument_type_context(p: Seq<char>) -> bool {
    let t = trim_start_chars(p);
    t.len() > 0 && t[0] == '@' && {
        let d = char_digit_run_end(t, 1);
        d > 1 && d < t.len() && t[d] == ' ' && {
            let typed = trim_start_chars(t.subrange(d + 1, t.len() as int));
            chars_at("fm"@, 0, typed) || chars_at("psg"@, 0, typed) || chars_at("pcm"@, 0, typed) || chars_at(
                "2op"@,
                0,
                typed,
            )
        }
    }
}

/// An `@` reference being typed without digits yet: where its name starts.
pub open spec fn at_meta_start(p: Seq<char>) -> Option<int> {
    let t = trim_start_chars(p);
    if t.len() > 0 && t[0] == '@' && (forall|i: int| 0 <= i < t.len() ==> !is_unicode_ws(#[trigger] t[i])) && (
    forall|i: int| 1 <= i < t.len() ==> !('0' <= #[trigger] t[i] <= '9')) {
        Some(last_of(p, '@', p.len() as int) + 1)
    } else {
        None
    }
}

/// Number of trailing `c` characters of `p`.
pub open spec fn trailing(p: Seq<char>, c: char) -> int {
    p.len() - trail_start(p, c, p.len() as int)
}

/// Start of the run of `c` characters of `p` ending at `n`.
pub open spec fn trail_start(p: Seq<char>, c: char, n: int) -> int
    decreases n,
{
    if n <= 0 || n > p.len() || p[n - 1] != c {
        n
    } else {
        trail_start(p, c, n - 1)
    }
}

/// Start of the run of ASCII digits of `p` ending at `n`.
pub open spec fn digit_tail(p: Seq<char>, n: int) -> int
    decreases n,
{
    if n <= 0 || n > p.len() || !('0' <= p[n - 1] <= '9') {
        n
    } else {
        digit_tail(p, n - 1)
    }
}

/// `p` without one trailing `c`.
pub open spec fn strip_last(p: Seq<char>, c: char) -> Seq<char> {
    if p.len() > 0 && p.last() == c { p.drop_last() } else { p }
}

/// A note or rest token: `c`..`h` with an optional accidental, or `r`;
/// then an optional `:`, digits, and at most three dots.
pub open spec fn note_or_rest_token(t: Seq<char>) -> bool {
    let dots = trailing(t, '.');
    dots <= 3 && {
        let b1 = t.subrange(0, t.len() - dots);
        let b2 = b1.subrange(0, digit_tail(b1, b1.len() as int));
        let b3 = strip_last(b2, ':');
        if b3.len() > 0 && b3[0] == 'r' {
            b3.len() == 1
        } else {
            b3.len() > 0 && 'a' <= b3[0] <= 'h' && (b3.len() == 1 || (b3.len() == 2 && (b3[1] == '+' || b3[1]
                == '-' || b3[1] == '=')))
        }
    }
}

/// The text before the cursor ends like a note: a letter `a`..`h`, an
/// optional accidental, `:`, digits and at most three dots.
pub open spec fn ends_at_note_like(p: Seq<char>) -> bool {
    let dots = trailing(p, '.');
    dots <= 3 && {
        let b1 = p.subrange(0, p.len() - dots);
        let b2 = b1.subrange(0, digit_tail(b1, b1.len() as int));
        let b3 = strip_last(b2, ':');
        let b4 = if b3.len() > 0 && (b3.last() == '+' || b3.last() == '-' || b3.last() == '=') {
            b3.drop_last()
        } else {
            b3
        };
        b4.len() > 0 && 'a' <= b4.last() <= 'h'
    }
}

/// Completion is suppressed right after a note or rest: the whitespace
/// token around the cursor `k` of line `s` is one, or the text before the
/// cursor ends like a note.
pub open spec fn suppress_note_or_rest(s: Seq<char>, k: int) -> bool {
    let start = nonws_run_start(s, 0, k);
    let end = next_ws(s, k);
    (start < end && note_or_rest_token(s.subrange(start, end))) || ends_at_note_like(s.subrange(0, k))
}

// ---------------------------------------------------------------------------
// Executable scans
// ---------------------------------------------------------------------------

/// One past the last `c` among the first `n` characters (0 when none).
pub fn after_last(p: &[char], c: char, n: usize) -> (r: usize)
    requires
        n <= p@.len(),
    ensures
        r == last_of(p@, c, n as int) + 1,
        r <= n,
{
    let mut i = n;
    while i > 0 && p[i - 1] != c
        invariant
            i <= n <= p@.len(),
            last_of(p@, c, n as int) == last_of(p@, c, i as int),
        decreases i,
    {
        i -= 1;
    }
    i
}

fn odd_count(p: &[char], c: char) -> (r: bool)
    ensures
        r == (count_of(p@, c, p@.len() as int) % 2 == 1),
{
    let mut odd = false;
    let mut i: usize = 0;
    while i < p.len()
        invariant
            i <= p@.len(),
            odd == (count_of(p@, c, i as int) % 2 == 1),
        decreases p@.len() - i,
    {
        if p[i] == c {
            odd = !odd;
        }
        i += 1;
    }
    odd
}

/// See [`nonws_run_start`].
pub fn run_start_back(p: &[char], lo: usize, n: usize) -> (r: usize)
    requires
        lo <= n <= p@.len(),
    ensures
        r == nonws_run_start(p@, lo as int, n as int),
        lo <= r <= n,
{
    let mut i = n;
    while i > lo && !whitespace_char(p[i - 1])
        invariant
            lo <= i <= n <= p@.len(),
            nonws_run_start(p@, lo as int, n as int) == nonws_run_start(p@, lo as int, i as int),
        decreases i,
    {
        i -= 1;
    }
    i
}

/// See [`next_ws`].
pub fn next_ws_at(p: &[char], i: usize) -> (r: usize)
    requires
        i <= p@.len(),
    ensures
        r == next_ws(p@, i as int),
        i <= r <= p@.len(),
{
    let mut j = i;
    while j < p.len() && !whitespace_char(p[j])
        invariant
            i <= j <= p@.len(),
            next_ws(p@, i as int) == next_ws(p@, j as int),
        decreases p@.len() - j,
    {
        j += 1;
    }
    j
}

/// See [`chars_at`].
pub fn chars_at_exec(p: &[char], i: usize, w: &[char]) -> (r: bool)
    ensures
        r == chars_at(p@, i as int, w@),
{
    if i > p.len() || w.len() > p.len() - i {
        return false;
    }
    let _n = p.len();
    let mut k: usize = 0;
    while k < w.len()
        invariant
            k <= w@.len(),
            p@.len() <= usize::MAX,
            i + w@.len() <= p@.len(),
            forall|j: int| 0 <= j < k ==> p@[i + j] == w@[j],
        decreases w@.len() - k,
    {
        if p[i + k] != w[k] {
            assert(p@.subrange(i as int, i + w@.len())[k as int] != w@[k as int]);
            return false;
        }
        k += 1;
    }
    assert(p@.subrange(i as int, i + w@.len()) =~= w@);
    true
}

/// See [`find_chars`].
pub(crate) fn find_chars_exec(p: &[char], w: &[char]) -> (r: Option<usize>)
    ensures
        find_chars(p@, w@, 0) >= 0 ==> r == Some(find_chars(p@, w@, 0) as usize) && find_chars(p@, w@, 0) + w@.len()
            <= p@.len(),
        find_chars(p@, w@, 0) < 0 ==> r is None,
{
    if w.len() > p.len() {
        return None;
    }
    let last = p.len() - w.len();
    let mut i: usize = 0;
    while i <= last
        invariant
            last + w@.len() == p@.len(),
            find_chars(p@, w@, 0) == find_chars(p@, w@, i as int),
        decreases last + 1 - i,
    {
        if chars_at_exec(p, i, w) {
            return Some(i);
        }
        if i == last {
            assert(find_chars(p@, w@, i + 1) == -1);
            return None;
        }
        i += 1;
    }
    None
}

/// See [`word_char_start`].
pub fn word_start_back(s: &[char], n: usize) -> (r: usize)
    requires
        n <= s@.len(),
    ensures
        r == word_char_start(s@, n as int),
        r <= n,
{
    let mut i = n;
    while i > 0 && (('0' <= s[i - 1] && s[i - 1] <= '9') || ('A' <= s[i - 1] && s[i - 1] <= 'Z') || ('a' <= s[i
        - 1] && s[i - 1] <= 'z') || s[i - 1] == '_')
        invariant
            i <= n <= s@.len(),
            word_char_start(s@, n as int) == word_char_start(s@, i as int),
        decreases i,
    {
        i -= 1;
    }
    i
}

// ---------------------------------------------------------------------------
// Executable contexts
// ---------------------------------------------------------------------------

pub fn is_platform_context(p: &[char]) -> (r: bool)
    ensures
        r == platform_context(p@),
{
    let mut d = false;
    let mut q = false;
    let mut i: usize = 0;
    while i < p.len()
        invariant
            i <= p@.len(),
            (d, q) == quote_flags(p@, i as int),
        decreases p@.len() - i,
    {
        let c = p[i];
        if c == '"' && !q {
            d = !d;
        } else if c == '\'' && !d {
            q = !q;
        }
        i += 1;
    }
    q
}

pub fn platform_start_of(p: &[char]) -> (r: usize)
    ensures
        r == platform_start(p@),
        r <= p@.len(),
{
    let aq = after_last(p, '\'', p.len());
    run_start_back(p, aq, p.len())
}

pub fn is_pcm_path_context(p: &[char]) -> (r: bool)
    ensures
        r == pcm_path_context(p@),
{
    if !odd_count(p, '"') {
        return false;
    }
    let words = split_ws_words(p);
    let mut i: usize = 0;
    while i < words.len()
        invariant
            i <= words@.len() == ws_words(p@).len(),
            count_of(p@, '"', p@.len() as int) % 2 == 1,
            forall|k: int| 0 <= k < words@.len() ==> (#[trigger] words@[k])@ == ws_words(p@)[k],
            forall|k: int| 0 <= k < i ==> ws_words(p@)[k] != seq!['p', 'c', 'm'],
        decreases words@.len() - i,
    {
        if is_pcm_word(&words[i]) {
            assert(ws_words(p@)[i as int] == seq!['p', 'c', 'm']);
            return true;
        }
        i += 1;
    }
    false
}

pub fn meta_value_context_in(p: &[char], kw: &[char]) -> (r: bool)
    ensures
        r == meta_value_context(p@, kw@),
{
    let t = trim_start_vec(p);
    if t.len() <= kw.len() || !chars_at_exec(t.as_slice(), 0, kw) {
        return false;
    }
    whitespace_char(t[kw.len()])
}

/// See [`meta_value_kind`]: the keyword and its position.
pub fn meta_value_kind_of(p: &[char]) -> (r: Option<usize>)
    ensures
        match meta_value_kind(p@) {
            Some(k) => r == Some(k as usize),
            None => r is None,
        },
{
    let a = str_chars("#platform");
    if meta_value_context_in(p, a.as_slice()) {
        return Some(0);
    }
    let b = str_chars("#option");
    if meta_value_context_in(p, b.as_slice()) {
        return Some(1);
    }
    let c = str_chars("#timesig");
    if meta_value_context_in(p, c.as_slice()) {
        return Some(2);
    }
    let d = str_chars("#group");
    if meta_value_context_in(p, d.as_slice()) {
        return Some(3);
    }
    None
}

pub fn meta_value_start_of(p: &[char], kw: &[char]) -> (r: usize)
    ensures
        r == meta_value_start(p@, kw@),
        r <= p@.len(),
{
    let _n = p.len();
    let f = find_chars_exec(p, kw);
    let kw_end = match f {
        Some(i) => i + kw.len(),
        None => 0,
    };
    run_start_back(p, kw_end, p.len())
}

pub fn meta_keyword_hash_of(p: &[char]) -> (r: Option<usize>)
    ensures
        match hash_position(p@) {
            Some(h) => r == Some(h as usize) && 0 <= h < p@.len(),
            None => r is None,
        },
{
    let a = after_last(p, '#', p.len());
    if a == 0 {
        return None;
    }
    let h = a - 1;
    let mut i: usize = 0;
    while i < h
        invariant
            i <= h < p@.len(),
            h == last_of(p@, '#', p@.len() as int),
            forall|j: int| 0 <= j < i ==> is_unicode_ws(#[trigger] p@[j]),
        decreases h - i,
    {
        if !whitespace_char(p[i]) {
            assert(!is_unicode_ws(p@[i as int]));
            return None;
        }
        i += 1;
    }
    let mut j = h + 1;
    while j < p.len()
        invariant
            h < j <= p@.len(),
            h == last_of(p@, '#', p@.len() as int),
            forall|x: int| h < x < j ==> !is_unicode_ws(#[trigger] p@[x]),
        decreases p@.len() - j,
    {
        if whitespace_char(p[j]) {
            assert(is_unicode_ws(p@[j as int]));
            return None;
        }
        j += 1;
    }
    Some(h)
}

pub fn opens_with_char(p: &[char], c: char) -> (r: bool)
    ensures
        r == opens_with(p@, c),
{
    let t = trim_start_vec(p);
    t.len() > 0 && t[0] == c
}

pub fn rate_offset_context_in(p: &[char]) -> (r: bool)
    ensures
        r == rate_offset_context(p@),
{
    let t = trim_start_vec(p);
    if t.len() == 0 || !whitespace_char(t[t.len() - 1]) {
        return false;
    }
    let ts = string_of_chars(t.as_slice());
    let tk = crate::text_scan::tokenize_outside_double_quotes(ts.as_str());
    if tk.len() < 3 {
        return false;
    }
    if !crate::text_scan::is_at_number(tk[0].as_str()) {
        return false;
    }
    let t1 = str_chars(tk[1].as_str());
    if !is_pcm_word(&t1) {
        return false;
    }
    let t2 = str_chars(tk[2].as_str());
    t2.len() > 0 && t2[0] == '"'
}

pub fn at_header_rest_of(p: &[char]) -> (r: Option<usize>)
    ensures
        match at_header_rest(p@) {
            Some(k) => r == Some(k as usize) && 0 <= k <= p@.len(),
            None => r is None,
        },
{
    let t = trim_start_vec(p);
    let l = p.len() - t.len();
    assert(l == lead_ws(p@));
    if l >= p.len() || p[l] != '@' {
        return None;
    }
    let d = scan_digit_chars(p, l + 1);
    if d <= l + 1 || d >= p.len() || !whitespace_char(p[d]) {
        return None;
    }
    let rest = chars_between(p, d, p.len());
    let rt = trim_start_vec(rest.as_slice());
    Some(d + (rest.len() - rt.len()))
}

pub fn keyword_after_header_of(p: &[char], kw: &[char]) -> (r: Option<usize>)
    ensures
        match keyword_after_header(p@, kw@) {
            Some(k) => r == Some(k as usize) && 0 <= k <= p@.len(),
            None => r is None,
        },
{
    let _n = p.len();
    match at_header_rest_of(p) {
        Some(rs) => {
            if chars_at_exec(p, rs, kw) && (rs + kw.len() == p.len() || whitespace_char(p[rs + kw.len()])) {
                Some(rs + kw.len())
            } else {
                None
            }
        },
        None => None,
    }
}

pub fn fm_fragment_of(p: &[char], fm_end: usize) -> (r: Option<Vec<char>>)
    requires
        fm_end <= p@.len(),
    ensures
        match fm_fragment(p@, fm_end as int) {
            Some(f) => r matches Some(v) && v@ == f,
            None => r is None,
        },
{
    let rest = chars_between(p, fm_end, p.len());
    let typed = trim_start_vec(rest.as_slice());
    let a = after_last(typed.as_slice(), '/', typed.len());
    if a == 0 {
        None
    } else {
        Some(chars_between(typed.as_slice(), 0, a - 1))
    }
}

pub fn instrument_type_context_in(p: &[char]) -> (r: bool)
    ensures
        r == instrument_type_context(p@),
{
    let t = trim_start_vec(p);
    if t.len() == 0 || t[0] != '@' {
        return false;
    }
    let d = scan_digit_chars(t.as_slice(), 1);
    if d <= 1 || d >= t.len() || t[d] != ' ' {
        return false;
    }
    let rest = chars_between(t.as_slice(), d + 1, t.len());
    let typed = trim_start_vec(rest.as_slice());
    let fm = str_chars("fm");
    let psg = str_chars("psg");
    let pcm = str_chars("pcm");
    let two = str_chars("2op");
    chars_at_exec(fm.as_slice(), 0, typed.as_slice()) || chars_at_exec(psg.as_slice(), 0, typed.as_slice())
        || chars_at_exec(pcm.as_slice(), 0, typed.as_slice()) || chars_at_exec(two.as_slice(), 0, typed.as_slice())
}

pub fn at_meta_start_of(p: &[char]) -> (r: Option<usize>)
    ensures
        match at_meta_start(p@) {
            Some(k) => r == Some(k as usize) && 0 <= k <= p@.len(),
            None => r is None,
        },
{
    let t = trim_start_vec(p);
    if t.len() == 0 || t[0] != '@' {
        return None;
    }
    let mut i: usize = 0;
    while i < t.len()
        invariant
            i <= t@.len(),
            t@ == trim_start_chars(p@),
            t@.len() > 0 && t@[0] == '@',
            forall|j: int| 0 <= j < i ==> !is_unicode_ws(#[trigger] t@[j]),
            forall|j: int| 1 <= j < i ==> !('0' <= #[trigger] t@[j] <= '9'),
        decreases t@.len() - i,
    {
        if whitespace_char(t[i]) {
            assert(is_unicode_ws(t@[i as int]));
            return None;
        }
        if i >= 1 && '0' <= t[i] && t[i] <= '9' {
            assert('0' <= t@[i as int] <= '9');
            return None;
        }
        i += 1;
    }
    Some(after_last(p, '@', p.len()))
}

fn trail_start_of(p: &[char], c: char, n: usize) -> (r: usize)
    requires
        n <= p@.len(),
    ensures
        r == trail_start(p@, c, n as int),
        r <= n,
{
    let mut i = n;
    while i > 0 && p[i - 1] == c
        invariant
            i <= n <= p@.len(),
            trail_start(p@, c, n as int) == trail_start(p@, c, i as int),
        decreases i,
    {
        i -= 1;
    }
    i
}

fn digit_tail_of(p: &[char], n: usize) -> (r: usize)
    requires
        n <= p@.len(),
    ensures
        r == digit_tail(p@, n as int),
        r <= n,
{
    let mut i = n;
    while i > 0 && '0' <= p[i - 1] && p[i - 1] <= '9'
        invariant
            i <= n <= p@.len(),
            digit_tail(p@, n as int) == digit_tail(p@, i as int),
        decreases i,
    {
        i -= 1;
    }
    i
}

/// The length of `p` after trailing dots (at most three), digits and one
/// `:` are removed; `None` for more than three dots.
fn note_body_end(p: &[char]) -> (r: Option<usize>)
    ensures
        trailing(p@, '.') > 3 ==> r is None,
        trailing(p@, '.') <= 3 ==> ({
            let b1 = p@.subrange(0, p@.len() - trailing(p@, '.'));
            let b2 = b1.subrange(0, digit_tail(b1, b1.len() as int));
            r matches Some(e) && e <= p@.len() && p@.subrange(0, e as int) == strip_last(b2, ':')
        }),
{
    let ts = trail_start_of(p, '.', p.len());
    if p.len() - ts > 3 {
        return None;
    }
    let ghost b1 = p@.subrange(0, ts as int);
    let dt = digit_tail_of(p, ts);
    proof {
        lemma_digit_tail_prefix(p@, ts as int, ts as int);
    }
    let ghost b2 = b1.subrange(0, dt as int);
    assert(b2 =~= p@.subrange(0, dt as int));
    if dt > 0 && p[dt - 1] == ':' {
        assert(strip_last(b2, ':') =~= p@.subrange(0, dt - 1));
        Some(dt - 1)
    } else {
        Some(dt)
    }
}

proof fn lemma_digit_tail_prefix(p: Seq<char>, n: int, m: int)
    requires
        0 <= n <= m <= p.len(),
    ensures
        digit_tail(p.subrange(0, m), n) == digit_tail(p, n),
    decreases n,
{
    if n > 0 && '0' <= p[n - 1] <= '9' {
        lemma_digit_tail_prefix(p, n - 1, m);
    }
}

fn is_note_or_rest_token(t: &[char]) -> (r: bool)
    ensures
        r == note_or_rest_token(t@),
{
    match note_body_end(t) {
        None => false,
        Some(e) => {
            let ghost b3 = t@.subrange(0, e as int);
            if e > 0 && t[0] == 'r' {
                e == 1
            } else {
                e > 0 && 'a' <= t[0] && t[0] <= 'h' && (e == 1 || (e == 2 && (t[1] == '+' || t[1] == '-' || t[1]
                    == '=')))
            }
        },
    }
}

fn is_ends_at_note_like(p: &[char]) -> (r: bool)
    ensures
        r == ends_at_note_like(p@),
{
    match note_body_end(p) {
        None => false,
        Some(e) => {
            let e4 = if e > 0 && (p[e - 1] == '+' || p[e - 1] == '-' || p[e - 1] == '=') { e - 1 } else { e };
            e4 > 0 && 'a' <= p[e4 - 1] && p[e4 - 1] <= 'h'
        },
    }
}

/// See [`suppress_note_or_rest`].
pub fn suppresses_note_or_rest(s: &[char], k: usize) -> (r: bool)
    requires
        k <= s@.len(),
    ensures
        r == suppress_note_or_rest(s@, k as int),
{
    let start = run_start_back(s, 0, k);
    let end = next_ws_at(s, k);
    if start < end {
        let tok = chars_between(s, start, end);
        if is_note_or_rest_token(tok.as_slice()) {
            return true;
        }
    }
    let pre = chars_between(s, 0, k);
    is_ends_at_note_like(pre.as_slice())
}

// ---------------------------------------------------------------------------
// Entry points on text
// ---------------------------------------------------------------------------

/// Whether the text before the cursor opens with meta keyword `keyword`
/// and whitespace.
pub fn is_meta_value_context(prefix: &str, keyword: &str) -> (r: bool)
    ensures
        r == meta_value_context(prefix@, keyword@),
{
    let p = str_chars(prefix);
    let k = str_chars(keyword);
    meta_value_context_in(p.as_slice(), k.as_slice())
}

/// Whether the text before the cursor is `@N ` and the start of an
/// instrument type.
pub fn is_instrument_type_context(prefix: &str) -> (r: bool)
    ensures
        r == instrument_type_context(prefix@),
{
    let p = str_chars(prefix);
    instrument_type_context_in(p.as_slice())
}

/// Whether the text before the cursor ends a quoted PCM sample path.
pub fn is_rate_offset_context(prefix: &str) -> (r: bool)
    ensures
        r == rate_offset_context(prefix@),
{
    let p = str_chars(prefix);
    rate_offset_context_in(p.as_slice())
}

/// Byte index of the `#` of a meta keyword being typed at the start of
/// the line.
pub fn meta_keyword_hash(prefix: &str) -> (r: Option<usize>)
    ensures
        match hash_position(prefix@) {
            Some(h) => r == Some(bytes_before(prefix@, h) as usize),
            None => r is None,
        },
{
    let p = str_chars(prefix);
    let _n = prefix.as_bytes().len();
    proof {
        super::lemma_encoded_len(p@);
    }
    match meta_keyword_hash_of(p.as_slice()) {
        Some(h) => Some(bytes_to(p.as_slice(), h)),
        None => None,
    }
}

/// Byte index where an `@` reference being typed (no digits yet) starts
/// its name.
pub fn at_meta_edit_start(prefix: &str) -> (r: Option<usize>)
    ensures
        match at_meta_start(prefix@) {
            Some(k) => r == Some(bytes_before(prefix@, k) as usize),
            None => r is None,
        },
{
    let p = str_chars(prefix);
    let _n = prefix.as_bytes().len();
    proof {
        super::lemma_encoded_len(p@);
    }
    match at_meta_start_of(p.as_slice()) {
        Some(k) => Some(bytes_to(p.as_slice(), k)),
        None => None,
    }
}

} // verus!
