//! Single-line cursor-position classifiers.
//!
//! These answer "is the cursor inside a comment / string / key-sig block
//! on this line?" without a parser. They work on the line's UTF-8 bytes
//! and a 0-based byte column; non-ASCII bytes are opaque payload.

use vstd::prelude::*;
use vstd::string::StringSliceAdditionalSpecFns;
use vstd::utf8::{valid_utf8, is_char_boundary, is_continuation_byte, valid_first_scalar, pop_first_scalar};
use crate::strings::{is_ws_byte, is_alnum_byte, ws_byte, alnum_byte, str_chars, is_unicode_ws, whitespace_char};

verus! {

/// Quote state `(in_double, in_single)` after reading the first `n`
/// bytes of `b`: a `"` toggles the double-quote state unless a `'...'`
/// run is open, and a `'` toggles the single-quote state unless a
/// `"..."` run is open.
pub open spec fn quote_state(b: Seq<u8>, n: int) -> (bool, bool)
    decreases n,
{
    if n <= 0 {
        (false, false)
    } else {
        let prev = quote_state(b, n - 1);
        let c = b[n - 1];
        if c == 0x22u8 && !prev.1 {
            (!prev.0, prev.1)
        } else if c == 0x27u8 && !prev.0 {
            (prev.0, !prev.1)
        } else {
            prev
        }
    }
}

/// Some `;` before index `n` stands outside every quoted run.
pub open spec fn comment_before(b: Seq<u8>, n: int) -> bool {
    exists|i: int| 0 <= i < n && i < b.len() && #[trigger] b[i] == 0x3Bu8 && quote_state(b, i) == (false, false)
}

/// A `_{` key-signature opener whose `{` sits at index `j`.
pub open spec fn key_sig_opener_at(b: Seq<u8>, j: int) -> bool {
    1 <= j < b.len() && b[j] == 0x7Bu8 && b[j - 1] == 0x5Fu8
}

/// Column `col` is inside a `_{...}` block: scanning left from the byte
/// before the cursor (clamped to the last byte), a `_{` opener is met
/// before any `}`.
pub open spec fn in_key_sig(b: Seq<u8>, col: int) -> bool {
    col > 0 && b.len() > 0 && {
        let i0 = if col - 1 < b.len() - 1 { col - 1 } else { b.len() - 1 };
        exists|j: int| 1 <= j <= i0 && #[trigger] key_sig_opener_at(b, j)
            && forall|k: int| j < k <= i0 ==> b[k] != 0x7Du8
    }
}

/// Returns `true` when the 0-based column `col` falls inside a `_{...}`
/// key signature block on `line`.
pub fn is_in_key_sig(line: &str, col: usize) -> (r: bool)
    ensures
        r == in_key_sig(line.spec_bytes(), col as int),
{
    let bytes = line.as_bytes();
    let ghost b = line.spec_bytes();
    if col == 0 {
        return false;
    }
    if bytes.len() == 0 {
        return false;
    }
    let i0: usize = if col - 1 < bytes.len() - 1 { col - 1 } else { bytes.len() - 1 };
    let mut i: usize = i0;
    while i >= 1
        invariant
            b == bytes@,
            b == line.spec_bytes(),
            b.len() > 0,
            i <= i0 < b.len(),
            i0 as int == (if col - 1 < b.len() - 1 { col - 1 } else { b.len() - 1 }),
            col > 0,
            forall|k: int| i < k <= i0 ==> b[k] != 0x7Du8 && !key_sig_opener_at(b, k),
        decreases i,
    {
        if bytes[i] == 0x7Du8 {
            proof {
                assert forall|j: int| 1 <= j <= i0 && #[trigger] key_sig_opener_at(b, j)
                    implies !(forall|k: int| j < k <= i0 ==> b[k] != 0x7Du8) by {
                    if j > i {
                    } else {
                        assert(b[i as int] == 0x7Du8);
                    }
                }
            }
            return false;
        }
        if bytes[i] == 0x7Bu8 && bytes[i - 1] == 0x5Fu8 {
            assert(key_sig_opener_at(b, i as int) && forall|k: int| i < k <= i0 ==> b[k] != 0x7Du8);
            assert(in_key_sig(b, col as int));
            return true;
        }
        i -= 1;
    }
    proof {
        assert forall|j: int| 1 <= j <= i0 && #[trigger] key_sig_opener_at(b, j) implies false by {
        }
    }
    false
}

/// Returns `true` when the 0-based column `col` falls inside a `;` line
/// comment, respecting `"..."` and `'...'` string contexts: some `;`
/// outside any quoted run stands before `col`.
pub fn is_in_comment(line: &str, col: usize) -> (r: bool)
    ensures
        r == comment_before(line.spec_bytes(), col as int),
{
    let bytes = line.as_bytes();
    let ghost b = line.spec_bytes();
    let scan_end: usize = if col < bytes.len() { col } else { bytes.len() };
    let mut in_double = false;
    let mut in_single = false;
    let mut i: usize = 0;
    while i < scan_end
        invariant
            b == bytes@,
            b == line.spec_bytes(),
            scan_end <= b.len(),
            scan_end <= col,
            i <= scan_end,
            (in_double, in_single) == quote_state(b, i as int),
            forall|k: int| 0 <= k < i ==> !(#[trigger] b[k] == 0x3Bu8 && quote_state(b, k) == (false, false)),
        decreases scan_end - i,
    {
        let ch = bytes[i];
        if ch == 0x22u8 && !in_single {
            in_double = !in_double;
        } else if ch == 0x27u8 && !in_double {
            in_single = !in_single;
        } else if ch == 0x3Bu8 && !in_double && !in_single {
            assert(b[i as int] == 0x3Bu8 && quote_state(b, i as int) == (false, false));
            assert(comment_before(b, col as int));
            return true;
        }
        i += 1;
    }
    false
}

/// The column holds a quote byte that opens or closes a run, given the
/// quote state before it.
pub open spec fn quote_toggles_at(b: Seq<u8>, col: int) -> bool {
    let st = quote_state(b, col);
    (b[col] == 0x22u8 && !st.1) || (b[col] == 0x27u8 && !st.0)
}

/// Column `col` sits on a quote delimiter or inside a quoted run, with no
/// comment-starting `;` before it.
pub open spec fn in_string(b: Seq<u8>, col: int) -> bool {
    0 <= col < b.len() && !comment_before(b, col) && {
        let st = quote_state(b, col);
        quote_toggles_at(b, col) || st.0 || st.1
    }
}

/// Returns `true` when the 0-based column `col` falls inside a `"..."` or
/// `'...'` string literal on `line`; the delimiting quote bytes count as
/// inside.
pub fn is_in_string(line: &str, col: usize) -> (r: bool)
    ensures
        r == in_string(line.spec_bytes(), col as int),
{
    let bytes = line.as_bytes();
    let ghost b = line.spec_bytes();
    if col >= bytes.len() {
        return false;
    }
    let mut in_double = false;
    let mut in_single = false;
    let mut i: usize = 0;
    proof {
        assert(quote_state(b, 0) == (false, false));
    }
    while i < bytes.len()
        invariant
            b == bytes@,
            b == line.spec_bytes(),
            col < b.len(),
            i <= col,
            (in_double, in_single) == quote_state(b, i as int),
            forall|k: int| 0 <= k < i ==> !(#[trigger] b[k] == 0x3Bu8 && quote_state(b, k) == (false, false)),
        decreases b.len() - i,
    {
        let ch = bytes[i];
        if ch == 0x22u8 && !in_single {
            in_double = !in_double;
            if i == col {
                assert(!comment_before(b, col as int));
                assert(quote_toggles_at(b, col as int));
                return true;
            }
        } else if ch == 0x27u8 && !in_double {
            in_single = !in_single;
            if i == col {
                assert(!comment_before(b, col as int));
                assert(quote_toggles_at(b, col as int));
                return true;
            }
        } else if ch == 0x3Bu8 && !in_double && !in_single {
            proof {
                if i == col {
                    assert(!quote_toggles_at(b, col as int));
                } else {
                    assert(b[i as int] == 0x3Bu8 && quote_state(b, i as int) == (false, false));
                    assert(comment_before(b, col as int));
                }
            }
            return false;
        } else {
            if i == col {
                return in_double || in_single;
            }
        }
        i += 1;
    }
    false
}


/// Index `i` starts a character (or is the end) of the UTF-8 bytes `b`.
pub open spec fn at_boundary(b: Seq<u8>, i: int) -> bool {
    i == 0 || i == b.len() || (0 < i < b.len() && !is_continuation_byte(b[i]))
}

/// The largest character boundary at or before `idx`, clamped to `b.len()`.
pub open spec fn floor_boundary(b: Seq<u8>, idx: int) -> int
    decreases idx,
{
    if idx >= b.len() {
        b.len() as int
    } else if idx <= 0 {
        0
    } else if !is_continuation_byte(b[idx]) {
        idx
    } else {
        floor_boundary(b, idx - 1)
    }
}

proof fn lemma_floor_boundary(b: Seq<u8>, idx: int)
    requires
        0 <= idx,
    ensures
        0 <= floor_boundary(b, idx) <= b.len(),
        floor_boundary(b, idx) <= idx,
        at_boundary(b, floor_boundary(b, idx)),
    decreases idx,
{
    if idx >= b.len() {
    } else if idx <= 0 {
    } else if !is_continuation_byte(b[idx]) {
    } else {
        lemma_floor_boundary(b, idx - 1);
    }
}

/// Over valid UTF-8, `at_boundary` agrees with `str::is_char_boundary`.
proof fn lemma_at_boundary_is_char_boundary(b: Seq<u8>, i: int)
    requires
        valid_utf8(b),
        0 <= i <= b.len(),
        at_boundary(b, i),
    ensures
        is_char_boundary(b, i),
{
    vstd::utf8::is_char_boundary_start_end_of_seq(b);
    if 0 < i < b.len() {
        vstd::utf8::is_char_boundary_iff_not_is_continuation_byte(b, i);
    }
}

/// Largest char boundary `<= idx` in `s` (clamped to `s.len()`), so that
/// slicing at the result never splits a multi-byte character.
pub(crate) fn floor_char_boundary(s: &str, idx: usize) -> (r: usize)
    ensures
        r == floor_boundary(s.spec_bytes(), idx as int),
{
    let bytes = s.as_bytes();
    let ghost b = s.spec_bytes();
    if idx >= bytes.len() {
        return bytes.len();
    }
    let mut i = idx;
    while i > 0 && is_continuation(bytes[i])
        invariant
            b == bytes@,
            i <= idx < b.len(),
            floor_boundary(b, idx as int) == floor_boundary(b, i as int),
        decreases i,
    {
        i -= 1;
    }
    i
}

pub fn is_continuation(b: u8) -> (r: bool)
    ensures
        r == is_continuation_byte(b),
{
    0x80u8 <= b && b <= 0xBFu8
}

/// Bytes that extend a token in [`token_at`]: ASCII letters and digits
/// plus `# @ _ = * - + { }`.
pub open spec fn is_token_byte(b: u8) -> bool {
    is_alnum_byte(b) || b == 0x23u8 || b == 0x40u8 || b == 0x5Fu8 || b == 0x3Du8 || b == 0x2Au8
        || b == 0x2Du8 || b == 0x2Bu8 || b == 0x7Bu8 || b == 0x7Du8
}

fn is_token_char(b: u8) -> (r: bool)
    ensures
        r == is_token_byte(b),
{
    alnum_byte(b) || b == 0x23u8 || b == 0x40u8 || b == 0x5Fu8 || b == 0x3Du8 || b == 0x2Au8
        || b == 0x2Du8 || b == 0x2Bu8 || b == 0x7Bu8 || b == 0x7Du8
}

/// Walking left from `i` over ASCII whitespace, stopping at index 0.
pub open spec fn skip_ws_left(b: Seq<u8>, i: int) -> int
    decreases i,
{
    if i > 0 && i < b.len() && is_ws_byte(b[i]) {
        skip_ws_left(b, i - 1)
    } else {
        i
    }
}

/// First index of the run of token bytes that ends just before `i`.
pub open spec fn token_run_start(b: Seq<u8>, i: int) -> int
    decreases i,
{
    if i > 0 && i <= b.len() && is_token_byte(b[i - 1]) {
        token_run_start(b, i - 1)
    } else {
        i
    }
}

/// First index at or after `e` that is the end of `b` or holds a byte
/// that neither continues a character nor extends a token.
pub open spec fn token_run_end(b: Seq<u8>, e: int) -> int
    decreases b.len() - e,
{
    if 0 <= e < b.len() && (is_continuation_byte(b[e]) || is_token_byte(b[e])) {
        token_run_end(b, e + 1)
    } else {
        e
    }
}

/// The `[start, end)` span of the token that [`token_at`] reports, or
/// `None` for an empty line.
pub open spec fn token_span(b: Seq<u8>, col: int) -> Option<(int, int)> {
    if b.len() == 0 {
        None
    } else {
        let j = if col < b.len() - 1 { col } else { b.len() - 1 };
        let idx = floor_boundary(b, skip_ws_left(b, j));
        if b[idx] == 0x5Eu8 || b[idx] == 0x26u8 {
            Some((idx, idx + 1))
        } else {
            Some((token_run_start(b, idx), token_run_end(b, idx + 1)))
        }
    }
}

/// The substring of `s` between two character boundaries.
pub fn sub_str(s: &str, start: usize, end: usize) -> (r: &str)
    requires
        start <= end <= s.spec_bytes().len(),
        at_boundary(s.spec_bytes(), start as int),
        at_boundary(s.spec_bytes(), end as int),
    ensures
        r.spec_bytes() == s.spec_bytes().subrange(start as int, end as int),
{
    let ghost b = s.spec_bytes();
    proof {
        vstd::utf8::encode_utf8_valid_utf8(s@);
        lemma_at_boundary_is_char_boundary(b, end as int);
    }
    let (head, _) = s.split_at(end);
    proof {
        vstd::utf8::encode_utf8_valid_utf8(head@);
        let hb = head.spec_bytes();
        assert(hb =~= b.subrange(0, end as int));
        if 0 < start < hb.len() {
            assert(hb[start as int] == b[start as int]);
        }
        assert(at_boundary(hb, start as int));
        lemma_at_boundary_is_char_boundary(hb, start as int);
    }
    let (_, tail) = head.split_at(start);
    proof {
        assert(tail.spec_bytes() =~= b.subrange(start as int, end as int));
    }
    tail
}

/// Returns the token touching column `col` on `line`, with its
/// `[start, end)` byte span: walk left over whitespace to the nearest
/// character, then expand over token bytes on both sides. `^` and `&`
/// are always single-byte tokens.
pub fn token_at(line: &str, col: usize) -> (r: Option<(&str, usize, usize)>)
    ensures
        match token_span(line.spec_bytes(), col as int) {
            None => r is None,
            Some((s, e)) => r matches Some((t, rs, re)) && rs == s && re == e
                && t.spec_bytes() == line.spec_bytes().subrange(s, e),
        },
{
    let bytes = line.as_bytes();
    let ghost b = line.spec_bytes();
    proof {
        vstd::utf8::encode_utf8_valid_utf8(line@);
    }
    if bytes.len() == 0 {
        return None;
    }
    let j: usize = if col < bytes.len() - 1 { col } else { bytes.len() - 1 };
    let mut idx = j;
    while idx > 0 && ws_byte(bytes[idx])
        invariant
            b == bytes@,
            idx <= j < b.len(),
            skip_ws_left(b, j as int) == skip_ws_left(b, idx as int),
        decreases idx,
    {
        idx -= 1;
    }
    idx = floor_char_boundary(line, idx);
    proof {
        lemma_floor_boundary(b, skip_ws_left(b, j as int));
    }
    let ch = bytes[idx];
    if ch == 0x5Eu8 || ch == 0x26u8 {
        proof {
            assert(at_boundary(b, idx + 1)) by {
                if idx + 1 < b.len() {
                    vstd::utf8::is_char_boundary_iff_not_is_continuation_byte(b, idx as int);
                    lemma_ascii_then_boundary(b, idx as int);
                }
            }
        }
        let t = sub_str(line, idx, idx + 1);
        return Some((t, idx, idx + 1));
    }
    let mut start = idx;
    while start > 0 && is_token_char(bytes[start - 1])
        invariant
            b == bytes@,
            valid_utf8(b),
            start <= idx < b.len(),
            token_run_start(b, idx as int) == token_run_start(b, start as int),
            at_boundary(b, start as int),
        decreases start,
    {
        proof {
            lemma_ascii_then_boundary(b, start - 1);
            if start - 1 > 0 {
                assert(!is_continuation_byte(b[start - 1]));
            }
        }
        start -= 1;
    }
    let mut end = idx + 1;
    while end < bytes.len() && (is_continuation(bytes[end]) || is_token_char(bytes[end]))
        invariant
            b == bytes@,
            idx < end <= b.len(),
            token_run_end(b, idx + 1) == token_run_end(b, end as int),
        decreases b.len() - end,
    {
        end += 1;
    }
    let t = sub_str(line, start, end);
    Some((t, start, end))
}

/// In valid UTF-8, the byte after an ASCII byte starts a character.
pub proof fn lemma_ascii_then_boundary(b: Seq<u8>, i: int)
    requires
        valid_utf8(b),
        0 <= i,
        i + 1 < b.len(),
        b[i] < 0x80u8 || is_token_byte(b[i]),
    ensures
        !is_continuation_byte(b[i + 1]),
{
    vstd::utf8::is_char_boundary_iff_is_leading_byte(b, i);
    vstd::utf8::valid_utf8_split(b, i);
    let t = b.subrange(i, b.len() as int);
    assert(t[0] == b[i]);
    assert(valid_first_scalar(t));
    let p = pop_first_scalar(t);
    assert(p =~= t.subrange(1, t.len() as int));
    assert(valid_utf8(p));
    assert(p.len() > 0);
    assert(valid_first_scalar(p));
    assert(p[0] == b[i + 1]);
}


/// State of the quote-aware tokenizer: finished tokens, the token being
/// built, and whether a `"..."` run is open.
pub type TokState = (Seq<Seq<char>>, Seq<char>, bool);

/// One character step of [`tokenize_outside_double_quotes`].
pub open spec fn tok_step(st: TokState, ch: char) -> TokState {
    if ch == '"' {
        (st.0, st.1.push(ch), !st.2)
    } else if is_unicode_ws(ch) && !st.2 {
        if st.1.len() > 0 {
            (st.0.push(st.1), Seq::empty(), st.2)
        } else {
            st
        }
    } else {
        (st.0, st.1.push(ch), st.2)
    }
}

/// Tokenizer state after the first `n` characters of `s`.
pub open spec fn tok_state(s: Seq<char>, n: int) -> TokState
    decreases n,
{
    if n <= 0 {
        (Seq::empty(), Seq::empty(), false)
    } else {
        tok_step(tok_state(s, n - 1), s[n - 1])
    }
}

/// The tokens of `s`: split on whitespace outside double-quoted runs;
/// quote characters stay in their token and an unterminated run reaches
/// the end of the input.
pub open spec fn quote_aware_tokens(s: Seq<char>) -> Seq<Seq<char>> {
    let st = tok_state(s, s.len() as int);
    if st.1.len() > 0 {
        st.0.push(st.1)
    } else {
        st.0
    }
}

/// Splits `input` on whitespace outside double-quoted runs.
pub fn tokenize_outside_double_quotes(input: &str) -> (r: Vec<String>)
    ensures
        r@.len() == quote_aware_tokens(input@).len(),
        forall|i: int| 0 <= i < r@.len() ==> #[trigger] r@[i]@ == quote_aware_tokens(input@)[i],
{
    let chars = str_chars(input);
    let mut tokens: Vec<String> = Vec::new();
    let mut current = String::new();
    let mut in_quotes = false;
    let mut i: usize = 0;
    while i < chars.len()
        invariant
            chars@ == input@,
            i <= chars@.len(),
            tokens@.len() == tok_state(chars@, i as int).0.len(),
            forall|k: int| 0 <= k < tokens@.len() ==> #[trigger] tokens@[k]@ == tok_state(chars@, i as int).0[k],
            current@ == tok_state(chars@, i as int).1,
            in_quotes == tok_state(chars@, i as int).2,
        decreases chars@.len() - i,
    {
        let ch = chars[i];
        if ch == '"' {
            current.push(ch);
            in_quotes = !in_quotes;
        } else if whitespace_char(ch) && !in_quotes {
            if !current.as_str().is_empty() {
                tokens.push(current);
                current = String::new();
            }
        } else {
            current.push(ch);
        }
        i += 1;
    }
    if !current.as_str().is_empty() {
        tokens.push(current);
    }
    tokens
}

/// `@` followed by one or more ASCII digits.
pub open spec fn at_number_chars(t: Seq<char>) -> bool {
    t.len() >= 2 && t[0] == '@' && forall|i: int| 1 <= i < t.len() ==> '0' <= #[trigger] t[i] <= '9'
}

/// Returns `true` when `token` is an `@<digits>` instrument reference
/// (e.g. `@12`).
pub fn is_at_number(token: &str) -> (r: bool)
    ensures
        r == at_number_chars(token@),
{
    let chars = str_chars(token);
    if chars.len() < 2 || chars[0] != '@' {
        return false;
    }
    let mut i: usize = 1;
    while i < chars.len()
        invariant
            chars@ == token@,
            1 <= i <= chars@.len(),
            forall|k: int| 1 <= k < i ==> '0' <= #[trigger] chars@[k] <= '9',
        decreases chars@.len() - i,
    {
        if !('0' <= chars[i] && chars[i] <= '9') {
            return false;
        }
        i += 1;
    }
    true
}

/// Pairing the `q` bytes of `b[i..]` left to right (`open` is the
/// unpaired quote before `i`, if any): the first run `(open, close)`
/// with `col` strictly between its two quotes.
pub open spec fn quote_pair_scan(b: Seq<u8>, col: int, q: u8, i: int, open: Option<int>) -> Option<(int, int)>
    decreases b.len() - i,
{
    if i < 0 || i >= b.len() {
        None
    } else if b[i] == q {
        match open {
            Some(o) => if o < col < i {
                Some((o, i))
            } else {
                quote_pair_scan(b, col, q, i + 1, None)
            },
            None => quote_pair_scan(b, col, q, i + 1, Some(i)),
        }
    } else {
        quote_pair_scan(b, col, q, i + 1, open)
    }
}

/// The `(left, right)` offsets of the `q`-quoted run enclosing `col`:
/// quotes pair up from the start of the line, and `col` must lie strictly
/// between the two quotes of one run.
pub open spec fn quote_run_bounds(b: Seq<u8>, col: int, q: u8) -> Option<(int, int)> {
    quote_pair_scan(b, col, q, 0, None)
}

fn quote_bounds_of(line: &str, col: usize, q: u8) -> (r: Option<(usize, usize)>)
    ensures
        match quote_run_bounds(line.spec_bytes(), col as int, q) {
            None => r is None,
            Some((l, rr)) => r == Some((l as usize, rr as usize)),
        },
{
    let bytes = line.as_bytes();
    let ghost b = line.spec_bytes();
    let mut open: Option<usize> = None;
    let mut i: usize = 0;
    while i < bytes.len()
        invariant
            b == bytes@,
            b == line.spec_bytes(),
            i <= b.len(),
            match open { Some(o) => o < i, None => true },
            quote_run_bounds(b, col as int, q) == quote_pair_scan(b, col as int, q, i as int,
                match open { Some(o) => Some(o as int), None => None }),
        decreases b.len() - i,
    {
        if bytes[i] == q {
            match open {
                Some(o) => {
                    if o < col && col < i {
                        assert(quote_pair_scan(b, col as int, q, i as int, Some(o as int))
                            == Some((o as int, i as int)));
                        return Some((o, i));
                    }
                    open = None;
                },
                None => {
                    open = Some(i);
                },
            }
        }
        i += 1;
    }
    None
}

/// Returns the `(left, right)` byte offsets of the `'...'` run enclosing
/// `col`, if any; both offsets point at the quote bytes themselves.
pub fn single_quote_bounds(line: &str, col: usize) -> (r: Option<(usize, usize)>)
    requires
        line.spec_bytes().len() > 0,
    ensures
        match quote_run_bounds(line.spec_bytes(), col as int, 0x27u8) {
            None => r is None,
            Some((l, rr)) => r == Some((l as usize, rr as usize)),
        },
{
    quote_bounds_of(line, col, 0x27u8)
}

/// Returns the `(left, right)` byte offsets of the `"..."` run enclosing
/// `col`, if any; both offsets point at the quote bytes themselves.
pub fn double_quote_bounds(line: &str, col: usize) -> (r: Option<(usize, usize)>)
    requires
        line.spec_bytes().len() > 0,
    ensures
        match quote_run_bounds(line.spec_bytes(), col as int, 0x22u8) {
            None => r is None,
            Some((l, rr)) => r == Some((l as usize, rr as usize)),
        },
{
    quote_bounds_of(line, col, 0x22u8)
}

} // verus!
