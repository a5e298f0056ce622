//! Small string utilities shared by the scanners and renderers.
//!
//! Text arguments are `&str`; their contracts speak of `s.spec_bytes()`,
//! the UTF-8 byte sequence that `str::as_bytes` returns. Rendered output
//! is built one `char` at a time and specified through `String`'s view.

use vstd::prelude::*;

verus! {

/// `String::push` appends one character to the end of the string.
pub assume_specification[ String::push ](s: &mut String, ch: char)
    ensures
        final(s)@ == old(s)@.push(ch),
;

/// ASCII whitespace as `u8::is_ascii_whitespace` defines it:
/// space, tab, line feed, form feed and carriage return.
pub open spec fn is_ws_byte(b: u8) -> bool {
    b == 0x20u8 || b == 0x09u8 || b == 0x0Au8 || b == 0x0Cu8 || b == 0x0Du8
}

/// ASCII decimal digit.
pub open spec fn is_digit_byte(b: u8) -> bool {
    0x30u8 <= b <= 0x39u8
}

/// ASCII letter or digit.
pub open spec fn is_alnum_byte(b: u8) -> bool {
    is_digit_byte(b) || (0x41u8 <= b <= 0x5Au8) || (0x61u8 <= b <= 0x7Au8)
}

pub fn ws_byte(b: u8) -> (r: bool)
    ensures
        r == is_ws_byte(b),
{
    b == 0x20u8 || b == 0x09u8 || b == 0x0Au8 || b == 0x0Cu8 || b == 0x0Du8
}

pub fn digit_byte(b: u8) -> (r: bool)
    ensures
        r == is_digit_byte(b),
{
    0x30u8 <= b && b <= 0x39u8
}

pub fn alnum_byte(b: u8) -> (r: bool)
    ensures
        r == is_alnum_byte(b),
{
    digit_byte(b) || (0x41u8 <= b && b <= 0x5Au8) || (0x61u8 <= b && b <= 0x7Au8)
}

/// The characters of an ASCII byte sequence.
pub open spec fn ascii_chars(s: Seq<u8>) -> Seq<char> {
    s.map_values(|b: u8| b as char)
}

} // verus!

verus! {

/// The characters of `s`, in order.
pub fn str_chars(s: &str) -> (v: Vec<char>)
    ensures
        v@ == s@,
{
    let mut v: Vec<char> = Vec::new();
    for c in it: s.chars()
        invariant
            v@ == it.seq().take(it.index() as int),
            it.seq() == s@,
    {
        v.push(c);
    }
    v
}

} // verus!

verus! {

/// Unicode `White_Space`, the property that `char::is_whitespace` tests.
pub open spec fn is_unicode_ws(c: char) -> bool {
    ('\u{9}' <= c <= '\u{d}') || c == ' ' || c == '\u{85}' || c == '\u{a0}' || c == '\u{1680}'
        || ('\u{2000}' <= c <= '\u{200a}') || c == '\u{2028}' || c == '\u{2029}' || c == '\u{202f}'
        || c == '\u{205f}' || c == '\u{3000}'
}

pub fn whitespace_char(c: char) -> (r: bool)
    ensures
        r == is_unicode_ws(c),
{
    ('\u{9}' <= c && c <= '\u{d}') || c == ' ' || c == '\u{85}' || c == '\u{a0}' || c == '\u{1680}'
        || ('\u{2000}' <= c && c <= '\u{200a}') || c == '\u{2028}' || c == '\u{2029}' || c == '\u{202f}'
        || c == '\u{205f}' || c == '\u{3000}'
}

} // verus!

verus! {

/// Decimal value of a run of ASCII digits.
pub open spec fn digits_value(s: Seq<u8>) -> nat
    decreases s.len(),
{
    if s.len() == 0 {
        0
    } else {
        digits_value(s.drop_last()) * 10 + (s.last() - 0x30u8) as nat
    }
}

/// Every byte of `s` is an ASCII digit.
pub open spec fn all_digits(s: Seq<u8>) -> bool {
    forall|i: int| 0 <= i < s.len() ==> is_digit_byte(#[trigger] s[i])
}

/// Extending a digit run never lowers its value.
pub proof fn lemma_digits_value_monotone(s: Seq<u8>, j: int, k: int)
    requires
        0 <= j <= k <= s.len(),
        all_digits(s),
    ensures
        digits_value(s.subrange(0, j)) <= digits_value(s.subrange(0, k)),
    decreases k - j,
{
    if j < k {
        lemma_digits_value_monotone(s, j, k - 1);
        assert(s.subrange(0, k).drop_last() =~= s.subrange(0, k - 1));
    }
}

/// The decimal value of the digits `bytes[start..end)` as a `u32`, or
/// `None` when it does not fit (what `str::parse::<u32>` gives on a bare
/// digit run).
pub fn parse_digits_u32(bytes: &[u8], start: usize, end: usize) -> (r: Option<u32>)
    requires
        start <= end <= bytes@.len(),
        all_digits(bytes@.subrange(start as int, end as int)),
    ensures
        r == (if digits_value(bytes@.subrange(start as int, end as int)) <= u32::MAX {
            Some(digits_value(bytes@.subrange(start as int, end as int)) as u32)
        } else {
            None
        }),
{
    let ghost s = bytes@.subrange(start as int, end as int);
    let mut value: u32 = 0;
    let mut i = start;
    while i < end
        invariant
            start <= i <= end <= bytes@.len(),
            s == bytes@.subrange(start as int, end as int),
            all_digits(s),
            value as nat == digits_value(s.subrange(0, i - start)),
        decreases end - i,
    {
        assert(s.subrange(0, i - start + 1).drop_last() =~= s.subrange(0, i - start));
        assert(is_digit_byte(s[i - start]));
        assert(s[i - start] == bytes@[i as int]);
        let d = (bytes[i] - 0x30u8) as u32;
        if value > 429496729u32 || (value == 429496729u32 && d > 5) {
            proof {
                lemma_digits_value_monotone(s, i - start + 1, s.len() as int);
                assert(s.subrange(0, s.len() as int) =~= s);
            }
            return None;
        }
        value = value * 10 + d;
        i += 1;
    }
    assert(s.subrange(0, end - start) =~= s);
    Some(value)
}

/// Index of the end of the run of ASCII digits that starts at `i`.
pub open spec fn digit_run_end(b: Seq<u8>, i: int) -> int
    decreases b.len() - i,
{
    if 0 <= i < b.len() && is_digit_byte(b[i]) {
        digit_run_end(b, i + 1)
    } else {
        i
    }
}

pub proof fn lemma_digit_run_end(b: Seq<u8>, i: int)
    requires
        0 <= i <= b.len(),
    ensures
        i <= digit_run_end(b, i) <= b.len(),
        all_digits(b.subrange(i, digit_run_end(b, i))),
        digit_run_end(b, i) < b.len() ==> !is_digit_byte(b[digit_run_end(b, i)]),
    decreases b.len() - i,
{
    if i < b.len() && is_digit_byte(b[i]) {
        lemma_digit_run_end(b, i + 1);
        let e = digit_run_end(b, i);
        assert forall|k: int| 0 <= k < e - i implies is_digit_byte(#[trigger] b.subrange(i, e)[k]) by {
            if k > 0 {
                assert(b.subrange(i, e)[k] == b.subrange(i + 1, e)[k - 1]);
            }
        }
    }
}

/// Index just past the ASCII digits starting at `i`.
pub fn scan_digits(bytes: &[u8], i: usize) -> (r: usize)
    requires
        i <= bytes@.len(),
    ensures
        r == digit_run_end(bytes@, i as int),
{
    let mut e = i;
    while e < bytes.len() && digit_byte(bytes[e])
        invariant
            i <= e <= bytes@.len(),
            digit_run_end(bytes@, i as int) == digit_run_end(bytes@, e as int),
        decreases bytes@.len() - e,
    {
        e += 1;
    }
    e
}

} // verus!

verus! {

/// `s` without its leading Unicode whitespace (`str::trim_start`).
pub open spec fn trim_start_chars(s: Seq<char>) -> Seq<char>
    decreases s.len(),
{
    if s.len() > 0 && is_unicode_ws(s[0]) {
        trim_start_chars(s.drop_first())
    } else {
        s
    }
}

/// `s` without its trailing Unicode whitespace (`str::trim_end`).
pub open spec fn trim_end_chars(s: Seq<char>) -> Seq<char>
    decreases s.len(),
{
    if s.len() > 0 && is_unicode_ws(s.last()) {
        trim_end_chars(s.drop_last())
    } else {
        s
    }
}

/// `s` without leading and trailing Unicode whitespace (`str::trim`).
pub open spec fn trim_chars(s: Seq<char>) -> Seq<char> {
    trim_end_chars(trim_start_chars(s))
}

/// Index of the first character of `s[from..to]` that is not whitespace
/// (or `to`).
pub fn skip_ws_forward(s: &[char], from: usize, to: usize) -> (r: usize)
    requires
        from <= to <= s@.len(),
    ensures
        from <= r <= to,
        trim_start_chars(s@.subrange(from as int, to as int)) == s@.subrange(r as int, to as int),
{
    let mut i = from;
    while i < to && whitespace_char(s[i])
        invariant
            from <= i <= to <= s@.len(),
            trim_start_chars(s@.subrange(from as int, to as int)) == trim_start_chars(s@.subrange(i as int, to as int)),
        decreases to - i,
    {
        assert(s@.subrange(i as int, to as int).drop_first() =~= s@.subrange(i + 1, to as int));
        i += 1;
    }
    if i < to {
        assert(!is_unicode_ws(s@.subrange(i as int, to as int)[0]));
    }
    i
}

/// Index just past the last character of `s[from..to]` that is not
/// whitespace (or `from`).
pub fn skip_ws_backward(s: &[char], from: usize, to: usize) -> (r: usize)
    requires
        from <= to <= s@.len(),
    ensures
        from <= r <= to,
        trim_end_chars(s@.subrange(from as int, to as int)) == s@.subrange(from as int, r as int),
{
    let mut j = to;
    while j > from && whitespace_char(s[j - 1])
        invariant
            from <= j <= to <= s@.len(),
            trim_end_chars(s@.subrange(from as int, to as int)) == trim_end_chars(s@.subrange(from as int, j as int)),
        decreases j,
    {
        assert(s@.subrange(from as int, j as int).drop_last() =~= s@.subrange(from as int, j - 1));
        j -= 1;
    }
    proof {
        lemma_trim_end_stop(s@, from as int, j as int);
    }
    j
}

proof fn lemma_trim_end_stop(s: Seq<char>, from: int, j: int)
    requires
        0 <= from <= j <= s.len(),
        j > from ==> !is_unicode_ws(s[j - 1]),
    ensures
        trim_end_chars(s.subrange(from, j)) == s.subrange(from, j),
{
    if j > from {
        assert(s.subrange(from, j).last() == s[j - 1]);
    }
}

/// Decimal value of a run of ASCII digit characters.
pub open spec fn char_digits_value(s: Seq<char>) -> nat
    decreases s.len(),
{
    if s.len() == 0 {
        0
    } else {
        char_digits_value(s.drop_last()) * 10 + (s.last() as u32 - 48) as nat
    }
}

pub open spec fn is_digit_char(c: char) -> bool {
    '0' <= c <= '9'
}

/// Every character of `d` is an ASCII digit.
pub open spec fn all_digit_chars(d: Seq<char>) -> bool {
    forall|i: int| 0 <= i < d.len() ==> is_digit_char(#[trigger] d[i])
}

/// `s` without one leading `+`, if it has one.
pub open spec fn strip_plus(s: Seq<char>) -> Seq<char> {
    if s.len() > 0 && s[0] == '+' { s.drop_first() } else { s }
}

/// One or more ASCII digits whose value fits in a `u32`.
pub open spec fn parse_unsigned_digits(d: Seq<char>) -> Option<u32> {
    if d.len() == 0 || !all_digit_chars(d) {
        None
    } else if char_digits_value(d) > u32::MAX {
        None
    } else {
        Some(char_digits_value(d) as u32)
    }
}

/// What `str::parse::<u32>` gives for the characters `s`: an optional
/// leading `+`, then one or more ASCII digits whose value fits.
pub open spec fn parse_u32_chars(s: Seq<char>) -> Option<u32> {
    parse_unsigned_digits(strip_plus(s))
}

proof fn lemma_char_digits_monotone(s: Seq<char>, j: int, k: int)
    requires
        0 <= j <= k <= s.len(),
        forall|i: int| 0 <= i < s.len() ==> is_digit_char(#[trigger] s[i]),
    ensures
        char_digits_value(s.subrange(0, j)) <= char_digits_value(s.subrange(0, k)),
    decreases k - j,
{
    if j < k {
        lemma_char_digits_monotone(s, j, k - 1);
        assert(s.subrange(0, k).drop_last() =~= s.subrange(0, k - 1));
    }
}

/// `str::parse::<u32>` on the characters `s[from..to]`.
pub fn parse_u32_slice(s: &[char], from: usize, to: usize) -> (r: Option<u32>)
    requires
        from <= to <= s@.len(),
    ensures
        r == parse_u32_chars(s@.subrange(from as int, to as int)),
{
    let ghost full = s@.subrange(from as int, to as int);
    let mut start = from;
    if start < to && s[start] == '+' {
        start += 1;
    }
    let ghost d = s@.subrange(start as int, to as int);
    proof {
        if from < to && s@[from as int] == '+' {
            assert(full.drop_first() =~= d);
        } else {
            assert(full =~= d);
        }
    }
    if start == to {
        return None;
    }
    let mut i = start;
    while i < to
        invariant
            from <= start <= i <= to <= s@.len(),
            d == s@.subrange(start as int, to as int),
            full == s@.subrange(from as int, to as int),
            d == strip_plus(full),
            forall|k: int| 0 <= k < i - start ==> is_digit_char(#[trigger] d[k]),
        decreases to - i,
    {
        assert(d[i - start] == s@[i as int]);
        if !('0' <= s[i] && s[i] <= '9') {
            assert(!is_digit_char(d[i - start]));
            return None;
        }
        i += 1;
    }
    let mut value: u32 = 0;
    let mut i = start;
    while i < to
        invariant
            from <= start <= i <= to <= s@.len(),
            d == s@.subrange(start as int, to as int),
            full == s@.subrange(from as int, to as int),
            d == strip_plus(full),
            forall|k: int| 0 <= k < d.len() ==> is_digit_char(#[trigger] d[k]),
            value as nat == char_digits_value(d.subrange(0, i - start)),
        decreases to - i,
    {
        assert(d.subrange(0, i - start + 1).drop_last() =~= d.subrange(0, i - start));
        assert(is_digit_char(d[i - start]));
        let dig = (s[i] as u32) - 48;
        if value > 429496729u32 || (value == 429496729u32 && dig > 5) {
            proof {
                lemma_char_digits_monotone(d, i - start + 1, d.len() as int);
                assert(d.subrange(0, d.len() as int) =~= d);
            }
            return None;
        }
        value = value * 10 + dig;
        i += 1;
    }
    assert(d.subrange(0, to - start) =~= d);
    Some(value)
}

} // verus!

verus! {

/// First index at or after `i` where `s` holds `c`, or `s.len()`.
pub open spec fn char_find(s: Seq<char>, c: char, i: int) -> int
    decreases s.len() - i,
{
    if i < 0 {
        0
    } else if i >= s.len() {
        s.len() as int
    } else if s[i] == c {
        i
    } else {
        char_find(s, c, i + 1)
    }
}

pub proof fn lemma_char_find(s: Seq<char>, c: char, i: int)
    requires
        0 <= i <= s.len(),
    ensures
        i <= char_find(s, c, i) <= s.len(),
        forall|k: int| i <= k < char_find(s, c, i) ==> s[k] != c,
        char_find(s, c, i) < s.len() ==> s[char_find(s, c, i)] == c,
    decreases s.len() - i,
{
    if i < s.len() && s[i] != c {
        lemma_char_find(s, c, i + 1);
    }
}

/// First index of `c` in `s[from..to]`, or `to`.
pub fn find_char(s: &[char], c: char, from: usize, to: usize) -> (r: usize)
    requires
        from <= to <= s@.len(),
    ensures
        from <= r <= to,
        r == from + char_find(s@.subrange(from as int, to as int), c, 0),
{
    let ghost sub = s@.subrange(from as int, to as int);
    let mut i = from;
    while i < to && s[i] != c
        invariant
            from <= i <= to <= s@.len(),
            sub == s@.subrange(from as int, to as int),
            char_find(sub, c, 0) == char_find(sub, c, i - from),
        decreases to - i,
    {
        assert(sub[i - from] == s@[i as int]);
        i += 1;
    }
    if i < to {
        assert(sub[i - from] == s@[i as int]);
    }
    i
}

/// Lines of a character sequence: split on `\n`, pieces kept with any
/// trailing `\r`.
pub open spec fn char_split_state(s: Seq<char>, n: int) -> (Seq<Seq<char>>, Seq<char>)
    decreases n,
{
    if n <= 0 {
        (Seq::empty(), Seq::empty())
    } else {
        let prev = char_split_state(s, n - 1);
        if s[n - 1] == '\n' {
            (prev.0.push(prev.1), Seq::empty())
        } else {
            (prev.0, prev.1.push(s[n - 1]))
        }
    }
}

/// A line without one trailing `\r`, if it has one.
pub open spec fn strip_cr_chars(l: Seq<char>) -> Seq<char> {
    if l.len() > 0 && l.last() == '\r' { l.drop_last() } else { l }
}

/// The lines of `s`, split on `\n` with a trailing `\r` removed from each.
pub open spec fn char_lines(s: Seq<char>) -> Seq<Seq<char>> {
    let st = char_split_state(s, s.len() as int);
    st.0.push(st.1).map_values(|l: Seq<char>| strip_cr_chars(l))
}

/// The `[start, end)` ranges of the lines of `s` (see [`char_lines`]).
pub fn char_line_ranges(s: &[char]) -> (r: Vec<(usize, usize)>)
    ensures
        r@.len() == char_lines(s@).len(),
        forall|i: int| 0 <= i < r@.len() ==> (#[trigger] r@[i]).0 <= r@[i].1 <= s@.len()
            && s@.subrange(r@[i].0 as int, r@[i].1 as int) == char_lines(s@)[i],
{
    let mut out: Vec<(usize, usize)> = Vec::new();
    let mut start: usize = 0;
    let mut i: usize = 0;
    while i < s.len()
        invariant
            start <= i <= s@.len(),
            char_split_state(s@, i as int).1 == s@.subrange(start as int, i as int),
            out@.len() == char_split_state(s@, i as int).0.len(),
            forall|k: int| 0 <= k < out@.len() ==> (#[trigger] out@[k]).0 <= out@[k].1 <= s@.len()
                && s@.subrange(out@[k].0 as int, out@[k].1 as int) == strip_cr_chars(char_split_state(s@, i as int).0[k]),
        decreases s@.len() - i,
    {
        if s[i] == '\n' {
            let end = if i > start && s[i - 1] == '\r' { i - 1 } else { i };
            proof {
                let piece = s@.subrange(start as int, i as int);
                if end < i {
                    assert(piece.drop_last() =~= s@.subrange(start as int, end as int));
                } else {
                    assert(piece =~= s@.subrange(start as int, end as int));
                }
            }
            out.push((start, end));
            start = i + 1;
            proof {
                assert(s@.subrange(start as int, i + 1) =~= Seq::<char>::empty());
            }
        } else {
            proof {
                assert(s@.subrange(start as int, i + 1) =~= s@.subrange(start as int, i as int).push(s@[i as int]));
            }
        }
        i += 1;
    }
    let end = if s.len() > start && s[s.len() - 1] == '\r' { s.len() - 1 } else { s.len() };
    proof {
        let piece = s@.subrange(start as int, s@.len() as int);
        if end < s@.len() {
            assert(piece.drop_last() =~= s@.subrange(start as int, end as int));
        } else {
            assert(piece =~= s@.subrange(start as int, end as int));
        }
    }
    out.push((start, end));
    out
}

} // verus!

verus! {

/// The ASCII character of decimal digit `d` (`0 <= d < 10`).
pub open spec fn digit_char(d: nat) -> char {
    ((d + 48) as u8) as char
}

/// Decimal representation of `n` without leading zeros (`"0"` for zero).
pub open spec fn dec_chars(n: nat) -> Seq<char>
    decreases n,
{
    if n < 10 {
        seq![digit_char(n)]
    } else {
        dec_chars(n / 10).push(digit_char(n % 10))
    }
}

/// Appends the decimal representation of `n` to `s`.
pub fn push_decimal(s: &mut String, n: u32)
    ensures
        final(s)@ == old(s)@ + dec_chars(n as nat),
    decreases n,
{
    if n >= 10 {
        push_decimal(s, n / 10);
    }
    let d = (n % 10) as u8;
    s.push((d + 48u8) as char);
    proof {
        if n < 10 {
            assert(old(s)@ + dec_chars(n as nat) =~= old(s)@.push(digit_char(n as nat)));
        } else {
            assert(old(s)@ + dec_chars(n as nat) =~= (old(s)@ + dec_chars((n / 10) as nat)).push(digit_char((n % 10) as nat)));
        }
    }
}

/// Appends the characters of `t` to `s`.
pub fn push_chars(s: &mut String, t: &[char])
    ensures
        final(s)@ == old(s)@ + t@,
{
    let mut i: usize = 0;
    while i < t.len()
        invariant
            i <= t@.len(),
            s@ == old(s)@ + t@.subrange(0, i as int),
        decreases t@.len() - i,
    {
        s.push(t[i]);
        assert(old(s)@ + t@.subrange(0, i + 1) =~= (old(s)@ + t@.subrange(0, i as int)).push(t@[i as int]));
        i += 1;
    }
    assert(t@.subrange(0, t@.len() as int) =~= t@);
}

/// Appends the characters of `t` to `s`.
pub fn push_string(s: &mut String, t: &String)
    ensures
        final(s)@ == old(s)@ + t@,
{
    let chars = str_chars(t.as_str());
    push_chars(s, chars.as_slice());
}

} // verus!

verus! {

/// First index at or after `i` where `b` holds `x`, or `b.len()`.
pub open spec fn byte_find(b: Seq<u8>, x: u8, i: int) -> int
    decreases b.len() - i,
{
    if i < 0 {
        0
    } else if i >= b.len() {
        b.len() as int
    } else if b[i] == x {
        i
    } else {
        byte_find(b, x, i + 1)
    }
}

pub proof fn lemma_byte_find(b: Seq<u8>, x: u8, i: int)
    requires
        0 <= i <= b.len(),
    ensures
        i <= byte_find(b, x, i) <= b.len(),
        forall|k: int| i <= k < byte_find(b, x, i) ==> b[k] != x,
        byte_find(b, x, i) < b.len() ==> b[byte_find(b, x, i)] == x,
    decreases b.len() - i,
{
    if i < b.len() && b[i] != x {
        lemma_byte_find(b, x, i + 1);
    }
}

/// First index of `x` in `bytes[from..to]`, or `to`.
pub fn find_byte(bytes: &[u8], x: u8, from: usize, to: usize) -> (r: usize)
    requires
        from <= to <= bytes@.len(),
    ensures
        from <= r <= to,
        r == from + byte_find(bytes@.subrange(from as int, to as int), x, 0),
{
    let ghost sub = bytes@.subrange(from as int, to as int);
    let mut i = from;
    while i < to && bytes[i] != x
        invariant
            from <= i <= to <= bytes@.len(),
            sub == bytes@.subrange(from as int, to as int),
            byte_find(sub, x, 0) == byte_find(sub, x, i - from),
        decreases to - i,
    {
        assert(sub[i - from] == bytes@[i as int]);
        i += 1;
    }
    if i < to {
        assert(sub[i - from] == bytes@[i as int]);
    }
    i
}

/// Searching a suffix of `b` is searching `b` from the suffix's start.
pub proof fn lemma_byte_find_suffix(b: Seq<u8>, x: u8, from: int, k: int)
    requires
        0 <= from <= b.len(),
        0 <= k <= b.len() - from,
    ensures
        byte_find(b.subrange(from, b.len() as int), x, k) + from == byte_find(b, x, from + k),
    decreases b.len() - from - k,
{
    if from + k < b.len() && b[from + k] != x {
        lemma_byte_find_suffix(b, x, from, k + 1);
    }
}

} // verus!

verus! {

/// The characters of `s` with surrounding whitespace removed
/// (`str::trim`).
pub fn trimmed_chars(s: &str) -> (r: Vec<char>)
    ensures
        r@ == trim_chars(s@),
{
    let chars = str_chars(s);
    let a = skip_ws_forward(chars.as_slice(), 0, chars.len());
    let b = skip_ws_backward(chars.as_slice(), a, chars.len());
    assert(chars@.subrange(0, chars@.len() as int) =~= chars@);
    let mut out: Vec<char> = Vec::new();
    let mut i = a;
    while i < b
        invariant
            a <= i <= b <= chars@.len(),
            out@ == chars@.subrange(a as int, i as int),
        decreases b - i,
    {
        out.push(chars[i]);
        assert(chars@.subrange(a as int, i + 1) =~= chars@.subrange(a as int, i as int).push(chars@[i as int]));
        i += 1;
    }
    out
}

/// ASCII letter or digit character.
pub open spec fn is_alnum_char(c: char) -> bool {
    ('0' <= c <= '9') || ('a' <= c <= 'z') || ('A' <= c <= 'Z')
}

/// ASCII lowercase of `c`.
pub open spec fn ascii_lower(c: char) -> char {
    if 'A' <= c <= 'Z' { ((c as u8) + 32u8) as char } else { c }
}

pub fn to_ascii_lower(c: char) -> (r: char)
    ensures
        r == ascii_lower(c),
{
    if 'A' <= c && c <= 'Z' {
        ((c as u8) + 32u8) as char
    } else {
        c
    }
}

/// Index just past the ASCII digit characters of `s` from `i`.
pub open spec fn char_digit_run_end(s: Seq<char>, i: int) -> int
    decreases s.len() - i,
{
    if 0 <= i < s.len() && is_digit_char(s[i]) {
        char_digit_run_end(s, i + 1)
    } else {
        i
    }
}

pub fn scan_digit_chars(s: &[char], i: usize) -> (r: usize)
    requires
        i <= s@.len(),
    ensures
        i <= r <= s@.len(),
        r == char_digit_run_end(s@, i as int),
{
    let mut e = i;
    while e < s.len() && '0' <= s[e] && s[e] <= '9'
        invariant
            i <= e <= s@.len(),
            char_digit_run_end(s@, i as int) == char_digit_run_end(s@, e as int),
        decreases s@.len() - e,
    {
        e += 1;
    }
    e
}

} // verus!

verus! {

/// Whether `a` and `b` hold the same characters (`&str == &str`).
pub fn str_eq(a: &str, b: &str) -> (r: bool)
    ensures
        r == (a@ == b@),
{
    let x = str_chars(a);
    let y = str_chars(b);
    if x.len() != y.len() {
        return false;
    }
    let mut i: usize = 0;
    while i < x.len()
        invariant
            i <= x@.len(),
            x@ == a@,
            y@ == b@,
            x@.len() == y@.len(),
            forall|k: int| 0 <= k < i ==> x@[k] == y@[k],
        decreases x@.len() - i,
    {
        if x[i] != y[i] {
            return false;
        }
        i += 1;
    }
    assert(x@ =~= y@);
    true
}

} // verus!

verus! {

/// The characters `s[a..b]`.
pub fn chars_between(s: &[char], a: usize, b: usize) -> (r: Vec<char>)
    requires
        a <= b <= s@.len(),
    ensures
        r@ == s@.subrange(a as int, b as int),
{
    let mut out: Vec<char> = Vec::new();
    let mut j = a;
    while j < b
        invariant
            a <= j <= b <= s@.len(),
            out@ == s@.subrange(a as int, j as int),
        decreases b - j,
    {
        out.push(s[j]);
        assert(s@.subrange(a as int, j + 1) =~= s@.subrange(a as int, j as int).push(s@[j as int]));
        j += 1;
    }
    out
}

/// The lines `str::lines` yields: split on `\n`; a line ended by `\n`
/// loses one trailing `\r`; a final empty piece is dropped.
pub open spec fn std_lines(s: Seq<char>) -> Seq<Seq<char>> {
    let st = char_split_state(s, s.len() as int);
    let done = st.0.map_values(|l: Seq<char>| strip_cr_chars(l));
    if st.1.len() == 0 { done } else { done.push(st.1) }
}

/// The `[start, end)` ranges of the lines of `s` (see [`std_lines`]).
pub fn std_line_ranges(s: &[char]) -> (r: Vec<(usize, usize)>)
    ensures
        r@.len() == std_lines(s@).len(),
        forall|i: int| 0 <= i < r@.len() ==> (#[trigger] r@[i]).0 <= r@[i].1 <= s@.len()
            && s@.subrange(r@[i].0 as int, r@[i].1 as int) == std_lines(s@)[i],
{
    let mut out: Vec<(usize, usize)> = Vec::new();
    let mut start: usize = 0;
    let mut i: usize = 0;
    while i < s.len()
        invariant
            start <= i <= s@.len(),
            char_split_state(s@, i as int).1 == s@.subrange(start as int, i as int),
            out@.len() == char_split_state(s@, i as int).0.len(),
            forall|k: int| 0 <= k < out@.len() ==> (#[trigger] out@[k]).0 <= out@[k].1 <= s@.len()
                && s@.subrange(out@[k].0 as int, out@[k].1 as int) == strip_cr_chars(char_split_state(s@, i as int).0[k]),
        decreases s@.len() - i,
    {
        if s[i] == '\n' {
            let end = if i > start && s[i - 1] == '\r' { i - 1 } else { i };
            proof {
                let piece = s@.subrange(start as int, i as int);
                if end < i {
                    assert(piece.drop_last() =~= s@.subrange(start as int, end as int));
                } else {
                    assert(piece =~= s@.subrange(start as int, end as int));
                }
            }
            out.push((start, end));
            start = i + 1;
            proof {
                assert(s@.subrange(start as int, i + 1) =~= Seq::<char>::empty());
            }
        } else {
            proof {
                assert(s@.subrange(start as int, i + 1) =~= s@.subrange(start as int, i as int).push(s@[i as int]));
            }
        }
        i += 1;
    }
    if start < s.len() {
        out.push((start, s.len()));
    }
    proof {
        let st = char_split_state(s@, s@.len() as int);
        let done = st.0.map_values(|l: Seq<char>| strip_cr_chars(l));
        if st.1.len() == 0 {
            assert(std_lines(s@) == done);
        }
    }
    out
}

} // verus!

