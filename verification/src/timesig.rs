//! Time signature parsing for the `#timesig` meta command:
//! `#timesig 4/4`, `#timesig 3/8`, or `#timesig no` (measure lines off).

use vstd::prelude::*;
use crate::strings::{
    trim_chars, trim_start_chars, is_unicode_ws, parse_u32_chars, char_find, lemma_char_find,
    char_lines, str_chars, char_line_ranges, skip_ws_forward, skip_ws_backward, parse_u32_slice,
    find_char, whitespace_char,
};

verus! {

/// A `numerator / denominator` time signature.
#[derive(Debug, Clone, Copy, PartialEq, Eq)]
pub struct TimeSignature {
    pub numerator: u32,
    pub denominator: u32,
}

/// 4/4, the signature in effect when no `#timesig` is present.
pub open spec fn spec_default_time_signature() -> TimeSignature {
    TimeSignature { numerator: 4, denominator: 4 }
}

/// 4/4, the signature in effect when no `#timesig` is present.
pub fn default_time_signature() -> (r: TimeSignature)
    ensures
        r == spec_default_time_signature(),
{
    TimeSignature { numerator: 4, denominator: 4 }
}

/// The time signature written as `N/D` in `v`: both sides of the first
/// `/` (after trimming whitespace) parse as positive `u32`s.
pub open spec fn spec_parse_time_signature(v: Seq<char>) -> Option<TimeSignature> {
    let t = trim_chars(v);
    let k = char_find(t, '/', 0);
    if k >= t.len() {
        None
    } else {
        match (parse_u32_chars(trim_chars(t.subrange(0, k))), parse_u32_chars(trim_chars(t.subrange(k + 1, t.len() as int)))) {
            (Some(n), Some(d)) => if n == 0 || d == 0 {
                None
            } else {
                Some(TimeSignature { numerator: n, denominator: d })
            },
            _ => None,
        }
    }
}

/// `s[from..to]` trimmed of surrounding whitespace, as a range.
fn trim_range(s: &[char], from: usize, to: usize) -> (r: (usize, usize))
    requires
        from <= to <= s@.len(),
    ensures
        from <= r.0 <= r.1 <= to,
        s@.subrange(r.0 as int, r.1 as int) == trim_chars(s@.subrange(from as int, to as int)),
{
    let a = skip_ws_forward(s, from, to);
    let b = skip_ws_backward(s, a, to);
    (a, b)
}

fn parse_time_signature_range(s: &[char], from: usize, to: usize) -> (r: Option<TimeSignature>)
    requires
        from <= to <= s@.len(),
    ensures
        r == spec_parse_time_signature(s@.subrange(from as int, to as int)),
{
    let ghost v = s@.subrange(from as int, to as int);
    let (a, b) = trim_range(s, from, to);
    let ghost t = s@.subrange(a as int, b as int);
    let k = find_char(s, '/', a, b);
    proof {
        lemma_char_find(t, '/', 0);
    }
    if k >= b {
        return None;
    }
    let (na, nb) = trim_range(s, a, k);
    let (da, db) = trim_range(s, k + 1, b);
    proof {
        assert(t.subrange(0, k - a) =~= s@.subrange(a as int, k as int));
        assert(t.subrange(k - a + 1, t.len() as int) =~= s@.subrange(k + 1, b as int));
    }
    let n = match parse_u32_slice(s, na, nb) {
        Some(n) => n,
        None => {
            return None;
        },
    };
    let d = match parse_u32_slice(s, da, db) {
        Some(d) => d,
        None => {
            return None;
        },
    };
    if n == 0 || d == 0 {
        return None;
    }
    Some(TimeSignature { numerator: n, denominator: d })
}

/// Parse a `"N/D"` string into a [`TimeSignature`], returning `None` for
/// malformed input. Whitespace around the `/` is tolerated; both
/// components must be positive integers.
pub fn parse_time_signature(value: &str) -> (r: Option<TimeSignature>)
    ensures
        r == spec_parse_time_signature(value@),
{
    let chars = str_chars(value);
    assert(chars@.subrange(0, chars@.len() as int) =~= chars@);
    parse_time_signature_range(chars.as_slice(), 0, chars.len())
}

/// The characters of `#timesig`.
pub open spec fn timesig_keyword() -> Seq<char> {
    seq!['#', 't', 'i', 'm', 'e', 's', 'i', 'g']
}

/// The value written on a `#timesig` line (leading whitespace allowed,
/// keyword followed by whitespace or end of line, value cut at `;` and
/// trimmed), or `None` when `line` is not such a line.
pub open spec fn timesig_value(line: Seq<char>) -> Option<Seq<char>> {
    let l = trim_start_chars(line);
    if l.len() < 8 || l.subrange(0, 8) != timesig_keyword() {
        None
    } else {
        let after = l.subrange(8, l.len() as int);
        if after.len() > 0 && !is_unicode_ws(after[0]) {
            None
        } else {
            Some(trim_chars(after.subrange(0, char_find(after, ';', 0))))
        }
    }
}

/// `v` is `no` in any ASCII case.
pub open spec fn is_no(v: Seq<char>) -> bool {
    v.len() == 2 && (v[0] == 'n' || v[0] == 'N') && (v[1] == 'o' || v[1] == 'O')
}

/// Outcome of the first `#timesig` line among `lines[i..]`, if any.
pub open spec fn first_timesig(lines: Seq<Seq<char>>, i: int) -> Option<Option<TimeSignature>>
    decreases lines.len() - i,
{
    if i < 0 || i >= lines.len() {
        None
    } else {
        match timesig_value(lines[i]) {
            Some(v) => if is_no(v) {
                Some(None)
            } else {
                Some(Some(match spec_parse_time_signature(v) {
                    Some(ts) => ts,
                    None => spec_default_time_signature(),
                }))
            },
            None => first_timesig(lines, i + 1),
        }
    }
}

/// The time signature of a document: from its first `#timesig` line
/// (`None` for `#timesig no`, 4/4 for a malformed value), or 4/4 when
/// there is none.
pub open spec fn spec_scan_time_signature(text: Seq<char>) -> Option<TimeSignature> {
    match first_timesig(char_lines(text), 0) {
        Some(r) => r,
        None => Some(spec_default_time_signature()),
    }
}

/// `timesig_value` of the line `s[from..to]`.
fn line_timesig_value(s: &[char], from: usize, to: usize) -> (r: Option<(usize, usize)>)
    requires
        from <= to <= s@.len(),
    ensures
        match timesig_value(s@.subrange(from as int, to as int)) {
            None => r is None,
            Some(v) => r matches Some((a, b)) && a <= b <= s@.len() && s@.subrange(a as int, b as int) == v,
        },
{
    let ghost line = s@.subrange(from as int, to as int);
    let start = skip_ws_forward(s, from, to);
    let ghost l = s@.subrange(start as int, to as int);
    if to - start < 8 {
        return None;
    }
    let kw = ['#', 't', 'i', 'm', 'e', 's', 'i', 'g'];
    let mut j: usize = 0;
    while j < 8
        invariant
            from <= start,
            start + 8 <= to <= s@.len(),
            l == s@.subrange(start as int, to as int),
            trim_start_chars(s@.subrange(from as int, to as int)) == l,
            kw@ == timesig_keyword(),
            j <= 8,
            forall|k: int| 0 <= k < j ==> l[k] == kw@[k],
        decreases 8 - j,
    {
        if s[start + j] != kw[j] {
            proof {
                assert(l[j as int] == s@[start + j]);
                assert(l.subrange(0, 8)[j as int] != timesig_keyword()[j as int]);
            }
            return None;
        }
        j += 1;
    }
    assert(l.subrange(0, 8) =~= timesig_keyword());
    let after = start + 8;
    let ghost a = l.subrange(8, l.len() as int);
    assert(a =~= s@.subrange(after as int, to as int));
    if after < to && !whitespace_char(s[after]) {
        return None;
    }
    let semi = find_char(s, ';', after, to);
    assert(a.subrange(0, char_find(a, ';', 0)) =~= s@.subrange(after as int, semi as int));
    let (va, vb) = trim_range(s, after, semi);
    Some((va, vb))
}

/// Scan MML text for the first `#timesig` line and return its
/// [`TimeSignature`]: `None` for `#timesig no`, the default 4/4 when there
/// is no such line or its value is malformed.
pub fn scan_time_signature(text: &str) -> (r: Option<TimeSignature>)
    ensures
        r == spec_scan_time_signature(text@),
{
    let chars = str_chars(text);
    let ranges = char_line_ranges(chars.as_slice());
    let ghost lines = char_lines(chars@);
    let mut i: usize = 0;
    while i < ranges.len()
        invariant
            chars@ == text@,
            lines == char_lines(chars@),
            ranges@.len() == lines.len(),
            forall|k: int| 0 <= k < ranges@.len() ==> (#[trigger] ranges@[k]).0 <= ranges@[k].1 <= chars@.len()
                && chars@.subrange(ranges@[k].0 as int, ranges@[k].1 as int) == lines[k],
            i <= ranges@.len(),
            first_timesig(lines, 0) == first_timesig(lines, i as int),
        decreases ranges@.len() - i,
    {
        let (ls, le) = ranges[i];
        assert(chars@.subrange(ls as int, le as int) == lines[i as int]);
        match line_timesig_value(chars.as_slice(), ls, le) {
            Some((va, vb)) => {
                if vb - va == 2 && (chars[va] == 'n' || chars[va] == 'N') && (chars[va + 1] == 'o' || chars[va + 1] == 'O') {
                    return None;
                }
                let ghost v = chars@.subrange(va as int, vb as int);
                proof {
                    if v.len() == 2 {
                        assert(v[0] == chars@[va as int] && v[1] == chars@[va + 1]);
                    }
                }
                return match parse_time_signature_range(chars.as_slice(), va, vb) {
                    Some(ts) => Some(ts),
                    None => Some(default_time_signature()),
                };
            },
            None => {},
        }
        i += 1;
    }
    Some(default_time_signature())
}

} // verus!
