//! Leading track selector parsing.
//!
//! A ctrmml track line starts with a leading selector naming the tracks
//! the following MML applies to:
//!
//! - `A`..`Z` map to tracks `0`..`25`
//! - bare digits map to tracks `26`..`35`
//! - `*<num>` addresses an explicit track
//!
//! The selector must be followed by whitespace (or end of line).

use vstd::prelude::*;
use vstd::string::StringSliceAdditionalSpecFns;
use vstd::utf8::encode_utf8;
use crate::strings::{is_digit_byte, digit_byte, digits_value, digit_run_end, lemma_digit_run_end, scan_digits, parse_digits_u32};

verus! {

/// One letter/digit/star token within a leading selector.
#[derive(Debug, Clone, Copy, PartialEq, Eq)]
pub struct LeadingTrackSpan {
    pub track_id: u32,
    /// Byte offset of the span start within the line.
    pub start: usize,
    /// Byte offset just past the span end.
    pub end: usize,
}

/// A leading track selector parsed from the start of a line.
#[derive(Debug, Clone, PartialEq, Eq)]
pub struct LeadingTrackSelector {
    pub spans: Vec<LeadingTrackSpan>,
    /// Byte offset just past the last span (before any trailing whitespace).
    pub end: usize,
}

/// Source of line content addressed by 1-based line number.
pub trait LineReader {
    /// The characters of line `line_number`.
    spec fn spec_line(&self, line_number: u32) -> Seq<char>;

    /// The total number of lines.
    spec fn spec_line_count(&self) -> u32;

    fn get_line_content(&self, line_number: u32) -> (r: &str)
        ensures
            r@ == self.spec_line(line_number),
    ;

    /// Total number of lines, 1-based.
    fn get_line_count(&self) -> (r: u32)
        ensures
            r == self.spec_line_count(),
    ;
}

/// The UTF-8 bytes of line `n` of `m`.
pub open spec fn line_bytes<R: LineReader>(m: &R, n: u32) -> Seq<u8> {
    encode_utf8(m.spec_line(n))
}

/// Parses the selector tokens from byte `idx` onward: the spans found and
/// the offset where the selector ends, or `None` when a byte that cannot
/// belong to a selector comes before whitespace / end of line.
pub open spec fn selector_from(b: Seq<u8>, idx: int) -> Option<(Seq<LeadingTrackSpan>, int)>
    decreases b.len() - idx,
{
    if idx < 0 || idx >= b.len() || b[idx] == 0x20u8 || b[idx] == 0x09u8 {
        Some((Seq::empty(), idx))
    } else if 0x41u8 <= b[idx] <= 0x5Au8 {
        match selector_from(b, idx + 1) {
            Some((rest, e)) => Some((
                seq![LeadingTrackSpan { track_id: (b[idx] - 0x41u8) as u32, start: idx as usize, end: (idx + 1) as usize }] + rest,
                e,
            )),
            None => None,
        }
    } else if is_digit_byte(b[idx]) {
        match selector_from(b, idx + 1) {
            Some((rest, e)) => Some((
                seq![LeadingTrackSpan { track_id: (26 + (b[idx] - 0x30u8)) as u32, start: idx as usize, end: (idx + 1) as usize }] + rest,
                e,
            )),
            None => None,
        }
    } else if b[idx] == 0x2Au8 {
        let end = digit_run_end(b, idx + 1);
        proof {
            lemma_digit_run_end(b, idx + 1);
        }
        if end == idx + 1 || digits_value(b.subrange(idx + 1, end)) > u32::MAX {
            None
        } else {
            match selector_from(b, end) {
                Some((rest, e)) => Some((
                    seq![LeadingTrackSpan { track_id: digits_value(b.subrange(idx + 1, end)) as u32, start: idx as usize, end: end as usize }] + rest,
                    e,
                )),
                None => None,
            }
        }
    } else {
        None
    }
}

/// The leading track selector of the line with bytes `b`, as
/// `(spans, end)`.
pub open spec fn leading_selector(b: Seq<u8>) -> Option<(Seq<LeadingTrackSpan>, int)> {
    if b.len() == 0 || b[0] <= 0x20u8 || b[0] == 0x3Bu8 || b[0] == 0x23u8 || b[0] == 0x40u8 {
        None
    } else {
        match selector_from(b, 0) {
            Some((spans, e)) => if spans.len() > 0 { Some((spans, e)) } else { None },
            None => None,
        }
    }
}

/// `sel` is the parse `leading_selector` describes.
pub open spec fn selector_matches(sel: LeadingTrackSelector, p: (Seq<LeadingTrackSpan>, int)) -> bool {
    sel.spans@ == p.0 && sel.end as int == p.1
}

/// Parse a ctrmml leading track selector starting exactly at column 0 of
/// `line`. Returns `None` when the line does not begin with a valid
/// selector.
pub fn parse_leading_track_selector(line: &str) -> (r: Option<LeadingTrackSelector>)
    ensures
        match leading_selector(line.spec_bytes()) {
            None => r is None,
            Some(p) => r matches Some(sel) && selector_matches(sel, p),
        },
{
    let bytes = line.as_bytes();
    let ghost b = line.spec_bytes();
    if bytes.len() == 0 {
        return None;
    }
    let first = bytes[0];
    if first <= 0x20u8 || first == 0x3Bu8 || first == 0x23u8 || first == 0x40u8 {
        return None;
    }
    let mut spans: Vec<LeadingTrackSpan> = Vec::new();
    let mut idx: usize = 0;
    while idx < bytes.len() && bytes[idx] != 0x20u8 && bytes[idx] != 0x09u8
        invariant
            b == bytes@,
            b == line.spec_bytes(),
            idx <= b.len(),
            selector_from(b, 0) == match selector_from(b, idx as int) {
                Some((rest, e)) => Some((spans@ + rest, e)),
                None => None::<(Seq<LeadingTrackSpan>, int)>,
            },
        decreases b.len() - idx,
    {
        let ch = bytes[idx];
        if 0x41u8 <= ch && ch <= 0x5Au8 {
            let ghost old_spans = spans@;
            let sp = LeadingTrackSpan { track_id: (ch - 0x41u8) as u32, start: idx, end: idx + 1 };
            spans.push(sp);
            proof {
                match selector_from(b, idx + 1) {
                    Some((rest, e)) => {
                        assert(old_spans + (seq![sp] + rest) =~= spans@ + rest);
                    },
                    None => {},
                }
            }
            idx += 1;
            continue;
        }
        if digit_byte(ch) {
            let ghost old_spans = spans@;
            let sp = LeadingTrackSpan { track_id: 26 + (ch - 0x30u8) as u32, start: idx, end: idx + 1 };
            spans.push(sp);
            proof {
                match selector_from(b, idx + 1) {
                    Some((rest, e)) => {
                        assert(old_spans + (seq![sp] + rest) =~= spans@ + rest);
                    },
                    None => {},
                }
            }
            idx += 1;
            continue;
        }
        if ch == 0x2Au8 {
            let end = scan_digits(bytes, idx + 1);
            proof {
                lemma_digit_run_end(b, idx + 1);
            }
            if end == idx + 1 {
                return None;
            }
            let track_id = match parse_digits_u32(bytes, idx + 1, end) {
                Some(v) => v,
                None => {
                    return None;
                },
            };
            let ghost old_spans = spans@;
            let sp = LeadingTrackSpan { track_id, start: idx, end };
            spans.push(sp);
            proof {
                match selector_from(b, end as int) {
                    Some((rest, e)) => {
                        assert(old_spans + (seq![sp] + rest) =~= spans@ + rest);
                    },
                    None => {},
                }
            }
            idx = end;
            continue;
        }
        return None;
    }
    proof {
        assert(selector_from(b, idx as int) == Some((Seq::<LeadingTrackSpan>::empty(), idx as int)));
        assert(spans@ + Seq::<LeadingTrackSpan>::empty() =~= spans@);
    }
    if spans.len() == 0 {
        return None;
    }
    Some(LeadingTrackSelector { spans, end: idx })
}

/// The nearest line at or before `n` (walking down to line 1) that
/// begins with a leading track selector, with that line's number.
pub open spec fn enclosing_selector<R: LineReader>(m: &R, n: u32) -> Option<((Seq<LeadingTrackSpan>, int), u32)>
    decreases n,
{
    match leading_selector(line_bytes(m, n)) {
        Some(p) => Some((p, n)),
        None => if n <= 1 { None } else { enclosing_selector(m, (n - 1) as u32) },
    }
}

/// Walk backward from `line_number` to find the nearest line that begins
/// with a leading track selector. `line_number` is 1-based.
pub fn find_enclosing_track_selector<R: LineReader>(model: &R, line_number: u32) -> (r: Option<LeadingTrackSelector>)
    requires
        line_number >= 1 || leading_selector(line_bytes(model, line_number)) is Some,
    ensures
        match enclosing_selector(model, line_number) {
            None => r is None,
            Some((p, _)) => r matches Some(sel) && selector_matches(sel, p),
        },
{
    match find_enclosing_track_selector_at(model, line_number) {
        Some((sel, _)) => Some(sel),
        None => None,
    }
}

/// Same as [`find_enclosing_track_selector`] but also returns the 1-based
/// line number where the selector was found.
pub fn find_enclosing_track_selector_at<R: LineReader>(model: &R, line_number: u32) -> (r: Option<(LeadingTrackSelector, u32)>)
    requires
        line_number >= 1 || leading_selector(line_bytes(model, line_number)) is Some,
    ensures
        match enclosing_selector(model, line_number) {
            None => r is None,
            Some((p, ln)) => r matches Some((sel, rl)) && rl == ln && selector_matches(sel, p),
        },
{
    let mut ln = line_number;
    loop
        invariant
            ln <= line_number,
            ln >= 1 || leading_selector(line_bytes(model, ln)) is Some,
            enclosing_selector(model, line_number) == enclosing_selector(model, ln),
        decreases ln,
    {
        let line = model.get_line_content(ln);
        if let Some(sel) = parse_leading_track_selector(line) {
            return Some((sel, ln));
        }
        if ln == 1 {
            return None;
        }
        ln -= 1;
    }
}

} // verus!
