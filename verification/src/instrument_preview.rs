//! Patch preview helpers.
//!
//! Given an `@N fm|psg|pcm` definition at an anchor line, extract the
//! block text and build a self-contained preview MML that plays it on a
//! caller-chosen channel.
//!
//! All line numbers in and out are 0-based.

use vstd::prelude::*;
use crate::strings::{
    str_chars, char_lines, char_line_ranges, push_chars, push_decimal, trim_start_chars, trim_chars,
    trim_end_chars, skip_ws_forward, skip_ws_backward, is_unicode_ws, whitespace_char, dec_chars, chars_between,
};
use crate::block_finder::{find_block_at, InstrumentKind, block_at, LineDoc, doc_of};
use crate::string_model::{LinesModel, nth_line};
use crate::track_selector::LineReader;

verus! {

/// Instrument category of a preview.
#[derive(Debug, Clone, Copy, PartialEq, Eq)]
pub enum InstrumentType {
    Fm,
    Psg,
    Pcm,
}

/// The block-finder kind of an instrument type.
pub open spec fn type_kind(t: InstrumentType) -> InstrumentKind {
    match t {
        InstrumentType::Fm => InstrumentKind::Fm,
        InstrumentType::Psg => InstrumentKind::Psg,
        InstrumentType::Pcm => InstrumentKind::Pcm,
    }
}

impl InstrumentType {
    /// `fm`, `psg` or `pcm` (exactly, lowercase).
    pub fn parse(s: &str) -> (r: Option<Self>)
        ensures
            r == (if s@ == seq!['f', 'm'] {
                Some(InstrumentType::Fm)
            } else if s@ == seq!['p', 's', 'g'] {
                Some(InstrumentType::Psg)
            } else if s@ == seq!['p', 'c', 'm'] {
                Some(InstrumentType::Pcm)
            } else {
                None
            }),
    {
        let c = str_chars(s);
        if c.len() == 2 && c[0] == 'f' && c[1] == 'm' {
            assert(c@ =~= seq!['f', 'm']);
            return Some(InstrumentType::Fm);
        }
        if c.len() == 3 && c[0] == 'p' && c[1] == 's' && c[2] == 'g' {
            assert(c@ =~= seq!['p', 's', 'g']);
            return Some(InstrumentType::Psg);
        }
        if c.len() == 3 && c[0] == 'p' && c[1] == 'c' && c[2] == 'm' {
            assert(c@ =~= seq!['p', 'c', 'm']);
            return Some(InstrumentType::Pcm);
        }
        proof {
            if c@.len() == 2 {
                assert(c@ != seq!['f', 'm'] ==> (c@[0] != 'f' || c@[1] != 'm'));
            }
        }
        assert(c@ != seq!['f', 'm']);
        assert(c@ != seq!['p', 's', 'g']);
        assert(c@ != seq!['p', 'c', 'm']);
        None
    }

    fn as_kind(self) -> (r: InstrumentKind)
        ensures
            r == type_kind(self),
    {
        match self {
            Self::Fm => InstrumentKind::Fm,
            Self::Psg => InstrumentKind::Psg,
            Self::Pcm => InstrumentKind::Pcm,
        }
    }
}

/// An instrument block cut out of a document.
#[derive(Debug, Clone, PartialEq, Eq)]
pub struct ExtractedBlock {
    pub instrument_number: u32,
    pub instrument_type: InstrumentType,
    pub mml_text: String,
    /// 0-based line index of the `@N` header.
    pub start_line: u32,
    /// 0-based line index of the last content line in the block.
    pub end_line: u32,
}

/// The document `text` as the block finder reads it: split on `\n`, each
/// line without a trailing `\r`, addressed 1-based.
pub open spec fn text_doc(text: Seq<char>) -> LineDoc {
    LineDoc { line: |n: u32| nth_line(char_lines(text), n), count: char_lines(text).len() as u32 }
}

/// Lines `a..=b` of `d`, joined with `\n`.
pub open spec fn joined_lines(d: LineDoc, a: int, b: int) -> Seq<char>
    decreases b - a,
{
    if b <= a {
        (d.line)(a as u32)
    } else {
        joined_lines(d, a, b - 1) + seq!['\n'] + (d.line)(b as u32)
    }
}

/// A `LinesModel` whose lines are `char_lines(text)`.
fn model_of(text: &str) -> (r: LinesModel)
    ensures
        r.lines() == char_lines(text@),
        doc_of(&r) == text_doc(text@),
{
    let chars = str_chars(text);
    let ranges = char_line_ranges(chars.as_slice());
    let mut lines: Vec<String> = Vec::new();
    let mut i: usize = 0;
    while i < ranges.len()
        invariant
            chars@ == text@,
            i <= ranges@.len(),
            ranges@.len() == char_lines(chars@).len(),
            forall|k: int| 0 <= k < ranges@.len() ==> (#[trigger] ranges@[k]).0 <= ranges@[k].1 <= chars@.len()
                && chars@.subrange(ranges@[k].0 as int, ranges@[k].1 as int) == char_lines(chars@)[k],
            lines@.len() == i,
            forall|k: int| 0 <= k < i ==> #[trigger] lines@[k]@ == char_lines(chars@)[k],
        decreases ranges@.len() - i,
    {
        let (a, b) = ranges[i];
        let mut line = String::new();
        let mut j = a;
        while j < b
            invariant
                a <= j <= b <= chars@.len(),
                line@ == chars@.subrange(a as int, j as int),
            decreases b - j,
        {
            line.push(chars[j]);
            assert(chars@.subrange(a as int, j + 1) =~= chars@.subrange(a as int, j as int).push(chars@[j as int]));
            j += 1;
        }
        assert(line@ == char_lines(chars@)[i as int]);
        lines.push(line);
        i += 1;
    }
    let r = LinesModel(lines);
    assert(r.lines() =~= char_lines(text@));
    assert(doc_of(&r).line =~= text_doc(text@).line);
    r
}

/// The block of type `ty` covering 0-based `anchor_line` of `text`.
pub open spec fn spec_extract(text: Seq<char>, anchor_line: u32, ty: InstrumentType) -> Option<InstrumentBlockText> {
    match block_at(text_doc(text), (anchor_line + 1) as u32, type_kind(ty)) {
        None => None,
        Some(b) => Some(InstrumentBlockText {
            instrument_number: b.instrument_number,
            start_line: (b.start_line - 1) as u32,
            end_line: (b.end_line - 1) as u32,
            text: joined_lines(text_doc(text), b.start_line as int, b.end_line as int),
        }),
    }
}

/// The content of an [`ExtractedBlock`], apart from its type.
pub struct InstrumentBlockText {
    pub instrument_number: u32,
    pub start_line: u32,
    pub end_line: u32,
    pub text: Seq<char>,
}

/// Extract the block at `anchor_line` (0-based). Returns `None` when no
/// `@N <type>` definition covers that line.
pub fn extract_instrument_block(text: &str, anchor_line: u32, ty: InstrumentType) -> (r: Option<ExtractedBlock>)
    requires
        anchor_line < u32::MAX,
        crate::block_finder::up_scan_safe(text_doc(text@), (anchor_line + 1) as u32, type_kind(ty)),
    ensures
        match spec_extract(text@, anchor_line, ty) {
            None => r is None,
            Some(e) => r matches Some(x) && x.instrument_number == e.instrument_number
                && x.instrument_type == ty && x.start_line == e.start_line && x.end_line == e.end_line
                && x.mml_text@ == e.text,
        },
{
    let model = model_of(text);
    let one_based = anchor_line + 1;
    let stops: Vec<InstrumentKind> = Vec::new();
    let region = match find_block_at(&model, one_based, ty.as_kind(), stops.as_slice()) {
        Some(b) => b,
        None => {
            return None;
        },
    };
    let ghost d = text_doc(text@);
    proof {
        crate::block_finder::lemma_block_bounds(d, one_based, type_kind(ty));
    }
    let mut out = String::new();
    let first = model.get_line_content(region.start_line);
    let fc = str_chars(first);
    push_chars(&mut out, fc.as_slice());
    let mut i = region.start_line;
    while i < region.end_line
        invariant
            d == text_doc(text@),
            doc_of(&model) == d,
            region.start_line <= i <= region.end_line,
            out@ == joined_lines(d, region.start_line as int, i as int),
        decreases region.end_line - i,
    {
        i += 1;
        out.push('\n');
        let l = model.get_line_content(i);
        let lc = str_chars(l);
        push_chars(&mut out, lc.as_slice());
        assert(out@ =~= joined_lines(d, region.start_line as int, i - 1) + seq!['\n'] + (d.line)(i));
    }
    Some(ExtractedBlock {
        instrument_number: region.instrument_number,
        instrument_type: ty,
        mml_text: out,
        start_line: region.start_line - 1,
        end_line: region.end_line - 1,
    })
}

/// `s` starts with `p`.
pub open spec fn starts_with_chars(s: Seq<char>, p: Seq<char>) -> bool {
    s.len() >= p.len() && s.subrange(0, p.len() as int) == p
}

/// The characters `#platform`.
pub open spec fn platform_tag() -> Seq<char> {
    seq!['#', 'p', 'l', 'a', 't', 'f', 'o', 'r', 'm']
}

/// Index of the first whitespace character of `s` at or after `i`, or
/// `s.len()`.
pub open spec fn ws_index(s: Seq<char>, i: int) -> int
    decreases s.len() - i,
{
    if i < 0 || i >= s.len() || is_unicode_ws(s[i]) { if i < 0 { 0 } else { i } } else { ws_index(s, i + 1) }
}

/// The platform named on the first line of `lines` (from `i`) whose
/// text starts with `#platform` after leading whitespace: the first word
/// after the tag, or `None` when that line names none.
pub open spec fn platform_from(lines: Seq<Seq<char>>, i: int) -> Option<Seq<char>>
    decreases lines.len() - i,
{
    if i < 0 || i >= lines.len() {
        None
    } else {
        let t = trim_start_chars(lines[i]);
        if starts_with_chars(t, platform_tag()) {
            let v = trim_chars(t.subrange(9, t.len() as int));
            if v.len() == 0 { None } else { Some(v.subrange(0, ws_index(v, 0))) }
        } else {
            platform_from(lines, i + 1)
        }
    }
}

pub(crate) fn find_ws(s: &[char], from: usize, to: usize) -> (r: usize)
    requires
        from <= to <= s@.len(),
    ensures
        from <= r <= to,
        r - from == ws_index(s@.subrange(from as int, to as int), 0),
{
    let ghost v = s@.subrange(from as int, to as int);
    let mut i = from;
    while i < to && !whitespace_char(s[i])
        invariant
            from <= i <= to <= s@.len(),
            v == s@.subrange(from as int, to as int),
            ws_index(v, 0) == ws_index(v, i - from),
        decreases to - i,
    {
        assert(v[i - from] == s@[i as int]);
        i += 1;
    }
    if i < to {
        assert(v[i - from] == s@[i as int]);
    }
    i
}

/// The platform named by the first `#platform` line of `text`.
fn detect_platform(text: &str) -> (r: Option<Vec<char>>)
    ensures
        match platform_from(char_lines(text@), 0) {
            None => r is None,
            Some(p) => r matches Some(v) && v@ == p,
        },
{
    let chars = str_chars(text);
    let s = chars.as_slice();
    let ranges = char_line_ranges(s);
    let ghost lines = char_lines(text@);
    let mut i: usize = 0;
    while i < ranges.len()
        invariant
            chars@ == text@,
            s@ == chars@,
            lines == char_lines(text@),
            i <= ranges@.len(),
            ranges@.len() == lines.len(),
            forall|k: int| 0 <= k < ranges@.len() ==> (#[trigger] ranges@[k]).0 <= ranges@[k].1 <= chars@.len()
                && chars@.subrange(ranges@[k].0 as int, ranges@[k].1 as int) == lines[k],
            platform_from(lines, 0) == platform_from(lines, i as int),
        decreases ranges@.len() - i,
    {
        let (a, b) = ranges[i];
        let ghost line = lines[i as int];
        assert(chars@.subrange(a as int, b as int) == line);
        let p = skip_ws_forward(s, a, b);
        let ghost t = trim_start_chars(line);
        assert(t == chars@.subrange(p as int, b as int));
        let tag = ['#', 'p', 'l', 'a', 't', 'f', 'o', 'r', 'm'];
        let mut matches = b - p >= 9;
        let mut k: usize = 0;
        while matches && k < 9
            invariant
                p <= b <= chars@.len(),
                s@ == chars@,
                t == chars@.subrange(p as int, b as int),
                k <= 9,
                forall|m: int| 0 <= m < 9 ==> tag@[m] == platform_tag()[m],
                matches ==> b - p >= 9 && forall|m: int| 0 <= m < k ==> t[m] == platform_tag()[m],
                !matches ==> !starts_with_chars(t, platform_tag()),
            decreases 9 - k + (if matches { 1int } else { 0int }),
        {
            if s[p + k] != tag[k] {
                assert(t[k as int] == chars@[p + k]);
                assert(t.subrange(0, 9)[k as int] != platform_tag()[k as int]);
                matches = false;
            } else {
                assert(t[k as int] == chars@[p + k]);
                k += 1;
            }
        }
        if matches {
            assert(t.subrange(0, 9) =~= platform_tag());
            let q = skip_ws_forward(s, p + 9, b);
            let e = skip_ws_backward(s, q, b);
            proof {
                assert(t.subrange(9, t.len() as int) == chars@.subrange(p + 9, b as int));
            }
            let ghost v = trim_chars(t.subrange(9, t.len() as int));
            assert(v == chars@.subrange(q as int, e as int));
            if q == e {
                return None;
            }
            let w = find_ws(s, q, e);
            let word = chars_between(s, q, w);
            assert(word@ =~= v.subrange(0, ws_index(v, 0)));
            return Some(word);
        }
        i += 1;
    }
    None
}

/// The note line of a preview for `block` on `channel`.
pub open spec fn preview_line(block: ExtractedBlock, channel: Seq<char>) -> Seq<char> {
    channel + seq![' ', '@'] + dec_chars(block.instrument_number as nat) + match block.instrument_type {
        InstrumentType::Pcm => seq![' ', 'o', '4', ' ', 'l', '4', ' ', 'c'],
        _ => seq![' ', 'o', '4', ' ', 'l', '8', ' ', 'c', ' ', 'r', ' ', 'd', ' ', 'r', ' ', 'e', ' ', 'r', ' ', 'f', ' ',
            'r', ' ', 'g', ' ', 'r', ' ', 'a', ' ', 'r', ' ', 'b', ' ', 'r', ' ', '>', 'c', ' ', 'r'],
    }
}

/// The preview document: `#platform <p>`, a blank line, the block, a
/// blank line, the preview line and a final newline. `<p>` is the
/// platform of `text`, `megadrive` when it names none.
pub open spec fn preview_text(text: Seq<char>, block: ExtractedBlock, channel: Seq<char>) -> Seq<char> {
    let platform = match platform_from(char_lines(text), 0) {
        Some(p) => p,
        None => seq!['m', 'e', 'g', 'a', 'd', 'r', 'i', 'v', 'e'],
    };
    platform_tag() + seq![' '] + platform + seq!['\n', '\n'] + block.mml_text@ + seq!['\n', '\n']
        + preview_line(block, channel) + seq!['\n']
}

fn push_str_chars(out: &mut String, s: &str)
    ensures
        final(out)@ == old(out)@ + s@,
{
    let c = str_chars(s);
    push_chars(out, c.as_slice());
}

/// Build a minimal self-contained MML preview that plays the given
/// instrument block on `channel`.
pub fn build_preview_mml(text: &str, block: &ExtractedBlock, channel: &str) -> (r: String)
    ensures
        r@ == preview_text(text@, *block, channel@),
{
    let platform: Vec<char> = match detect_platform(text) {
        Some(p) => p,
        None => vec!['m', 'e', 'g', 'a', 'd', 'r', 'i', 'v', 'e'],
    };
    let tag = ['#', 'p', 'l', 'a', 't', 'f', 'o', 'r', 'm'];
    let mut out = String::new();
    push_chars(&mut out, &tag);
    assert(tag@ =~= platform_tag());
    out.push(' ');
    push_chars(&mut out, platform.as_slice());
    out.push('\n');
    out.push('\n');
    push_str_chars(&mut out, block.mml_text.as_str());
    out.push('\n');
    out.push('\n');
    let ghost before_line = out@;
    push_str_chars(&mut out, channel);
    out.push(' ');
    out.push('@');
    push_decimal(&mut out, block.instrument_number);
    let tail: Vec<char> = match block.instrument_type {
        InstrumentType::Pcm => vec![' ', 'o', '4', ' ', 'l', '4', ' ', 'c'],
        _ => vec![' ', 'o', '4', ' ', 'l', '8', ' ', 'c', ' ', 'r', ' ', 'd', ' ', 'r', ' ', 'e', ' ', 'r', ' ', 'f', ' ',
            'r', ' ', 'g', ' ', 'r', ' ', 'a', ' ', 'r', ' ', 'b', ' ', 'r', ' ', '>', 'c', ' ', 'r'],
    };
    push_chars(&mut out, tail.as_slice());
    assert(out@ =~= before_line + preview_line(*block, channel@));
    out.push('\n');
    assert(out@ =~= preview_text(text@, *block, channel@));
    out
}

} // verus!
