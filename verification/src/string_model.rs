//! In-memory [`LineReader`] implementations, addressed 1-based.

use vstd::prelude::*;
use vstd::string::StringSliceAdditionalSpecFns;
use vstd::utf8::{encode_utf8, valid_utf8};
use crate::track_selector::LineReader;
use crate::strings::{str_chars, char_lines, char_line_ranges, chars_between};
use crate::hover::string_of_chars;
use crate::text_scan::{at_boundary, sub_str, lemma_ascii_then_boundary};

verus! {

/// Splitting state over bytes: finished pieces and the piece being read.
pub open spec fn split_state(b: Seq<u8>, n: int) -> (Seq<Seq<u8>>, Seq<u8>)
    decreases n,
{
    if n <= 0 {
        (Seq::empty(), Seq::empty())
    } else {
        let prev = split_state(b, n - 1);
        if b[n - 1] == 0x0Au8 {
            (prev.0.push(prev.1), Seq::empty())
        } else {
            (prev.0, prev.1.push(b[n - 1]))
        }
    }
}

/// A piece with one trailing `\r` removed, if it has one.
pub open spec fn strip_cr(l: Seq<u8>) -> Seq<u8> {
    if l.len() > 0 && l.last() == 0x0Du8 {
        l.drop_last()
    } else {
        l
    }
}

/// The lines of a document: its bytes split on `\n`, each line without
/// a trailing `\r`.
pub open spec fn text_lines(b: Seq<u8>) -> Seq<Seq<u8>> {
    let st = split_state(b, b.len() as int);
    st.0.push(st.1).map_values(|l: Seq<u8>| strip_cr(l))
}

/// The line at 1-based `line_number` of `lines` (line 0 reads as line 1),
/// or an empty line past the end.
pub open spec fn nth_line(lines: Seq<Seq<char>>, line_number: u32) -> Seq<char> {
    let idx = if line_number == 0 { 0 } else { line_number - 1 };
    if idx < lines.len() {
        lines[idx]
    } else {
        Seq::empty()
    }
}

/// A `LineReader` backed by a `Vec<String>`.
pub struct LinesModel(pub Vec<String>);

/// A borrowing line model for read-only scans that should not copy the
/// document text.
pub struct BorrowedLinesModel<'a>(pub Vec<&'a str>);

impl LinesModel {
    pub open spec fn lines(&self) -> Seq<Seq<char>> {
        self.0@.map_values(|s: String| s@)
    }
}

impl<'a> BorrowedLinesModel<'a> {
    pub open spec fn lines(&self) -> Seq<Seq<char>> {
        self.0@.map_values(|s: &'a str| s@)
    }
}

/// Cuts `text` into its lines (see [`text_lines`]) as borrowed slices.
fn split_text_lines<'a>(text: &'a str) -> (r: Vec<&'a str>)
    ensures
        r@.len() == text_lines(text.spec_bytes()).len(),
        forall|i: int| 0 <= i < r@.len() ==> #[trigger] r@[i].spec_bytes() == text_lines(text.spec_bytes())[i],
{
    let bytes = text.as_bytes();
    let ghost b = text.spec_bytes();
    proof {
        vstd::utf8::encode_utf8_valid_utf8(text@);
    }
    let mut out: Vec<&'a str> = Vec::new();
    let mut start: usize = 0;
    let mut i: usize = 0;
    while i < bytes.len()
        invariant
            b == bytes@,
            b == text.spec_bytes(),
            valid_utf8(b),
            start <= i <= b.len(),
            at_boundary(b, start as int),
            split_state(b, i as int).1 == b.subrange(start as int, i as int),
            out@.len() == split_state(b, i as int).0.len(),
            forall|k: int| 0 <= k < out@.len() ==> #[trigger] out@[k].spec_bytes() == strip_cr(split_state(b, i as int).0[k]),
        decreases b.len() - i,
    {
        if bytes[i] == 0x0Au8 {
            let end = if i > start && bytes[i - 1] == 0x0Du8 { i - 1 } else { i };
            proof {
                lemma_ascii_boundaries(b, i as int);
                if end < i {
                    lemma_ascii_boundaries(b, end as int);
                }
                let piece = b.subrange(start as int, i as int);
                if end < i {
                    assert(piece.drop_last() =~= b.subrange(start as int, end as int));
                } else {
                    assert(piece =~= b.subrange(start as int, end as int));
                }
            }
            let line = sub_str(text, start, end);
            out.push(line);
            start = i + 1;
            proof {
                lemma_ascii_boundaries(b, i as int);
                assert(b.subrange(start as int, i + 1) =~= Seq::<u8>::empty());
            }
        } else {
            proof {
                assert(b.subrange(start as int, i + 1) =~= b.subrange(start as int, i as int).push(b[i as int]));
            }
        }
        i += 1;
    }
    let end = if bytes.len() > start && bytes[bytes.len() - 1] == 0x0Du8 { bytes.len() - 1 } else { bytes.len() };
    proof {
        if end < b.len() {
            lemma_ascii_boundaries(b, end as int);
        }
        let piece = b.subrange(start as int, b.len() as int);
        if end < b.len() {
            assert(piece.drop_last() =~= b.subrange(start as int, end as int));
        } else {
            assert(piece =~= b.subrange(start as int, end as int));
        }
    }
    let line = sub_str(text, start, end);
    out.push(line);
    out
}

/// An ASCII byte in valid UTF-8 text is a character on its own: the
/// positions before and after it are boundaries.
proof fn lemma_ascii_boundaries(b: Seq<u8>, i: int)
    requires
        valid_utf8(b),
        0 <= i < b.len(),
        b[i] < 0x80u8,
    ensures
        at_boundary(b, i),
        at_boundary(b, i + 1),
{
    if i + 1 < b.len() {
        lemma_ascii_then_boundary(b, i);
    }
}


impl<'a> BorrowedLinesModel<'a> {
    /// Index the document's lines while retaining borrowed slices.
    pub fn from_text(text: &'a str) -> (r: Self)
        ensures
            r.0@.len() == text_lines(text.spec_bytes()).len(),
            forall|i: int| 0 <= i < r.0@.len() ==> #[trigger] encode_utf8(r.lines()[i]) == text_lines(text.spec_bytes())[i],
    {
        let lines = split_text_lines(text);
        let r = BorrowedLinesModel(lines);
        assert forall|i: int| 0 <= i < r.0@.len() implies #[trigger] encode_utf8(r.lines()[i]) == text_lines(text.spec_bytes())[i] by {
            assert(r.lines()[i] == r.0@[i]@);
            assert(r.0@[i].spec_bytes() == text_lines(text.spec_bytes())[i]);
        }
        r
    }
}

impl LinesModel {
    /// Build a model from a list of lines. None of them should contain
    /// `\n`.
    pub fn new(lines: &[&str]) -> (r: Self)
        ensures
            r.lines() == lines@.map_values(|s: &str| s@),
    {
        let mut out: Vec<String> = Vec::new();
        let mut i: usize = 0;
        while i < lines.len()
            invariant
                i <= lines@.len(),
                out@.map_values(|s: String| s@) == lines@.subrange(0, i as int).map_values(|s: &str| s@),
            decreases lines@.len() - i,
        {
            let ghost prev = out@;
            out.push(lines[i].to_owned());
            proof {
                assert(out@.map_values(|s: String| s@) =~= prev.map_values(|s: String| s@).push(lines@[i as int]@));
                assert(lines@.subrange(0, i + 1).map_values(|s: &str| s@) =~= lines@.subrange(0, i as int).map_values(|s: &str| s@).push(lines@[i as int]@));
            }
            i += 1;
        }
        assert(lines@.subrange(0, lines@.len() as int) =~= lines@);
        LinesModel(out)
    }

    /// Build a model from a single document string, split on `\n` with
    /// a trailing `\r` stripped from each line.
    pub fn from_text(text: &str) -> (r: Self)
        ensures
            r.0@.len() == text_lines(text.spec_bytes()).len(),
            forall|i: int| 0 <= i < r.0@.len() ==> #[trigger] encode_utf8(r.lines()[i]) == text_lines(text.spec_bytes())[i],
    {
        let pieces = split_text_lines(text);
        let mut out: Vec<String> = Vec::new();
        let mut i: usize = 0;
        while i < pieces.len()
            invariant
                i <= pieces@.len(),
                out@.len() == i,
                forall|k: int| 0 <= k < i ==> #[trigger] out@[k]@ == pieces@[k]@,
            decreases pieces@.len() - i,
        {
            out.push(pieces[i].to_owned());
            i += 1;
        }
        let r = LinesModel(out);
        assert forall|i: int| 0 <= i < r.0@.len() implies #[trigger] encode_utf8(r.lines()[i]) == text_lines(text.spec_bytes())[i] by {
            assert(r.lines()[i] == r.0@[i]@);
            assert(pieces@[i].spec_bytes() == text_lines(text.spec_bytes())[i]);
        }
        r
    }
}

impl LineReader for LinesModel {
    open spec fn spec_line(&self, line_number: u32) -> Seq<char> {
        nth_line(self.lines(), line_number)
    }

    open spec fn spec_line_count(&self) -> u32 {
        self.0@.len() as u32
    }

    fn get_line_content(&self, line_number: u32) -> (r: &str) {
        let idx: usize = if line_number == 0 { 0 } else { (line_number - 1) as usize };
        if idx < self.0.len() {
            assert(self.lines()[idx as int] == self.0@[idx as int]@);
            self.0[idx].as_str()
        } else {
            proof {
                reveal_strlit("");
            }
            ""
        }
    }

    fn get_line_count(&self) -> (r: u32) {
        self.0.len() as u32
    }
}

impl<'a> LineReader for BorrowedLinesModel<'a> {
    open spec fn spec_line(&self, line_number: u32) -> Seq<char> {
        nth_line(self.lines(), line_number)
    }

    open spec fn spec_line_count(&self) -> u32 {
        self.0@.len() as u32
    }

    fn get_line_content(&self, line_number: u32) -> (r: &str) {
        let idx: usize = if line_number == 0 { 0 } else { (line_number - 1) as usize };
        if idx < self.0.len() {
            assert(self.lines()[idx as int] == self.0@[idx as int]@);
            self.0[idx]
        } else {
            proof {
                reveal_strlit("");
            }
            ""
        }
    }

    fn get_line_count(&self) -> (r: u32) {
        self.0.len() as u32
    }
}


/// A line model holding exactly the lines `ls`.
pub open spec fn lines_model(ls: Seq<Seq<char>>) -> LinesModel {
    choose|m: LinesModel| m.lines() == ls
}

/// The model of `text` cut into lines as [`char_lines`] does, together
/// with the witness that [`lines_model`] reads the same lines.
pub fn model_of_char_lines(text: &str) -> (r: LinesModel)
    ensures
        r.lines() == char_lines(text@),
        lines_model(char_lines(text@)).lines() == char_lines(text@),
{
    let c = str_chars(text);
    let ranges = char_line_ranges(c.as_slice());
    let mut out: Vec<String> = Vec::new();
    let mut i: usize = 0;
    while i < ranges.len()
        invariant
            c@ == text@,
            ranges@.len() == char_lines(c@).len(),
            forall|k: int| 0 <= k < ranges@.len() ==> (#[trigger] ranges@[k]).0 <= ranges@[k].1 <= c@.len()
                && c@.subrange(ranges@[k].0 as int, ranges@[k].1 as int) == char_lines(c@)[k],
            i <= ranges@.len(),
            out@.len() == i,
            forall|k: int| 0 <= k < i ==> #[trigger] out@[k]@ == char_lines(c@)[k],
        decreases ranges@.len() - i,
    {
        let (a, b) = ranges[i];
        let piece = chars_between(c.as_slice(), a, b);
        out.push(string_of_chars(piece.as_slice()));
        i += 1;
    }
    let r = LinesModel(out);
    assert(r.lines() =~= char_lines(text@));
    r
}

/// `m` holds the lines of the document bytes `b`.
pub open spec fn is_text_model(m: LinesModel, b: Seq<u8>) -> bool {
    &&& m.0@.len() == text_lines(b).len()
    &&& forall|i: int| 0 <= i < m.0@.len() ==> #[trigger] encode_utf8(m.lines()[i]) == text_lines(b)[i]
}

/// A line model of the document bytes `b`.
pub open spec fn text_model(b: Seq<u8>) -> LinesModel {
    choose|m: LinesModel| is_text_model(m, b)
}

/// Two line models of one document read the same bytes on every line.
pub proof fn lemma_text_models_agree(m1: LinesModel, m2: LinesModel, b: Seq<u8>)
    requires
        is_text_model(m1, b),
        is_text_model(m2, b),
    ensures
        forall|n: u32| #[trigger] crate::track_selector::line_bytes(&m1, n) == crate::track_selector::line_bytes(&m2, n),
{
    assert forall|n: u32| #[trigger] crate::track_selector::line_bytes(&m1, n) == crate::track_selector::line_bytes(&m2, n) by {
        let idx = if n == 0 { 0 } else { n - 1 };
        if idx < m1.0@.len() {
            assert(encode_utf8(m1.lines()[idx]) == text_lines(b)[idx]);
            assert(encode_utf8(m2.lines()[idx]) == text_lines(b)[idx]);
        }
    }
}

} // verus!
