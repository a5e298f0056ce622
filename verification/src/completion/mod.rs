//! Editor-neutral completion support.
//!
//! Positions enter and leave this module as UTF-16 code-unit offsets;
//! scans convert once to UTF-8 byte offsets.

pub mod types;
pub mod context;
pub mod items;
pub mod plan;
pub mod resolve;
pub mod arpeggio_slot;
pub mod chord_slot;

use vstd::prelude::*;
use vstd::string::StringSliceAdditionalSpecFns;
use vstd::utf8::{encode_utf8, encode_scalar};
use crate::strings::str_chars;
pub use self::types::{
    ArpeggioPattern, ChordStackMode, CompletionPlan, CompletionSettings, CoreCommand, CoreCompletionList, CoreItem,
    CoreItemKind, CoreTextEdit, CursorTickData, DataPayload, DataRequest, EditRange, FmPatchData, InsertFormat,
    InsertSpec, Pos, ProviderOutcome,
};
pub use self::chord_slot::{chord_slot, completion_slots_ok};
pub use self::arpeggio_slot::arpeggio_slot;
pub use self::plan::completion_plan;
pub use self::resolve::{completion_resolve, collect_instrument_param_edit};
pub use self::context::{is_meta_value_context, is_instrument_type_context, is_rate_offset_context, meta_keyword_hash, at_meta_edit_start};

verus! {

/// Bytes in the UTF-8 encoding of `c`.
pub open spec fn utf8_len(c: char) -> int {
    if (c as u32) < 0x80 { 1 } else if (c as u32) < 0x800 { 2 } else if (c as u32) < 0x10000 { 3 } else { 4 }
}

/// UTF-16 code units in the encoding of `c`.
pub open spec fn utf16_len(c: char) -> int {
    if (c as u32) < 0x10000 { 1 } else { 2 }
}

/// UTF-8 bytes taken by the first `k` characters of `s`.
pub open spec fn bytes_before(s: Seq<char>, k: int) -> int
    decreases k,
{
    if k <= 0 || k > s.len() { 0 } else { bytes_before(s, k - 1) + utf8_len(s[k - 1]) }
}

/// UTF-16 code units taken by the first `k` characters of `s`.
pub open spec fn units_before(s: Seq<char>, k: int) -> int
    decreases k,
{
    if k <= 0 || k > s.len() { 0 } else { units_before(s, k - 1) + utf16_len(s[k - 1]) }
}

/// Byte offset for UTF-16 offset `target`, scanning from character `k`:
/// the end of the character that ends exactly at `target`, the start of
/// the character that `target` falls inside, or the end of the line.
pub open spec fn utf16_to_byte(s: Seq<char>, target: int, k: int) -> int
    decreases s.len() - k,
{
    if k < 0 || k >= s.len() {
        bytes_before(s, s.len() as int)
    } else if target < units_before(s, k + 1) {
        bytes_before(s, k)
    } else if target == units_before(s, k + 1) {
        bytes_before(s, k + 1)
    } else {
        utf16_to_byte(s, target, k + 1)
    }
}

/// UTF-16 offset for byte offset `target`, scanning from character `k`:
/// the code units of every character that ends at or before `target`.
pub open spec fn byte_to_utf16(s: Seq<char>, target: int, k: int) -> int
    decreases s.len() - k,
{
    if k < 0 || k >= s.len() || bytes_before(s, k + 1) > target {
        units_before(s, k)
    } else {
        byte_to_utf16(s, target, k + 1)
    }
}

proof fn lemma_utf8_len(c: char)
    ensures
        encode_scalar(c as u32).len() == utf8_len(c),
{
    vstd::utf8::char_is_scalar(c);
}

proof fn lemma_bytes_before_front(s: Seq<char>, k: int)
    requires
        1 <= k <= s.len(),
    ensures
        bytes_before(s, k) == utf8_len(s[0]) + bytes_before(s.drop_first(), k - 1),
    decreases k,
{
    let d = s.drop_first();
    if k > 1 {
        lemma_bytes_before_front(s, k - 1);
        assert(d[k - 2] == s[k - 1]);
        assert(bytes_before(d, k - 1) == bytes_before(d, k - 2) + utf8_len(d[k - 2]));
        assert(bytes_before(s, k) == bytes_before(s, k - 1) + utf8_len(s[k - 1]));
    } else {
        assert(bytes_before(s, 1) == bytes_before(s, 0) + utf8_len(s[0]));
        assert(bytes_before(d, 0) == 0);
    }
}

/// The byte length of a string is the sum of its characters' UTF-8 lengths.
pub(crate) proof fn lemma_encoded_len(s: Seq<char>)
    ensures
        encode_utf8(s).len() == bytes_before(s, s.len() as int),
    decreases s.len(),
{
    if s.len() > 0 {
        lemma_encoded_len(s.drop_first());
        lemma_utf8_len(s[0]);
        lemma_bytes_before_front(s, s.len() as int);
    }
}

proof fn lemma_step_sizes(s: Seq<char>, k: int)
    requires
        0 <= k < s.len(),
    ensures
        bytes_before(s, k + 1) >= bytes_before(s, k) + 1,
        units_before(s, k + 1) >= units_before(s, k) + 1,
{
}

proof fn lemma_byte_to_utf16_at(s: Seq<char>, j: int, k: int)
    requires
        0 <= k <= j <= s.len(),
    ensures
        byte_to_utf16(s, bytes_before(s, j), k) == units_before(s, j),
    decreases j - k,
{
    if k < s.len() {
        lemma_step_sizes(s, k);
        if k + 1 <= j {
            lemma_prefix_monotone(s, k + 1, j);
            lemma_byte_to_utf16_at(s, j, k + 1);
        }
    }
}

proof fn lemma_utf16_to_byte_at(s: Seq<char>, j: int, k: int)
    requires
        0 <= k <= j <= s.len(),
    ensures
        utf16_to_byte(s, units_before(s, j), k) == bytes_before(s, j),
    decreases j - k,
{
    if k < s.len() {
        lemma_step_sizes(s, k);
        if k + 1 <= j {
            lemma_prefix_monotone(s, k + 1, j);
            if j > k + 1 {
                lemma_step_sizes(s, k + 1);
                lemma_prefix_monotone(s, k + 2, j);
            }
            lemma_utf16_to_byte_at(s, j, k + 1);
        }
    }
}

/// Every byte offset `utf16_to_byte` gives is a character boundary.
pub proof fn lemma_utf16_to_byte_boundary(s: Seq<char>, target: int, k: int)
    ensures
        crate::text_scan::at_boundary(encode_utf8(s), utf16_to_byte(s, target, k)),
    decreases s.len() - k,
{
    if k < 0 || k >= s.len() {
        lemma_char_boundary(s, s.len() as int);
    } else if target < units_before(s, k + 1) {
        lemma_char_boundary(s, k);
    } else if target == units_before(s, k + 1) {
        lemma_char_boundary(s, k + 1);
    } else {
        lemma_utf16_to_byte_boundary(s, target, k + 1);
    }
}

/// Converting a character boundary's byte offset to UTF-16 code units and
/// back gives the same byte offset.
pub proof fn law_utf16_byte_round_trip(s: Seq<char>, j: int)
    requires
        0 <= j <= s.len(),
    ensures
        utf16_to_byte(s, byte_to_utf16(s, bytes_before(s, j), 0), 0) == bytes_before(s, j),
{
    lemma_byte_to_utf16_at(s, j, 0);
    lemma_utf16_to_byte_at(s, j, 0);
}

/// The bytes of the first `k` characters end on a character boundary of
/// the encoding of `s`.
pub(crate) proof fn lemma_char_boundary(s: Seq<char>, k: int)
    requires
        0 <= k <= s.len(),
    ensures
        crate::text_scan::at_boundary(encode_utf8(s), bytes_before(s, k)),
    decreases k,
{
    lemma_encoded_len(s);
    if k > 0 && k < s.len() {
        let d = s.drop_first();
        lemma_bytes_before_front(s, k);
        lemma_utf8_len(s[0]);
        lemma_char_boundary(d, k - 1);
        lemma_encoded_len(d);
        let e0 = encode_scalar(s[0] as u32);
        let j = bytes_before(d, k - 1);
        lemma_prefix_monotone(d, k - 1, d.len() as int);
        assert(encode_utf8(s) == e0 + encode_utf8(d));
        if j < encode_utf8(d).len() {
            assert(encode_utf8(s)[e0.len() + j] == encode_utf8(d)[j]);
            if j == 0 {
                vstd::utf8::encode_utf8_first_scalar(d);
            }
        }
    }
}

pub(crate) proof fn lemma_prefix_monotone(s: Seq<char>, j: int, k: int)
    requires
        0 <= j <= k <= s.len(),
    ensures
        bytes_before(s, j) <= bytes_before(s, k),
        units_before(s, j) <= units_before(s, k),
        units_before(s, k) - units_before(s, j) <= bytes_before(s, k) - bytes_before(s, j),
    decreases k - j,
{
    if j < k {
        lemma_prefix_monotone(s, j, k - 1);
    }
}

pub(crate) fn char_utf8_len(c: char) -> (r: usize)
    ensures
        r == utf8_len(c),
{
    let v = c as u32;
    if v < 0x80 { 1 } else if v < 0x800 { 2 } else if v < 0x10000 { 3 } else { 4 }
}

pub(crate) fn char_utf16_len(c: char) -> (r: usize)
    ensures
        r == utf16_len(c),
{
    if (c as u32) < 0x10000 { 1 } else { 2 }
}

fn utf16_to_byte_exec(line: &str, character: u32) -> (r: usize)
    ensures
        r == utf16_to_byte(line@, character as int, 0),
        r <= line.spec_bytes().len(),
{
    let s = str_chars(line);
    let total = line.as_bytes().len();
    proof {
        lemma_encoded_len(line@);
    }
    let target = character as usize;
    let mut utf16: usize = 0;
    let mut byte: usize = 0;
    let mut k: usize = 0;
    while k < s.len()
        invariant
            s@ == line@,
            total == bytes_before(s@, s@.len() as int),
            total == line.spec_bytes().len(),
            k <= s@.len(),
            byte == bytes_before(s@, k as int),
            utf16 == units_before(s@, k as int),
            target == character,
            utf16_to_byte(s@, target as int, 0) == utf16_to_byte(s@, target as int, k as int),
        decreases s@.len() - k,
    {
        proof {
            lemma_prefix_monotone(s@, k + 1, s@.len() as int);
            lemma_prefix_monotone(s@, k as int, s@.len() as int);
            lemma_prefix_monotone(s@, 0, k + 1);
        }
        let c = s[k];
        let next = utf16 + char_utf16_len(c);
        if target < next {
            return byte;
        }
        if target == next {
            return byte + char_utf8_len(c);
        }
        utf16 = next;
        byte = byte + char_utf8_len(c);
        k += 1;
    }
    total
}

/// Convert a UTF-16 character offset to a byte offset within one line.
///
/// Out-of-range offsets clamp to the line end. An offset in the middle of a
/// surrogate pair clamps to the start of that scalar value.
pub fn utf16_character_to_byte_offset(line: &str, character: u32) -> (r: usize)
    ensures
        r == utf16_to_byte(line@, character as int, 0),
        r <= line.spec_bytes().len(),
        crate::text_scan::at_boundary(line.spec_bytes(), r as int),
{
    proof {
        lemma_utf16_to_byte_boundary(line@, character as int, 0);
    }
    utf16_to_byte_exec(line, character)
}


/// Convert a byte offset within one line to a UTF-16 character offset.
///
/// Out-of-range offsets clamp to the line end. An offset in the middle of a
/// UTF-8 scalar value clamps to that scalar's start.
pub fn byte_offset_to_utf16_character(line: &str, byte_offset: usize) -> (r: u32)
    requires
        units_before(line@, line@.len() as int) <= u32::MAX,
    ensures
        r == byte_to_utf16(line@, if byte_offset < line.spec_bytes().len() { byte_offset as int } else { line.spec_bytes().len() as int }, 0),
{
    let s = str_chars(line);
    let total = line.as_bytes().len();
    proof {
        lemma_encoded_len(line@);
    }
    let target = if byte_offset < total { byte_offset } else { total };
    let mut utf16: u32 = 0;
    let mut byte: usize = 0;
    let mut k: usize = 0;
    let mut done = false;
    while k < s.len() && !done
        invariant
            s@ == line@,
            total == bytes_before(s@, s@.len() as int),
            units_before(s@, s@.len() as int) <= u32::MAX,
            k <= s@.len(),
            byte == bytes_before(s@, k as int),
            utf16 == units_before(s@, k as int),
            !done ==> byte_to_utf16(s@, target as int, 0) == byte_to_utf16(s@, target as int, k as int),
            done ==> byte_to_utf16(s@, target as int, 0) == utf16,
        decreases s@.len() - k + (if done { 0int } else { 1int }),
    {
        proof {
            lemma_prefix_monotone(s@, k + 1, s@.len() as int);
            lemma_prefix_monotone(s@, k as int, s@.len() as int);
            lemma_prefix_monotone(s@, 0, k + 1);
        }
        let c = s[k];
        let end = byte + char_utf8_len(c);
        if end > target {
            done = true;
        } else {
            utf16 = utf16 + char_utf16_len(c) as u32;
            byte = end;
            k += 1;
        }
    }
    utf16
}

/// Index just past the run of `[A-Za-z0-9_]` bytes of `b` ending at `i`.
pub open spec fn word_run_start(b: Seq<u8>, i: int) -> int
    decreases i,
{
    if i <= 0 || i > b.len() || !is_word_byte_spec(b[i - 1]) { i } else { word_run_start(b, i - 1) }
}

/// ASCII letter, digit or `_`.
pub open spec fn is_word_byte_spec(b: u8) -> bool {
    (0x30u8 <= b <= 0x39u8) || (0x41u8 <= b <= 0x5Au8) || (0x61u8 <= b <= 0x7Au8) || b == 0x5Fu8
}

fn is_word_byte(b: u8) -> (r: bool)
    ensures
        r == is_word_byte_spec(b),
{
    (0x30u8 <= b && b <= 0x39u8) || (0x41u8 <= b && b <= 0x5Au8) || (0x61u8 <= b && b <= 0x7Au8) || b == 0x5Fu8
}

/// The range of the `[A-Za-z0-9_]` run ending at byte `cursor` of `line`.
fn word_range_from_byte(line: &str, line_index: u32, cursor: usize) -> (r: EditRange)
    requires
        units_before(line@, line@.len() as int) <= u32::MAX,
    ensures
        r.start.line == line_index,
        r.end.line == line_index,
        r.start.character == byte_to_utf16(line@,
            word_run_start(line.spec_bytes(), if cursor < line.spec_bytes().len() { cursor as int } else { line.spec_bytes().len() as int }), 0),
        r.end.character == byte_to_utf16(line@,
            if cursor < line.spec_bytes().len() { cursor as int } else { line.spec_bytes().len() as int }, 0),
{
    let bytes = line.as_bytes();
    let ghost b = line.spec_bytes();
    let mut start = if cursor < bytes.len() { cursor } else { bytes.len() };
    let ghost c0 = start as int;
    while start > 0 && is_word_byte(bytes[start - 1])
        invariant
            b == bytes@,
            start <= b.len(),
            word_run_start(b, c0) == word_run_start(b, start as int),
        decreases start,
    {
        start -= 1;
    }
    EditRange::new(
        Pos { line: line_index, character: byte_offset_to_utf16_character(line, start) },
        Pos { line: line_index, character: byte_offset_to_utf16_character(line, cursor) },
    )
}

/// The range of the `[A-Za-z0-9_]` run immediately before `pos`.
pub fn word_range_before_cursor(line: &str, pos: Pos) -> (r: EditRange)
    requires
        units_before(line@, line@.len() as int) <= u32::MAX,
    ensures
        r.start.line == pos.line,
        r.end.line == pos.line,
        r.start.character == byte_to_utf16(line@, word_run_start(line.spec_bytes(), utf16_to_byte(line@, pos.character as int, 0)), 0),
        r.end.character == byte_to_utf16(line@, utf16_to_byte(line@, pos.character as int, 0), 0),
{
    let cursor = utf16_character_to_byte_offset(line, pos.character);
    word_range_from_byte(line, pos.line, cursor)
}

} // verus!
