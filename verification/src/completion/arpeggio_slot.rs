//! Opt-in arpeggio completion for a just-typed bare note: the generic
//! diatonic triad and seventh, then every named chord, each rendered as
//! a note sequence in the configured pattern.

use vstd::prelude::*;
use vstd::string::StringExecFns;
use crate::strings::{ascii_lower, to_ascii_lower, dec_chars, str_chars, push_chars, push_decimal, chars_between, char_lines};
use crate::track_selector::{LineReader, line_bytes};
use crate::key_sig::{spec_scan_key_sig, scan_key_sig_at, segment_end, scan_raw_end};
use crate::text_scan::at_boundary;
use crate::string_model::{lines_model, model_of_char_lines};
use crate::preview_note::{same_lines, lemma_keysig_agree};
use super::types::{CompletionSettings, ProviderOutcome, opt_chars, EditModel};
use super::plan::{char_range, range_of, list_of};
use super::items::item_views;
use super::{bytes_before, units_before, lemma_encoded_len, lemma_prefix_monotone};
use super::chord_slot::{filter_prefix_of, body_or_empty, lemma_line_models_agree, slot_line_fits, key_cut_ok};
use crate::chord::{RootAccidental, acc_chars, chord3_table, chord4_table, accidental_char, table_shaped, def_matches, ChordDef};
use crate::arpeggio::{
    pattern_name, spec_generic_arpeggio, spec_chord_arpeggio, spec_chord_arpeggio_parts, render_generic_arpeggio,
    render_chord_arpeggio_with_pattern, chord_defs_for_arpeggio, chord_arpeggio_ok, letter_index_of,
    lemma_named_arpeggio_ok,
};
use crate::key_sig::KeySig;
use super::types::{CoreItem, CoreItemKind, InsertSpec, InsertFormat, EditRange, ItemModel, ListModel, ArpeggioPattern};
use super::items::{pad_dec, padded};

verus! {

/// The note a prefix ends with: a letter `a`..`g` (either case, read as
/// lower case; also `h` when `allow_h`) and an optional `+`/`-`/`=`, with
/// the letter's index.
pub open spec fn trailing_root(p: Seq<char>, allow_h: bool) -> Option<(char, Option<RootAccidental>, int)> {
    let acc: Option<RootAccidental> = if p.len() > 0 && p.last() == '+' {
        Some(RootAccidental::Sharp)
    } else if p.len() > 0 && p.last() == '-' {
        Some(RootAccidental::Flat)
    } else if p.len() > 0 && p.last() == '=' {
        Some(RootAccidental::Natural)
    } else {
        None
    };
    let le = if acc is Some { p.len() - 1 } else { p.len() as int };
    if le < 1 {
        None
    } else {
        let c = p[le - 1];
        if 'a' <= c <= 'g' {
            Some((c, acc, le - 1))
        } else if 'A' <= c <= 'G' {
            Some((ascii_lower(c), acc, le - 1))
        } else if allow_h && (c == 'h' || c == 'H') {
            Some(('h', acc, le - 1))
        } else {
            None
        }
    }
}

/// Start of the run of `<`/`>` ending at `j`.
pub open spec fn shifts_start(p: Seq<char>, j: int) -> int
    decreases j,
{
    if j > 0 && j <= p.len() && (p[j - 1] == '<' || p[j - 1] == '>') { shifts_start(p, j - 1) } else { j }
}

/// Scanning `p[..i]` right to left with `depth` unmatched `}`: a `{` is
/// still open.
pub open spec fn open_brace_in(p: Seq<char>, i: int, depth: int) -> bool
    decreases i,
{
    if i <= 0 || i > p.len() {
        false
    } else if p[i - 1] == '}' {
        open_brace_in(p, i - 1, depth + 1)
    } else if p[i - 1] == '{' {
        if depth == 0 { true } else { open_brace_in(p, i - 1, depth - 1) }
    } else {
        open_brace_in(p, i - 1, depth)
    }
}

/// The bare note the prefix ends with, unless it opens a chord (a `{`
/// before it, past any `<`/`>`) or sits inside an open `{`.
pub open spec fn arpeggio_context(p: Seq<char>) -> Option<(char, Option<RootAccidental>, int)> {
    match trailing_root(p, false) {
        None => None,
        Some((l, a, lb)) => {
            let ms = shifts_start(p, lb);
            if (ms > 0 && p[ms - 1] == '{') || open_brace_in(p, p.len() as int, 0) {
                None
            } else {
                Some((l, a, lb))
            }
        },
    }
}

/// Upper case of a root letter `a`..`h`.
pub open spec fn upper_of(c: char) -> char {
    if c == 'a' { 'A' } else if c == 'b' { 'B' } else if c == 'c' { 'C' } else if c == 'd' { 'D' }
    else if c == 'e' { 'E' } else if c == 'f' { 'F' } else if c == 'g' { 'G' } else if c == 'h' { 'H' }
    else { c }
}

/// The completion item for offered body `b` at position `i`: a chord
/// (branch expression, completed by `close`) or an arpeggio (note
/// sequence).
pub open spec fn slot_item(x: ArpCand, b: Seq<char>, range: EditRange, close: Seq<char>, chord: bool, i: int) -> ItemModel {
    ItemModel {
        label: x.label,
        label_description: None,
        kind: CoreItemKind::Snippet,
        detail: Some(x.detail),
        documentation: Some(if chord {
            "Inserts the ctrmml branch expression `"@ + b + "` for this chord."@
        } else {
            "Inserts the ctrmml note sequence `"@ + b + "` for this arpeggio."@
        }),
        insert_text: if chord { b + close } else { b },
        format: InsertFormat::PlainText,
        as_is: false,
        filter_text: Some(x.filter),
        sort_text: Some(pad_dec(i as nat, 3)),
        preselect: x.preselect,
        edit_range: range,
        additional_edits: Seq::empty(),
        command: None,
    }
}

/// One offered arpeggio: label, body (if it renders), detail, filter
/// text, preselection.
pub struct ArpCand {
    pub label: Seq<char>,
    pub body: Option<Seq<char>>,
    pub detail: Seq<char>,
    pub filter: Seq<char>,
    pub preselect: bool,
}

/// Filter prefix: the root in upper case with its typed accidental.
pub open spec fn filter_prefix(l: char, a: Option<RootAccidental>) -> Seq<char> {
    seq![upper_of(l)] + acc_chars(a)
}

/// The generic arpeggio of `size` tones.
pub open spec fn generic_cand(l: char, a: Option<RootAccidental>, size: int, ks: Seq<Option<i8>>, p: ArpeggioPattern) -> ArpCand {
    let body = spec_generic_arpeggio(l, a, size, ks, 4, p);
    ArpCand {
        label: "Arpeggio ("@ + dec_chars(size as nat) + " notes)"@,
        body,
        detail: filter_prefix(l, a) + ": "@ + body.unwrap_or(Seq::empty()) + " · "@ + pattern_name(p)@,
        filter: filter_prefix(l, a),
        preselect: size == 3,
    }
}

/// The named chord of table row `e` with `size` tones.
pub open spec fn named_cand(l: char, a: Option<RootAccidental>, e: (&'static str, Seq<i32>, Seq<i32>, &'static str), size: int, ks: Seq<Option<i8>>, p: ArpeggioPattern) -> ArpCand {
    ArpCand {
        label: seq![upper_of(l)] + e.0@,
        body: spec_chord_arpeggio_parts(l, a, e.1, e.2, ks, 4, Some(p)),
        detail: dec_chars(size as nat) + "-note arpeggio · "@ + e.3@ + " · "@ + pattern_name(p)@,
        filter: filter_prefix(l, a) + e.0@,
        preselect: false,
    }
}

/// Every candidate in order: the generic triad and seventh, the named
/// triads, the named four-note chords.
pub open spec fn arp_cands(l: char, a: Option<RootAccidental>, ks: Seq<Option<i8>>, p: ArpeggioPattern) -> Seq<ArpCand> {
    seq![generic_cand(l, a, 3, ks, p), generic_cand(l, a, 4, ks, p)]
        + Seq::new(7, |i: int| named_cand(l, a, chord3_table()[i], 3, ks, p))
        + Seq::new(9, |i: int| named_cand(l, a, chord4_table()[i], 4, ks, p))
}

/// `v` with the item of candidate `x` appended, if it renders.
pub open spec fn push_cand_spec(v: Seq<ItemModel>, x: ArpCand, range: EditRange, close: Seq<char>, chord: bool) -> Seq<ItemModel> {
    match x.body {
        Some(b) => v.push(slot_item(x, b, range, close, chord, v.len() as int)),
        None => v,
    }
}

/// `prev` followed by the items of the first `n` candidates of `c` that
/// render, numbered on from `prev`.
pub open spec fn collect_from(prev: Seq<ItemModel>, c: Seq<ArpCand>, range: EditRange, close: Seq<char>, chord: bool, n: int) -> Seq<ItemModel>
    decreases n,
{
    if n <= 0 || n > c.len() {
        prev
    } else {
        push_cand_spec(collect_from(prev, c, range, close, chord, n - 1), c[n - 1], range, close, chord)
    }
}

/// The arpeggio provider's answer over line reader `m`: `None` when
/// arpeggios are off or the prefix ends with no bare note.
pub open spec fn arpeggio_in<R: LineReader>(m: &R, s: Seq<char>, k: int, li: u32, st: CompletionSettings) -> Option<ListModel> {
    if !st.arpeggio_enabled {
        None
    } else {
        match arpeggio_context(s.subrange(0, k)) {
            None => None,
            Some((l, a, lb)) => {
                let ln = (li + 1) as u32;
                let ks = spec_scan_key_sig(m, ln, (bytes_before(s, k) + 1) as u32);
                Some(ListModel {
                    items: collect_from(Seq::empty(), arp_cands(l, a, ks, st.arpeggio_pattern), char_range(s, li, lb, k), Seq::empty(), false, 18),
                    is_incomplete: false,
                })
            },
        }
    }
}

/// Inputs on which the arpeggio provider runs without overflow or a
/// slice off a character boundary.
pub open spec fn arpeggio_in_ok<R: LineReader>(m: &R, s: Seq<char>, k: int, li: u32, st: CompletionSettings) -> bool {
    &&& 0 <= k <= s.len()
    &&& units_before(s, s.len() as int) <= u32::MAX
    &&& (st.arpeggio_enabled && arpeggio_context(s.subrange(0, k)) is Some) ==> slot_line_fits(s, k, li) && key_cut_ok(m, s, k, li)
}

/// The arpeggio provider's answer for line `line` (index `line_index`) of
/// `text`, cursor before character `cursor`.
pub open spec fn spec_arpeggio_slot(text: Seq<char>, line: Seq<char>, cursor: int, line_index: u32, settings: CompletionSettings) -> Option<ListModel> {
    arpeggio_in(&lines_model(char_lines(text)), line, cursor, line_index, settings)
}

/// [`arpeggio_in_ok`] over the lines of `text`.
pub open spec fn arpeggio_slot_ok(text: Seq<char>, line: Seq<char>, cursor: int, line_index: u32, settings: CompletionSettings) -> bool {
    arpeggio_in_ok(&lines_model(char_lines(text)), line, cursor, line_index, settings)
}

// ---------------------------------------------------------------------------
// Executable
// ---------------------------------------------------------------------------

pub(crate) fn upper_of_exec(c: char) -> (r: char)
    ensures
        r == upper_of(c),
{
    match c {
        'a' => 'A',
        'b' => 'B',
        'c' => 'C',
        'd' => 'D',
        'e' => 'E',
        'f' => 'F',
        'g' => 'G',
        'h' => 'H',
        _ => c,
    }
}

pub(crate) fn trailing_root_of(p: &[char], allow_h: bool) -> (r: Option<(char, Option<RootAccidental>, usize)>)
    ensures
        match trailing_root(p@, allow_h) {
            None => r is None,
            Some((l, a, lb)) => r == Some((l, a, lb as usize)),
        },
        trailing_root(p@, allow_h) matches Some((_, _, lb)) ==> 0 <= lb < p@.len(),
{
    let n = p.len();
    let acc: Option<RootAccidental> = if n > 0 && p[n - 1] == '+' {
        Some(RootAccidental::Sharp)
    } else if n > 0 && p[n - 1] == '-' {
        Some(RootAccidental::Flat)
    } else if n > 0 && p[n - 1] == '=' {
        Some(RootAccidental::Natural)
    } else {
        None
    };
    let le: usize = if acc.is_some() { n - 1 } else { n };
    if le < 1 {
        return None;
    }
    let c = p[le - 1];
    if 'a' <= c && c <= 'g' {
        Some((c, acc, le - 1))
    } else if 'A' <= c && c <= 'G' {
        Some((to_ascii_lower(c), acc, le - 1))
    } else if allow_h && (c == 'h' || c == 'H') {
        Some(('h', acc, le - 1))
    } else {
        None
    }
}

fn shifts_start_of(p: &[char], j: usize) -> (r: usize)
    requires
        j <= p@.len(),
    ensures
        r == shifts_start(p@, j as int),
        r <= j,
{
    let mut i = j;
    while i > 0 && (p[i - 1] == '<' || p[i - 1] == '>')
        invariant
            i <= j <= p@.len(),
            shifts_start(p@, j as int) == shifts_start(p@, i as int),
        decreases i,
    {
        i -= 1;
    }
    i
}

fn open_brace_before(p: &[char]) -> (r: bool)
    ensures
        r == open_brace_in(p@, p@.len() as int, 0),
{
    let mut i = p.len();
    let mut depth: usize = 0;
    while i > 0
        invariant
            i <= p@.len(),
            depth <= p@.len() - i,
            open_brace_in(p@, p@.len() as int, 0) == open_brace_in(p@, i as int, depth as int),
        decreases i,
    {
        let c = p[i - 1];
        if c == '}' {
            depth += 1;
        } else if c == '{' {
            if depth == 0 {
                return true;
            }
            depth -= 1;
        }
        i -= 1;
    }
    false
}

pub(crate) fn arpeggio_context_of(p: &[char]) -> (r: Option<(char, Option<RootAccidental>, usize)>)
    ensures
        match arpeggio_context(p@) {
            None => r is None,
            Some((l, a, lb)) => r == Some((l, a, lb as usize)),
        },
        arpeggio_context(p@) matches Some((_, _, lb)) ==> 0 <= lb < p@.len(),
{
    let n = p.len();
    let t = trailing_root_of(p, false);
    let ghost ts = trailing_root(p@, false);
    if t.is_none() {
        return None;
    }
    let (l, a, lb) = t.unwrap();
    let ghost lbi: int = ts.unwrap().2;
    proof {
        assert(ts == Some((l, a, lbi)));
        assert(0 <= lbi < n);
        assert(lbi == lb as int);
    }
    let ms = shifts_start_of(p, lb);
    if (ms > 0 && p[ms - 1] == '{') || open_brace_before(p) {
        None
    } else {
        Some((l, a, lb))
    }
}

/// Appends the item of an offered body (if it renders) to `items`.
pub(crate) fn push_cand(
    items: &mut Vec<CoreItem>,
    label: String,
    body: Option<String>,
    detail: String,
    filter: String,
    preselect: bool,
    range: EditRange,
    close: &str,
    chord: bool,
)
    requires
        old(items)@.len() < 1000,
    ensures
        item_views(final(items)@) == push_cand_spec(
            item_views(old(items)@),
            ArpCand { label: label@, body: opt_chars(body), detail: detail@, filter: filter@, preselect },
            range,
            close@,
            chord,
        ),
        final(items)@.len() <= old(items)@.len() + 1,
{
    match body {
        None => {},
        Some(b) => {
            let i = items.len();
            let mut doc = String::new();
            let mut text = b.clone();
            if chord {
                doc.append("Inserts the ctrmml branch expression `");
                doc.append(b.as_str());
                doc.append("` for this chord.");
                text.append(close);
                assert(doc@ =~= "Inserts the ctrmml branch expression `"@ + b@ + "` for this chord."@);
            } else {
                doc.append("Inserts the ctrmml note sequence `");
                doc.append(b.as_str());
                doc.append("` for this arpeggio.");
                assert(doc@ =~= "Inserts the ctrmml note sequence `"@ + b@ + "` for this arpeggio."@);
            }
            let item = CoreItem {
                label,
                label_description: None,
                kind: CoreItemKind::Snippet,
                detail: Some(detail),
                documentation: Some(doc),
                insert: InsertSpec { text, format: InsertFormat::PlainText, as_is: false },
                filter_text: Some(filter),
                sort_text: Some(padded(i, 3)),
                preselect,
                edit_range: range,
                additional_edits: Vec::new(),
                command: None,
            };
            let ghost prev = items@;
            items.push(item);
            proof {
                assert(item@.additional_edits =~= Seq::<EditModel>::empty());
                assert(item_views(items@) =~= item_views(prev).push(item@));
            }
        },
    }
}

pub(crate) fn arpeggio_in_exec<R: LineReader>(m: &R, s: &[char], k: usize, li: u32, st: &CompletionSettings) -> (r: ProviderOutcome)
    requires
        arpeggio_in_ok(m, s@, k as int, li, *st),
    ensures
        r@ == arpeggio_in(m, s@, k as int, li, *st),
{
    if !st.arpeggio_enabled {
        return ProviderOutcome::NotApplicable;
    }
    proof {
        lemma_encoded_len(s@);
        lemma_prefix_monotone(s@, k as int, s@.len() as int);
    }
    let p = chars_between(s, 0, k);
    let (l, a, lb) = match arpeggio_context_of(p.as_slice()) {
        None => {
            return ProviderOutcome::NotApplicable;
        },
        Some(c) => c,
    };
    let ln = li + 1;
    let cb = super::context::bytes_to(s, k);
    let ks = scan_key_sig_at(m, ln, (cb + 1) as u32);
    let range = range_of(s, li, lb, k);
    let fp = filter_prefix_of(l, a);
    let pattern = st.arpeggio_pattern;
    let ghost cands = arp_cands(l, a, ks@, pattern);
    let ghost e0 = Seq::<ItemModel>::empty();
    let mut items: Vec<CoreItem> = Vec::new();
    let mut size: usize = 3;
    while size <= 4
        invariant
            3 <= size <= 5,
            cands == arp_cands(l, a, ks@, pattern),
            fp@ == filter_prefix(l, a),
            item_views(items@) == collect_from(e0, cands, range, Seq::empty(), false, size as int - 3),
            items@.len() <= size - 3,
            e0 == Seq::<ItemModel>::empty(),
        decreases 5 - size,
    {
        let body = render_generic_arpeggio(l, a, size, &ks, 4, pattern);
        let mut label = String::new();
        label.append("Arpeggio (");
        push_decimal(&mut label, size as u32);
        label.append(" notes)");
        let mut detail = fp.clone();
        detail.append(": ");
        detail.append(body_or_empty(&body).as_str());
        detail.append(" · ");
        detail.append(pattern.name());
        proof {
            assert(label@ =~= "Arpeggio ("@ + dec_chars(size as nat) + " notes)"@);
            assert(cands[size - 3] == generic_cand(l, a, size as int, ks@, pattern));
        }
        push_cand(&mut items, label, body, detail, fp.clone(), size == 3, range, "", false);
        size += 1;
    }
    let defs = chord_defs_for_arpeggio();
    let mut i: usize = 0;
    while i < defs.len()
        invariant
            i <= 16,
            defs@.len() == 16,
            forall|t: int| 0 <= t < 7 ==> (#[trigger] defs@[t]).1 == 3 && table_shaped(defs@[t].0) && def_matches(defs@[t].0, chord3_table()[t]),
            forall|t: int| 7 <= t < 16 ==> (#[trigger] defs@[t]).1 == 4 && table_shaped(defs@[t].0) && def_matches(defs@[t].0, chord4_table()[t - 7]),
            cands == arp_cands(l, a, ks@, pattern),
            fp@ == filter_prefix(l, a),
            item_views(items@) == collect_from(e0, cands, range, Seq::empty(), false, i as int + 2),
            items@.len() <= i + 2,
            e0 == Seq::<ItemModel>::empty(),
        decreases 16 - i,
    {
        let (def, n) = (&defs[i].0, defs[i].1);
        proof {
            lemma_named_arpeggio_ok(l, a, *def, ks@, Some(pattern));
        }
        let body = render_chord_arpeggio_with_pattern(l, a, def, &ks, 4, pattern);
        let mut label = String::new();
        label.push(upper_of_exec(l));
        label.append(def.suffix);
        let mut detail = String::new();
        push_decimal(&mut detail, n as u32);
        detail.append("-note arpeggio · ");
        detail.append(def.detail);
        detail.append(" · ");
        detail.append(pattern.name());
        let mut filter = fp.clone();
        filter.append(def.suffix);
        proof {
            let e = if i < 7 { chord3_table()[i as int] } else { chord4_table()[i - 7] };
            assert(def_matches(*def, e));
            assert(cands[i + 2] == named_cand(l, a, e, n as int, ks@, pattern));
            assert(label@ =~= seq![upper_of(l)] + e.0@);
            assert(detail@ =~= dec_chars(n as nat) + "-note arpeggio · "@ + e.3@ + " · "@ + pattern_name(pattern)@);
        }
        push_cand(&mut items, label, body, detail, filter, false, range, "", false);
        i += 1;
    }
    ProviderOutcome::Exclusive(list_of(items, false))
}

/// Opt-in arpeggio completion for line `line` (index `line_index`) of
/// `text` with the cursor before character `cursor`: when enabled and the
/// prefix ends with a bare note (not a chord root, not inside `{`), the
/// generic triad and seventh arpeggios and every named chord's, in the
/// configured pattern from octave 4, replacing the note.
pub fn arpeggio_slot(text: &str, line: &[char], cursor: usize, line_index: u32, settings: &CompletionSettings) -> (r: ProviderOutcome)
    requires
        arpeggio_slot_ok(text@, line@, cursor as int, line_index, *settings),
    ensures
        r@ == spec_arpeggio_slot(text@, line@, cursor as int, line_index, *settings),
{
    let model = model_of_char_lines(text);
    let ghost lm = lines_model(char_lines(text@));
    proof {
        lemma_line_models_agree(model, lm);
        lemma_arpeggio_agree(&model, &lm, line@, cursor as int, line_index, *settings);
    }
    arpeggio_in_exec(&model, line, cursor, line_index, settings)
}

pub(crate) proof fn lemma_arpeggio_agree<R1: LineReader, R2: LineReader>(m1: &R1, m2: &R2, s: Seq<char>, k: int, li: u32, st: CompletionSettings)
    requires
        same_lines(m1, m2),
    ensures
        arpeggio_in(m1, s, k, li, st) == arpeggio_in(m2, s, k, li, st),
        arpeggio_in_ok(m1, s, k, li, st) == arpeggio_in_ok(m2, s, k, li, st),
{
    let ln = (li + 1) as u32;
    let col = (bytes_before(s, k) + 1) as u32;
    lemma_keysig_agree(m1, m2, ln, col, ln);
    assert(line_bytes(m1, ln) == line_bytes(m2, ln));
}

} // verus!
