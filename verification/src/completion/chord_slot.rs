//! Chord completion after `{` and a root note: diatonic dyads, the
//! generic triad and seventh, then every named chord, each rendered as a
//! branch expression. Inside an FM or PSG instrument block, or a `_{...}`
//! key signature, the provider claims the position with no items.

use vstd::prelude::*;
use vstd::string::StringExecFns;
use vstd::utf8::encode_utf8;
use crate::strings::{dec_chars, trim_start_chars, skip_ws_forward, char_lines};
use crate::chord::{
    RootAccidental, ChordDef, ChordSize, acc_chars, chord3_table, chord4_table, def_matches, table_shaped,
    dyad_table, dyads, chords_3, chords_4, spec_generic_dyad, spec_stacked_dyad, spec_generic_chord,
    spec_stacked_generic_chord, spec_render_chord, spec_render_stacked_chord, render_chord_ok, stacked_chord_ok,
    stacked_dyad_ok, stacked_generic_ok, stacked_dyad_fits, stacked_generic_fits, stacked_chord_fits, named_tones, named_part, spec_root_index, root_adjusted, lemma_table_chord_ok,
    render_generic_diatonic_dyad, render_stacked_generic_diatonic_dyad, render_generic_chord,
    render_stacked_generic_chord, render_chord, render_stacked_chord, accidental_char,
};
use crate::key_sig::{spec_scan_key_sig, scan_key_sig_at, segment_end, scan_raw_end, keysig_cmds, KeySig};
use crate::text_scan::{in_key_sig, is_in_key_sig, at_boundary};
use crate::track_selector::{LineReader, line_bytes, enclosing_selector, find_enclosing_track_selector};
use crate::block_finder::{block_at, doc_of, find_fm_block_at, find_psg_block_at, InstrumentKind, LineDoc};
use crate::octave_scan::{spec_channel_scan, scan_channel_context_at};
use crate::string_model::{LinesModel, lines_model, model_of_char_lines};
use crate::hover::string_of_chars;
use crate::preview_note::{same_lines, lemma_enclosing_agree, lemma_keysig_agree, lemma_channel_scan_agree};
use super::types::{
    CoreItem, CoreItemKind, InsertSpec, InsertFormat, EditRange, ItemModel, ListModel, ChordStackMode,
    CompletionSettings, CoreCompletionList, ProviderOutcome, opt_chars,
};
use super::items::{pad_dec, padded, item_views};
use super::plan::{char_range, empty_list, range_of, list_of};
use super::arpeggio_slot::{trailing_root, upper_of, filter_prefix, ArpCand, collect_from};
use crate::strings::push_decimal;
use super::{bytes_before, units_before, lemma_encoded_len, lemma_prefix_monotone};
use crate::string_model::nth_line;

verus! {

/// The chord root a prefix ends with: `{`, a note letter (`h` read as
/// `b`) and an optional accidental, where the `{` does not close a `_`
/// key-signature opener.
pub open spec fn chord_context(p: Seq<char>) -> Option<(char, Option<RootAccidental>, int)> {
    match trailing_root(p, true) {
        None => None,
        Some((l, a, lb)) => if lb < 1 || p[lb - 1] != '{' || (lb - 1 > 0 && p[lb - 2] == '_') {
            None
        } else {
            Some((l, a, lb))
        },
    }
}

/// Channels of the track selector enclosing line `ln` (0 outside any).
pub open spec fn selector_channels<R: LineReader>(m: &R, ln: u32) -> int {
    match enclosing_selector(m, ln) {
        Some((p, _)) => p.0.len() as int,
        None => 0,
    }
}

/// The body of a dyad, triad or named chord, stacked or plain.
pub open spec fn dyad_cand(l: char, a: Option<RootAccidental>, e: (&'static str, &'static str, i32), ks: Seq<Option<i8>>, chans: Seq<i32>, comp: bool, stack: bool, cc: int) -> ArpCand {
    ArpCand {
        label: seq![upper_of(l)] + e.0@,
        body: if stack { spec_stacked_dyad(l, a, e.2, ks, chans, comp) } else { spec_generic_dyad(l, a, e.2) },
        detail: "2-note dyad · "@ + e.1@,
        filter: filter_prefix(l, a) + e.0@,
        preselect: cc == 2 && e.0@ == "5"@,
    }
}

/// The generic chord of `size` (`n` tones).
pub open spec fn generic_chord_cand(l: char, a: Option<RootAccidental>, size: ChordSize, n: nat, ks: Seq<Option<i8>>, chans: Seq<i32>, comp: bool, stack: bool) -> ArpCand {
    let body = if stack { spec_stacked_generic_chord(l, a, size, ks, chans, comp) } else { spec_generic_chord(l, a, size) };
    ArpCand {
        label: "Chord ("@ + dec_chars(n) + " notes)"@,
        body,
        detail: filter_prefix(l, a) + ": "@ + body.unwrap_or(Seq::empty()),
        filter: filter_prefix(l, a),
        preselect: true,
    }
}

/// A chord definition holding table row `e`.
pub open spec fn named_def(e: (&'static str, Seq<i32>, Seq<i32>, &'static str)) -> ChordDef {
    choose|d: ChordDef| def_matches(d, e)
}

/// The named chord of table row `e` (`n` tones).
pub open spec fn named_chord_cand(l: char, a: Option<RootAccidental>, e: (&'static str, Seq<i32>, Seq<i32>, &'static str), n: nat, ks: Seq<Option<i8>>, chans: Seq<i32>, comp: bool, stack: bool) -> ArpCand {
    ArpCand {
        label: seq![upper_of(l)] + e.0@,
        body: if stack {
            spec_render_stacked_chord(l, a, named_def(e), ks, chans, comp)
        } else {
            spec_render_chord(l, a, named_def(e), ks)
        },
        detail: dec_chars(n) + "-note chord · "@ + e.3@,
        filter: filter_prefix(l, a) + e.0@,
        preselect: false,
    }
}

/// Everything `chord_slot` offers, in order, each group present only
/// where the enclosing track's channel count allows it: the dyads (not
/// for 3 or 4 channels), the generic triad (not for 2 or 4), the generic
/// seventh (not for 2 or 3), the named triads but the plain major one
/// (offered as the generic triad), the named four-note chords.
pub open spec fn chord_groups(l: char, a: Option<RootAccidental>, ks: Seq<Option<i8>>, chans: Seq<i32>, comp: bool, stack: bool, cc: int) -> Seq<Seq<ArpCand>> {
    let two = cc != 3 && cc != 4;
    let three = cc != 2 && cc != 4;
    let four = cc != 2 && cc != 3;
    seq![
        if two { dyad_group(l, a, ks, chans, comp, stack, cc) } else { Seq::empty() },
        if three { seq![generic_chord_cand(l, a, ChordSize::Triad, 3, ks, chans, comp, stack)] } else { Seq::empty() },
        if four { seq![generic_chord_cand(l, a, ChordSize::Seventh, 4, ks, chans, comp, stack)] } else { Seq::empty() },
        if three { named_group(l, a, true, ks, chans, comp, stack) } else { Seq::empty() },
        if four { named_group(l, a, false, ks, chans, comp, stack) } else { Seq::empty() },
    ]
}

/// The six diatonic dyads.
pub open spec fn dyad_group(l: char, a: Option<RootAccidental>, ks: Seq<Option<i8>>, chans: Seq<i32>, comp: bool, stack: bool, cc: int) -> Seq<ArpCand> {
    Seq::new(6, |i: int| dyad_cand(l, a, dyad_table()[i], ks, chans, comp, stack, cc))
}

/// The named triads but the plain major (`triads`), or the named
/// four-note chords.
pub open spec fn named_group(l: char, a: Option<RootAccidental>, triads: bool, ks: Seq<Option<i8>>, chans: Seq<i32>, comp: bool, stack: bool) -> Seq<ArpCand> {
    if triads {
        Seq::new(6, |i: int| named_chord_cand(l, a, chord3_table()[i + 1], 3, ks, chans, comp, stack))
    } else {
        Seq::new(9, |i: int| named_chord_cand(l, a, chord4_table()[i], 4, ks, chans, comp, stack))
    }
}

/// The items of the groups `g[..n]`, numbered in order.
pub open spec fn collect_groups(g: Seq<Seq<ArpCand>>, range: EditRange, close: Seq<char>, n: int) -> Seq<ItemModel>
    decreases n,
{
    if n <= 0 || n > g.len() {
        Seq::empty()
    } else {
        collect_from(collect_groups(g, range, close, n - 1), g[n - 1], range, close, true, g[n - 1].len() as int)
    }
}

/// What the chord provider sees at root `(l, a, lb)` of line `s` (index
/// `li`) with the cursor before character `k`.
pub struct ChordScene {
    pub ln: u32,
    pub stack: bool,
    pub cc: int,
    pub ks: Seq<Option<i8>>,
    pub scan_col: u32,
    pub key_col: u32,
}

pub open spec fn chord_scene<R: LineReader>(m: &R, s: Seq<char>, k: int, li: u32, st: CompletionSettings, lb: int) -> ChordScene {
    let ln = (li + 1) as u32;
    let key_col = (bytes_before(s, k) + 1) as u32;
    ChordScene {
        ln,
        stack: st.chord_stack_mode == ChordStackMode::StackUp,
        cc: selector_channels(m, ln),
        ks: spec_scan_key_sig(m, ln, key_col),
        scan_col: bytes_before(s, lb) as u32,
        key_col,
    }
}

/// Channel octaves the stacked renderers start from.
pub open spec fn scene_chans<R: LineReader>(m: &R, sc: ChordScene) -> Seq<i32> {
    if sc.stack {
        spec_channel_scan(m, sc.ln, sc.scan_col, (if sc.cc > 3 { sc.cc } else { 3 }) as usize, None).chans
    } else {
        Seq::empty()
    }
}

/// Whether stacked chords restore their channels' octaves: when stacking
/// and something other than a comment follows the chord (past a `}`
/// right at the cursor).
pub open spec fn chord_comp(s: Seq<char>, k: int, stack: bool) -> bool {
    let has_close = k < s.len() && s[k] == '}';
    let after = if has_close { s.subrange(k + 1, s.len() as int) } else { s.subrange(k, s.len() as int) };
    let ta = trim_start_chars(after);
    stack && ta.len() > 0 && ta[0] != ';'
}

/// Row `i` of the named triads past the plain major (`triads`), or of the
/// named four-note chords.
pub open spec fn named_row(triads: bool, i: int) -> (&'static str, Seq<i32>, Seq<i32>, &'static str) {
    if triads { chord3_table()[i + 1] } else { chord4_table()[i] }
}

/// Every stacked rendering the chord provider makes, for the groups the
/// channel count `cc` allows, runs in `i32` arithmetic without overflow.
pub open spec fn chord_stacks_fit(l: char, a: Option<RootAccidental>, ks: Seq<Option<i8>>, chans: Seq<i32>, comp: bool, cc: int) -> bool {
    let two = cc != 3 && cc != 4;
    let three = cc != 2 && cc != 4;
    let four = cc != 2 && cc != 3;
    &&& two ==> forall|i: int| 0 <= i < 6 ==> stacked_dyad_ok(l, a, #[trigger] dyad_table()[i].2, ks, chans, comp)
    &&& three ==> stacked_generic_ok(l, a, ChordSize::Triad, ks, chans, comp)
    &&& four ==> stacked_generic_ok(l, a, ChordSize::Seventh, ks, chans, comp)
    &&& three ==> forall|i: int| 0 <= i < 6 ==> stacked_chord_ok(l, a, named_def(#[trigger] named_row(true, i)), ks, chans, comp)
    &&& four ==> forall|i: int| 0 <= i < 9 ==> stacked_chord_ok(l, a, named_def(#[trigger] named_row(false, i)), ks, chans, comp)
}

/// The chord provider's answer over line reader `m`: `None` where it does
/// not apply, else its (possibly empty) list.
pub open spec fn chord_in<R: LineReader>(m: &R, s: Seq<char>, k: int, li: u32, st: CompletionSettings) -> Option<ListModel> {
    match chord_context(s.subrange(0, k)) {
        None => None,
        Some((l, a, lb)) => {
            let ln = (li + 1) as u32;
            if in_key_sig(encode_utf8(s), bytes_before(s, lb)) {
                Some(empty_list())
            } else if block_at(doc_of(m), ln, InstrumentKind::Fm) is Some || block_at(doc_of(m), ln, InstrumentKind::Psg) is Some {
                Some(empty_list())
            } else {
                let sc = chord_scene(m, s, k, li, st, lb);
                let chans = scene_chans(m, sc);
                let has_close = k < s.len() && s[k] == '}';
                let comp = chord_comp(s, k, sc.stack);
                let close = if has_close { Seq::<char>::empty() } else { "}"@ };
                let g = chord_groups(l, a, sc.ks, chans, comp, sc.stack, sc.cc);
                Some(ListModel { items: collect_groups(g, char_range(s, li, lb, k), close, 5), is_incomplete: false })
            }
        },
    }
}

/// Where the chord provider stacks, the channel scan and every stacked
/// rendering run in `i32` arithmetic without overflow.
pub open spec fn chord_scan_ok<R: LineReader>(m: &R, s: Seq<char>, k: int, li: u32, st: CompletionSettings) -> bool {
    chord_context(s.subrange(0, k)) matches Some((l, a, lb)) ==> {
        let ln = (li + 1) as u32;
        let sc = chord_scene(m, s, k, li, st, lb);
        (!in_key_sig(encode_utf8(s), bytes_before(s, lb))
            && block_at(doc_of(m), ln, InstrumentKind::Fm) is None
            && block_at(doc_of(m), ln, InstrumentKind::Psg) is None) ==> {
            sc.stack ==> {
                &&& spec_channel_scan(m, sc.ln, sc.scan_col, (if sc.cc > 3 { sc.cc } else { 3 }) as usize, None).ok
                &&& chord_stacks_fit(l, a, sc.ks, scene_chans(m, sc), chord_comp(s, k, sc.stack), sc.cc)
            }
        }
    }
}

/// The line index and the line's byte length leave room in `u32`.
pub open spec fn slot_line_fits(s: Seq<char>, k: int, li: u32) -> bool {
    &&& 0 <= k <= s.len()
    &&& li < u32::MAX - 4
    &&& bytes_before(s, s.len() as int) < u32::MAX
}

/// The key-signature scan of the document's line `li + 1` up to the
/// cursor byte ends on a character boundary.
pub open spec fn key_cut_ok<R: LineReader>(m: &R, s: Seq<char>, k: int, li: u32) -> bool {
    let b = line_bytes(m, (li + 1) as u32);
    at_boundary(b, segment_end(b, scan_raw_end(b, true, (bytes_before(s, k) + 1) as u32)))
}

/// Inputs on which the chord provider runs without overflow or a slice
/// off a character boundary: the cursor on the line, positions that fit
/// `u32`, the key-signature scan cut at a boundary of the document's
/// line, and, when stacking, a channel scan without overflow whose
/// octaves stay within a million.
pub open spec fn chord_in_ok<R: LineReader>(m: &R, s: Seq<char>, k: int, li: u32, st: CompletionSettings) -> bool {
    &&& 0 <= k <= s.len()
    &&& units_before(s, s.len() as int) <= u32::MAX
    &&& (chord_context(s.subrange(0, k)) is Some ==> slot_line_fits(s, k, li) && key_cut_ok(m, s, k, li))
    &&& chord_scan_ok(m, s, k, li, st)
}

/// Where the document's line `li + 1` is `s` itself, its key-signature
/// cut always falls on a character boundary.
pub proof fn lemma_key_cut_on_own_line<R: LineReader>(m: &R, s: Seq<char>, k: int, li: u32)
    requires
        slot_line_fits(s, k, li),
        m.spec_line((li + 1) as u32) == s,
    ensures
        key_cut_ok(m, s, k, li),
{
    let b = encode_utf8(s);
    lemma_encoded_len(s);
    lemma_prefix_monotone(s, k, s.len() as int);
    lemma_prefix_monotone(s, 0, k);
    let cb = bytes_before(s, k);
    assert(0 <= cb <= b.len());
    assert(cb + 1 <= u32::MAX);
    assert((cb + 1) as u32 == cb + 1);
    assert(scan_raw_end(b, true, (cb + 1) as u32) == cb);
    crate::strings::lemma_byte_find(b.subrange(0, cb), 0x3Bu8, 0);
    let e = segment_end(b, cb);
    if e < cb {
        assert(b[e] == b.subrange(0, cb)[e]);
    } else {
        super::lemma_char_boundary(s, k);
    }
}

/// The chord provider's answer for line `line` (index `line_index`) of
/// `text`, cursor before character `cursor`.
pub open spec fn spec_chord_slot(text: Seq<char>, line: Seq<char>, cursor: int, line_index: u32, settings: CompletionSettings) -> Option<ListModel> {
    chord_in(&lines_model(char_lines(text)), line, cursor, line_index, settings)
}

/// [`chord_in_ok`] over the lines of `text`.
pub open spec fn chord_slot_ok(text: Seq<char>, line: Seq<char>, cursor: int, line_index: u32, settings: CompletionSettings) -> bool {
    chord_in_ok(&lines_model(char_lines(text)), line, cursor, line_index, settings)
}

// ---------------------------------------------------------------------------
// Executable
// ---------------------------------------------------------------------------

fn chord_context_of(p: &[char]) -> (r: Option<(char, Option<RootAccidental>, usize)>)
    ensures
        match chord_context(p@) {
            None => r is None,
            Some((l, a, lb)) => r == Some((l, a, lb as usize)),
        },
        chord_context(p@) matches Some((_, _, lb)) ==> 0 < lb < p@.len(),
{
    let n = p.len();
    let t = super::arpeggio_slot::trailing_root_of(p, true);
    let ghost ts = trailing_root(p@, true);
    if t.is_none() {
        return None;
    }
    let (l, a, lb) = t.unwrap();
    let ghost lbi: int = ts.unwrap().2;
    proof {
        assert(ts == Some((l, a, lbi)));
        assert(0 <= lbi < n);
        assert(lbi == lb as int);
    }
    if lb < 1 || p[lb - 1] != '{' || (lb - 1 > 0 && p[lb - 2] == '_') {
        None
    } else {
        Some((l, a, lb))
    }
}

proof fn lemma_defs_agree(d1: ChordDef, d2: ChordDef, l: char, a: Option<RootAccidental>, ks: Seq<Option<i8>>, chans: Seq<i32>, comp: bool)
    requires
        d1.letter_steps@ == d2.letter_steps@,
        d1.intervals@ == d2.intervals@,
    ensures
        spec_render_chord(l, a, d1, ks) == spec_render_chord(l, a, d2, ks),
        spec_render_stacked_chord(l, a, d1, ks, chans, comp) == spec_render_stacked_chord(l, a, d2, ks, chans, comp),
        stacked_chord_ok(l, a, d1, ks, chans, comp) == stacked_chord_ok(l, a, d2, ks, chans, comp),
{
    match spec_root_index(l) {
        None => {},
        Some(ri) => {
            let adj = root_adjusted(ri, a, ks);
            assert(Seq::new(d1.letter_steps@.len(), |k: int| named_part(d1, ri, adj, k, a, ks))
                =~= Seq::new(d2.letter_steps@.len(), |k: int| named_part(d2, ri, adj, k, a, ks)));
            assert(named_tones(d1, ri, adj) =~= named_tones(d2, ri, adj));
        },
    }
}

fn empty_claim() -> (r: ProviderOutcome)
    ensures
        r@ == Some(empty_list()),
{
    let v: Vec<CoreItem> = Vec::new();
    assert(item_views(v@) =~= Seq::<ItemModel>::empty());
    ProviderOutcome::Exclusive(list_of(v, false))
}

pub(crate) fn filter_prefix_of(l: char, a: Option<RootAccidental>) -> (r: String)
    ensures
        r@ == filter_prefix(l, a),
{
    let mut s = String::new();
    let u = super::arpeggio_slot::upper_of_exec(l);
    s.push(u);
    s.append(accidental_char(a));
    assert(s@ =~= filter_prefix(l, a));
    s
}

fn with_suffix(p: &String, x: &str) -> (r: String)
    ensures
        r@ == p@ + x@,
{
    let mut s = p.clone();
    s.append(x);
    s
}

fn opt_owned(o: &Option<String>) -> (r: Option<String>)
    ensures
        opt_chars(r) == opt_chars(*o),
{
    match o {
        Some(s) => Some(s.clone()),
        None => None,
    }
}

pub(crate) fn body_or_empty(o: &Option<String>) -> (r: String)
    ensures
        r@ == opt_chars(*o).unwrap_or(Seq::empty()),
{
    match o {
        Some(s) => s.clone(),
        None => String::new(),
    }
}

/// Two models holding the same lines read the same bytes on every line
/// and present the same document.
pub(crate) proof fn lemma_line_models_agree(m1: LinesModel, m2: LinesModel)
    requires
        m1.lines() == m2.lines(),
    ensures
        same_lines(&m1, &m2),
        doc_of(&m1) == doc_of(&m2),
{
    assert(m1.0@.len() == m1.lines().len());
    assert(m2.0@.len() == m2.lines().len());
    assert forall|n: u32| #[trigger] line_bytes(&m1, n) == line_bytes(&m2, n) by {
        assert(m1.spec_line(n) == m2.spec_line(n));
    }
    assert(doc_of(&m1).line =~= doc_of(&m2).line);
}

pub(crate) proof fn lemma_chord_agree<R1: LineReader, R2: LineReader>(m1: &R1, m2: &R2, s: Seq<char>, k: int, li: u32, st: CompletionSettings)
    requires
        same_lines(m1, m2),
        doc_of(m1) == doc_of(m2),
    ensures
        chord_in(m1, s, k, li, st) == chord_in(m2, s, k, li, st),
        chord_in_ok(m1, s, k, li, st) == chord_in_ok(m2, s, k, li, st),
        chord_scan_ok(m1, s, k, li, st) == chord_scan_ok(m2, s, k, li, st),
{
    match chord_context(s.subrange(0, k)) {
        None => {},
        Some((l, a, lb)) => {
            let ln = (li + 1) as u32;
            let sc = chord_scene(m1, s, k, li, st, lb);
            lemma_enclosing_agree(m1, m2, ln);
            lemma_keysig_agree(m1, m2, ln, sc.key_col, ln);
            assert(sc == chord_scene(m2, s, k, li, st, lb));
            lemma_channel_scan_agree(m1, m2, ln, sc.scan_col, (if sc.cc > 3 { sc.cc } else { 3 }) as usize, None);
            assert(scene_chans(m1, sc) == scene_chans(m2, sc));
            assert(line_bytes(m1, ln) == line_bytes(m2, ln));
        },
    }
}

#[verifier::rlimit(60)]
pub(crate) fn chord_in_exec<R: LineReader>(m: &R, s: &[char], k: usize, li: u32, st: &CompletionSettings) -> (r: ProviderOutcome)
    requires
        chord_in_ok(m, s@, k as int, li, *st),
    ensures
        r@ == chord_in(m, s@, k as int, li, *st),
{
    proof {
        lemma_encoded_len(s@);
        lemma_prefix_monotone(s@, k as int, s@.len() as int);
    }
    let p = crate::strings::chars_between(s, 0, k);
    let (l, a, lb) = match chord_context_of(p.as_slice()) {
        None => {
            return ProviderOutcome::NotApplicable;
        },
        Some(c) => c,
    };
    proof {
        lemma_prefix_monotone(s@, lb as int, s@.len() as int);
    }
    let line = string_of_chars(s);
    let lbb = super::context::bytes_to(s, lb);
    if is_in_key_sig(line.as_str(), lbb) {
        return empty_claim();
    }
    let ln = li + 1;
    proof {
        crate::block_finder::lemma_up_scan_safe_below(doc_of(m), ln, InstrumentKind::Fm);
        crate::block_finder::lemma_up_scan_safe_below(doc_of(m), ln, InstrumentKind::Psg);
    }
    let fm = find_fm_block_at(m, ln);
    let psg = find_psg_block_at(m, ln);
    if fm.is_some() || psg.is_some() {
        return empty_claim();
    }
    let ghost sc = chord_scene(m, s@, k as int, li, *st, lb as int);
    let cc: usize = match find_enclosing_track_selector(m, ln) {
        Some(sel) => sel.spans.len(),
        None => 0,
    };
    assert(cc as int == sc.cc);
    let stack = match st.chord_stack_mode {
        ChordStackMode::StackUp => true,
        _ => false,
    };
    let cb = super::context::bytes_to(s, k);
    let ks = scan_key_sig_at(m, ln, (cb + 1) as u32);
    let nch: usize = if cc > 3 { cc } else { 3 };
    let chans: Vec<i32> = if stack {
        scan_channel_context_at(m, ln, lbb as u32, nch, None).octaves
    } else {
        Vec::new()
    };
    assert(chans@ == scene_chans(m, sc));
    let has_close = k < s.len() && s[k] == '}';
    let from = if has_close { k + 1 } else { k };
    let t = skip_ws_forward(s, from, s.len());
    let comp = stack && t < s.len() && s[t] != ';';
    let close: &str = if has_close { "" } else { "}" };
    let range = range_of(s, li, lb, k);
    let fp = filter_prefix_of(l, a);
    proof {
        let after = if has_close { s@.subrange(k + 1, s@.len() as int) } else { s@.subrange(k as int, s@.len() as int) };
        assert(after == s@.subrange(from as int, s@.len() as int));
        let ta = trim_start_chars(after);
        if t < s.len() {
            assert(ta[0] == s@[t as int]);
        }
        assert(comp == (sc.stack && ta.len() > 0 && ta[0] != ';'));
    }
    let items = chord_items(l, a, &ks, chans.as_slice(), comp, stack, cc, range, close, &fp);
    proof {
        reveal_strlit("");
        assert(close@ == (if has_close { Seq::<char>::empty() } else { "}"@ }));
        assert(ks@ == sc.ks);
        assert(stack == sc.stack);
        assert(range == char_range(s@, li, lb as int, k as int));
        assert(chord_context(s@.subrange(0, k as int)) == Some((l, a, lb as int)));
    }
    ProviderOutcome::Exclusive(list_of(items, false))
}

fn push_dyads(items: &mut Vec<CoreItem>, l: char, a: Option<RootAccidental>, ks: &KeySig, chans: &[i32], comp: bool, stack: bool, cc: usize, range: EditRange, close: &str, fp: &String)
    requires
        old(items)@.len() < 100,
        fp@ == filter_prefix(l, a),
        stack ==> forall|j: int| 0 <= j < 6 ==> stacked_dyad_ok(l, a, #[trigger] dyad_table()[j].2, ks@, chans@, comp),
    ensures
        item_views(final(items)@) == collect_from(item_views(old(items)@), dyad_group(l, a, ks@, chans@, comp, stack, cc as int), range, close@, true, 6),
        final(items)@.len() <= old(items)@.len() + 6,
{
    let ghost g = dyad_group(l, a, ks@, chans@, comp, stack, cc as int);
    let ghost v0 = item_views(items@);
    let ghost n0 = items@.len();
    let ds = dyads();
    let mut i: usize = 0;
    while i < 6
        invariant
            i <= 6,
            ds@.len() == 6,
            forall|t: int| 0 <= t < 6 ==> (#[trigger] ds@[t]).name == dyad_table()[t].0 && ds@[t].detail == dyad_table()[t].1
                && ds@[t].step == dyad_table()[t].2,
            g == dyad_group(l, a, ks@, chans@, comp, stack, cc as int),
            fp@ == filter_prefix(l, a),
            stack ==> forall|j: int| 0 <= j < 6 ==> stacked_dyad_ok(l, a, #[trigger] dyad_table()[j].2, ks@, chans@, comp),
            n0 < 100,
            item_views(items@) == collect_from(v0, g, range, close@, true, i as int),
            items@.len() <= n0 + i,
        decreases 6 - i,
    {
        let d = ds[i];
        proof {
            if stack {
                assert(stacked_dyad_ok(l, a, dyad_table()[i as int].2, ks@, chans@, comp));
            }
        }
        let body = if stack {
            render_stacked_generic_diatonic_dyad(l, a, d.step, ks, chans, comp)
        } else {
            render_generic_diatonic_dyad(l, a, d.step)
        };
        let mut label = String::new();
        label.push(super::arpeggio_slot::upper_of_exec(l));
        label.append(d.name);
        let mut detail = String::new();
        detail.append("2-note dyad · ");
        detail.append(d.detail);
        let filter = with_suffix(fp, d.name);
        let pre = cc == 2 && crate::strings::str_eq(d.name, "5");
        proof {
            assert(label@ =~= seq![upper_of(l)] + dyad_table()[i as int].0@);
            assert(detail@ =~= "2-note dyad · "@ + dyad_table()[i as int].1@);
            assert(g[i as int] == dyad_cand(l, a, dyad_table()[i as int], ks@, chans@, comp, stack, cc as int));
        }
        super::arpeggio_slot::push_cand(items, label, body, detail, filter, pre, range, close, true);
        i += 1;
    }
}

fn push_generic(items: &mut Vec<CoreItem>, l: char, a: Option<RootAccidental>, seventh: bool, ks: &KeySig, chans: &[i32], comp: bool, stack: bool, range: EditRange, close: &str, fp: &String)
    requires
        old(items)@.len() < 100,
        fp@ == filter_prefix(l, a),
        stack ==> stacked_generic_ok(l, a, if seventh { ChordSize::Seventh } else { ChordSize::Triad }, ks@, chans@, comp),
    ensures
        item_views(final(items)@) == collect_from(item_views(old(items)@),
            seq![generic_chord_cand(l, a, if seventh { ChordSize::Seventh } else { ChordSize::Triad }, if seventh { 4nat } else { 3nat }, ks@, chans@, comp, stack)],
            range, close@, true, 1),
        final(items)@.len() <= old(items)@.len() + 1,
{
    let size = if seventh { ChordSize::Seventh } else { ChordSize::Triad };
    let n: u32 = if seventh { 4 } else { 3 };
    let body = if stack {
        render_stacked_generic_chord(l, a, size, ks, chans, comp)
    } else {
        render_generic_chord(l, a, size)
    };
    let mut label = String::new();
    label.append("Chord (");
    push_decimal(&mut label, n);
    label.append(" notes)");
    let mut detail = fp.clone();
    detail.append(": ");
    detail.append(body_or_empty(&body).as_str());
    let ghost x = generic_chord_cand(l, a, size, n as nat, ks@, chans@, comp, stack);
    proof {
        assert(label@ =~= "Chord ("@ + dec_chars(n as nat) + " notes)"@);
        assert(x == ArpCand { label: label@, body: opt_chars(body), detail: detail@, filter: fp@, preselect: true });
    }
    let ghost v0 = item_views(items@);
    super::arpeggio_slot::push_cand(items, label, body, detail, fp.clone(), true, range, close, true);
    proof {
        assert(seq![x][0] == x);
        assert(collect_from(v0, seq![x], range, close@, true, 0) == v0);
    }
}

#[verifier::rlimit(40)]
fn push_named(items: &mut Vec<CoreItem>, l: char, a: Option<RootAccidental>, triads: bool, ks: &KeySig, chans: &[i32], comp: bool, stack: bool, range: EditRange, close: &str, fp: &String)
    requires
        old(items)@.len() < 100,
        fp@ == filter_prefix(l, a),
        stack ==> forall|j: int| 0 <= j < (if triads { 6int } else { 9int }) ==> stacked_chord_ok(l, a, named_def(#[trigger] named_row(triads, j)), ks@, chans@, comp),
    ensures
        item_views(final(items)@) == collect_from(item_views(old(items)@), named_group(l, a, triads, ks@, chans@, comp, stack), range, close@, true,
            named_group(l, a, triads, ks@, chans@, comp, stack).len() as int),
        final(items)@.len() <= old(items)@.len() + 9,
{
    let ghost g = named_group(l, a, triads, ks@, chans@, comp, stack);
    let ghost v0 = item_views(items@);
    let ghost n0 = items@.len();
    let defs = if triads { chords_3() } else { chords_4() };
    let offset: usize = if triads { 1 } else { 0 };
    let count: usize = if triads { 6 } else { 9 };
    let n: u32 = if triads { 3 } else { 4 };
    let mut i: usize = 0;
    while i < count
        invariant
            i <= count,
            count == g.len(),
            offset + count == defs@.len(),
            offset == (if triads { 1usize } else { 0usize }),
            n == (if triads { 3u32 } else { 4u32 }),
            forall|t: int| 0 <= t < defs@.len() ==> table_shaped(#[trigger] defs@[t]) && defs@[t].letter_steps@.len() == n
                && def_matches(defs@[t], if triads { chord3_table()[t] } else { chord4_table()[t] }),
            g == named_group(l, a, triads, ks@, chans@, comp, stack),
            fp@ == filter_prefix(l, a),
            stack ==> forall|j: int| 0 <= j < (if triads { 6int } else { 9int }) ==> stacked_chord_ok(l, a, named_def(#[trigger] named_row(triads, j)), ks@, chans@, comp),
            n0 < 100,
            item_views(items@) == collect_from(v0, g, range, close@, true, i as int),
            items@.len() <= n0 + i,
        decreases count - i,
    {
        let def: &ChordDef = &defs[i + offset];
        let ghost e = if triads { chord3_table()[i + 1] } else { chord4_table()[i as int] };
        proof {
            assert(def_matches(*def, e));
            lemma_table_chord_ok(l, a, *def, ks@);
            assert(def_matches(named_def(e), e));
            lemma_defs_agree(*def, named_def(e), l, a, ks@, chans@, comp);
            assert(e == named_row(triads, i as int));
            if stack {
                assert(stacked_chord_ok(l, a, named_def(named_row(triads, i as int)), ks@, chans@, comp));
            }
        }
        let body = if stack {
            render_stacked_chord(l, a, def, ks, chans, comp)
        } else {
            render_chord(l, a, def, ks)
        };
        let mut label = String::new();
        label.push(super::arpeggio_slot::upper_of_exec(l));
        label.append(def.suffix);
        let mut detail = String::new();
        push_decimal(&mut detail, n);
        detail.append("-note chord · ");
        detail.append(def.detail);
        let filter = with_suffix(fp, def.suffix);
        proof {
            assert(label@ =~= seq![upper_of(l)] + e.0@);
            assert(detail@ =~= dec_chars(n as nat) + "-note chord · "@ + e.3@);
            assert(g[i as int] == named_chord_cand(l, a, e, n as nat, ks@, chans@, comp, stack));
        }
        super::arpeggio_slot::push_cand(items, label, body, detail, filter, false, range, close, true);
        i += 1;
    }
}

fn chord_items(l: char, a: Option<RootAccidental>, ks: &KeySig, chans: &[i32], comp: bool, stack: bool, cc: usize, range: EditRange, close: &str, fp: &String) -> (r: Vec<CoreItem>)
    requires
        fp@ == filter_prefix(l, a),
        stack ==> chord_stacks_fit(l, a, ks@, chans@, comp, cc as int),
    ensures
        item_views(r@) == collect_groups(chord_groups(l, a, ks@, chans@, comp, stack, cc as int), range, close@, 5),
{
    let ghost g = chord_groups(l, a, ks@, chans@, comp, stack, cc as int);
    let mut items: Vec<CoreItem> = Vec::new();
    assert(item_views(items@) =~= Seq::<ItemModel>::empty());
    let ghost e = Seq::<ArpCand>::empty();
    proof {
        assert(g.len() == 5);
        assert(collect_groups(g, range, close@, 0) == Seq::<ItemModel>::empty());
        assert forall|v: Seq<ItemModel>| #[trigger] collect_from(v, e, range, close@, true, 0) == v by {}
    }
    if cc != 3 && cc != 4 {
        push_dyads(&mut items, l, a, ks, chans, comp, stack, cc, range, close, fp);
    }
    assert(item_views(items@) == collect_groups(g, range, close@, 1));
    if cc != 2 && cc != 4 {
        push_generic(&mut items, l, a, false, ks, chans, comp, stack, range, close, fp);
    }
    assert(item_views(items@) == collect_groups(g, range, close@, 2));
    if cc != 2 && cc != 3 {
        push_generic(&mut items, l, a, true, ks, chans, comp, stack, range, close, fp);
    }
    assert(item_views(items@) == collect_groups(g, range, close@, 3));
    if cc != 2 && cc != 4 {
        push_named(&mut items, l, a, true, ks, chans, comp, stack, range, close, fp);
    }
    assert(item_views(items@) == collect_groups(g, range, close@, 4));
    if cc != 2 && cc != 3 {
        push_named(&mut items, l, a, false, ks, chans, comp, stack, range, close, fp);
    }
    items
}

/// Decides [`chord_stacks_fit`].
fn chord_stacks_fit_exec(l: char, a: Option<RootAccidental>, ks: &KeySig, chans: &[i32], comp: bool, cc: usize) -> (r: bool)
    ensures
        r == chord_stacks_fit(l, a, ks@, chans@, comp, cc as int),
{
    if cc != 3 && cc != 4 {
        let ds = dyads();
        let mut i: usize = 0;
        while i < 6
            invariant
                i <= 6,
                ds@.len() == 6,
                forall|t: int| 0 <= t < 6 ==> (#[trigger] ds@[t]).step == dyad_table()[t].2,
                cc != 3 && cc != 4,
                forall|j: int| 0 <= j < i ==> stacked_dyad_ok(l, a, #[trigger] dyad_table()[j].2, ks@, chans@, comp),
            decreases 6 - i,
        {
            if !stacked_dyad_fits(l, a, ds[i].step, ks, chans, comp) {
                assert(!stacked_dyad_ok(l, a, dyad_table()[i as int].2, ks@, chans@, comp));
                return false;
            }
            i += 1;
        }
    }
    if cc != 2 && cc != 4 && !stacked_generic_fits(l, a, ChordSize::Triad, ks, chans, comp) {
        return false;
    }
    if cc != 2 && cc != 3 && !stacked_generic_fits(l, a, ChordSize::Seventh, ks, chans, comp) {
        return false;
    }
    let mut g: usize = 0;
    while g < 2
        invariant
            g <= 2,
            cc != 3 && cc != 4 ==> forall|j: int| 0 <= j < 6 ==> stacked_dyad_ok(l, a, #[trigger] dyad_table()[j].2, ks@, chans@, comp),
            cc != 2 && cc != 4 ==> stacked_generic_ok(l, a, ChordSize::Triad, ks@, chans@, comp),
            cc != 2 && cc != 3 ==> stacked_generic_ok(l, a, ChordSize::Seventh, ks@, chans@, comp),
            g >= 1 && cc != 2 && cc != 4 ==> forall|j: int| 0 <= j < 6 ==> stacked_chord_ok(l, a, named_def(#[trigger] named_row(true, j)), ks@, chans@, comp),
            g >= 2 && cc != 2 && cc != 3 ==> forall|j: int| 0 <= j < 9 ==> stacked_chord_ok(l, a, named_def(#[trigger] named_row(false, j)), ks@, chans@, comp),
        decreases 2 - g,
    {
        let triads = g == 0;
        let allowed = if triads { cc != 2 && cc != 4 } else { cc != 2 && cc != 3 };
        if allowed {
            let defs = if triads { chords_3() } else { chords_4() };
            let offset: usize = if triads { 1 } else { 0 };
            let count: usize = if triads { 6 } else { 9 };
            let mut i: usize = 0;
            while i < count
                invariant
                    i <= count,
                    count == (if triads { 6usize } else { 9usize }),
                    offset == (if triads { 1usize } else { 0usize }),
                    offset + count == defs@.len(),
                    allowed,
                    allowed == (if triads { cc != 2 && cc != 4 } else { cc != 2 && cc != 3 }),
                    triads == (g == 0),
                    forall|t: int| 0 <= t < defs@.len() ==> table_shaped(#[trigger] defs@[t]) && defs@[t].letter_steps@.len() <= 4
                        && def_matches(defs@[t], if triads { chord3_table()[t] } else { chord4_table()[t] }),
                    forall|j: int| 0 <= j < i ==> stacked_chord_ok(l, a, named_def(#[trigger] named_row(triads, j)), ks@, chans@, comp),
                decreases count - i,
            {
                let def = &defs[i + offset];
                let ghost e = named_row(triads, i as int);
                proof {
                    assert(def_matches(*def, e));
                    lemma_table_chord_ok(l, a, *def, ks@);
                    assert(def_matches(named_def(e), e));
                    lemma_defs_agree(*def, named_def(e), l, a, ks@, chans@, comp);
                }
                if !stacked_chord_fits(l, a, def, ks, chans, comp) {
                    assert(!stacked_chord_ok(l, a, named_def(named_row(triads, i as int)), ks@, chans@, comp));
                    return false;
                }
                i += 1;
            }
        }
        g += 1;
    }
    true
}

/// Decides [`chord_scan_ok`].
pub(crate) fn chord_scan_ok_exec<R: LineReader>(m: &R, s: &[char], k: usize, li: u32, st: &CompletionSettings) -> (r: bool)
    requires
        k <= s@.len(),
        chord_context(s@.subrange(0, k as int)) is Some ==> slot_line_fits(s@, k as int, li) && key_cut_ok(m, s@, k as int, li),
    ensures
        r == chord_scan_ok(m, s@, k as int, li, *st),
{
    let p = crate::strings::chars_between(s, 0, k);
    let (l, a, lb) = match chord_context_of(p.as_slice()) {
        None => {
            return true;
        },
        Some(c) => c,
    };
    proof {
        lemma_encoded_len(s@);
        lemma_prefix_monotone(s@, lb as int, s@.len() as int);
        lemma_prefix_monotone(s@, k as int, s@.len() as int);
    }
    let line = string_of_chars(s);
    let lbb = super::context::bytes_to(s, lb);
    if is_in_key_sig(line.as_str(), lbb) {
        return true;
    }
    let ln = li + 1;
    proof {
        crate::block_finder::lemma_up_scan_safe_below(doc_of(m), ln, InstrumentKind::Fm);
        crate::block_finder::lemma_up_scan_safe_below(doc_of(m), ln, InstrumentKind::Psg);
    }
    if find_fm_block_at(m, ln).is_some() || find_psg_block_at(m, ln).is_some() {
        return true;
    }
    let ghost sc = chord_scene(m, s@, k as int, li, *st, lb as int);
    let cc: usize = match find_enclosing_track_selector(m, ln) {
        Some(sel) => sel.spans.len(),
        None => 0,
    };
    assert(cc as int == sc.cc);
    let stack = match st.chord_stack_mode {
        ChordStackMode::StackUp => true,
        _ => false,
    };
    if !stack {
        return true;
    }
    let nch: usize = if cc > 3 { cc } else { 3 };
    if !crate::octave_scan::channel_scan_ok(m, ln, lbb as u32, nch, None) {
        return false;
    }
    let ctx = scan_channel_context_at(m, ln, lbb as u32, nch, None);
    let cb = super::context::bytes_to(s, k);
    let ks = scan_key_sig_at(m, ln, (cb + 1) as u32);
    let has_close = k < s.len() && s[k] == '}';
    let from = if has_close { k + 1 } else { k };
    let t = skip_ws_forward(s, from, s.len());
    let comp = t < s.len() && s[t] != ';';
    proof {
        let after = if has_close { s@.subrange(k + 1, s@.len() as int) } else { s@.subrange(k as int, s@.len() as int) };
        assert(after == s@.subrange(from as int, s@.len() as int));
        let ta = trim_start_chars(after);
        if t < s.len() {
            assert(ta[0] == s@[t as int]);
        }
        assert(comp == chord_comp(s@, k as int, true));
    }
    chord_stacks_fit_exec(l, a, &ks, ctx.octaves.as_slice(), comp, cc)
}

/// Whether completion at `pos` of `text` stays within the limits
/// [`completion_plan`](super::plan::completion_plan) requires beyond
/// `line_fits`.
pub fn completion_slots_ok(text: &str, pos: super::types::Pos, settings: &CompletionSettings) -> (r: bool)
    ensures
        r == super::plan::plan_slots_ok(text@, pos, *settings),
{
    let s = match super::plan::line_chars_at(text, pos.line) {
        None => {
            return true;
        },
        Some(v) => v,
    };
    let k = super::context::char_cursor(s.as_slice(), pos.character);
    let p = crate::strings::chars_between(s.as_slice(), 0, k);
    let in_ctx = chord_context_of(p.as_slice()).is_some()
        || (settings.arpeggio_enabled && super::arpeggio_slot::arpeggio_context_of(p.as_slice()).is_some());
    let line = string_of_chars(s.as_slice());
    let nb = line.as_str().as_bytes().len();
    proof {
        lemma_encoded_len(s@);
    }
    let fits = k <= s.len() && pos.line < u32::MAX - 4 && nb < u32::MAX as usize;
    if in_ctx && !fits {
        return false;
    }
    let model = model_of_char_lines(text);
    let ghost lm = lines_model(char_lines(text@));
    proof {
        lemma_line_models_agree(model, lm);
        lemma_chord_agree(&model, &lm, s@, k as int, pos.line, *settings);
        if chord_context(s@.subrange(0, k as int)) is Some {
            assert(model.spec_line((pos.line + 1) as u32) == s@);
            lemma_key_cut_on_own_line(&model, s@, k as int, pos.line);
        }
    }
    chord_scan_ok_exec(&model, s.as_slice(), k, pos.line, settings)
}

/// Chord completion for line `line` (index `line_index`) of `text` with
/// the cursor before character `cursor`: after `{` and a root note, the
/// dyads and chords the enclosing track's channel count allows, rendered
/// stacked or plain per the settings and closed with `}` unless one
/// follows; an empty claim inside a key signature or an FM/PSG block.
pub fn chord_slot(text: &str, line: &[char], cursor: usize, line_index: u32, settings: &CompletionSettings) -> (r: ProviderOutcome)
    requires
        chord_slot_ok(text@, line@, cursor as int, line_index, *settings),
    ensures
        r@ == spec_chord_slot(text@, line@, cursor as int, line_index, *settings),
{
    let model = model_of_char_lines(text);
    let ghost lm = lines_model(char_lines(text@));
    proof {
        lemma_line_models_agree(model, lm);
        lemma_chord_agree(&model, &lm, line@, cursor as int, line_index, *settings);
    }
    chord_in_exec(&model, line, cursor, line_index, settings)
}

} // verus!
