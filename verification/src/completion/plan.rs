//! The first completion stage: the cascade of providers that either
//! answers from the documentation tables or asks the host for data.

use vstd::prelude::*;
use vstd::string::StringSliceAdditionalSpecFns;
use vstd::utf8::encode_utf8;
use crate::strings::{char_lines, str_chars, str_eq, chars_between};
use crate::text_scan::{comment_before, in_key_sig, is_in_comment, is_in_key_sig};
use crate::track_selector::{leading_selector, parse_leading_track_selector};
use crate::hover::string_of_chars;
use crate::string_model::{LinesModel, lines_model, model_of_char_lines};
use crate::track_selector::LineReader;
use super::chord_slot::{
    chord_context, chord_scan_ok, slot_line_fits, spec_chord_slot, chord_in_exec, lemma_line_models_agree,
    lemma_chord_agree, lemma_key_cut_on_own_line,
};
use super::arpeggio_slot::{arpeggio_context, spec_arpeggio_slot, arpeggio_in_exec, lemma_arpeggio_agree};
use crate::docs::{
    DocEntry, entry_for_label, spec_platform_commands, spec_platform_values, spec_option_values,
    spec_timesig_values, spec_group_values, spec_meta_keywords, spec_meta_keywords_trigger_suggest,
    spec_rate_offset, spec_instrument_types, spec_instrument_types_trigger_suggest, spec_at_meta,
    spec_at_meta_completion_labels, spec_command_completions,
};
use super::{units_before, bytes_before, lemma_encoded_len, lemma_prefix_monotone};
use super::types::{
    Pos, CoreCompletionList, CoreItem, CoreItemKind, InsertSpec, EditRange, CoreCommand, CompletionSettings,
    DataRequest, CompletionPlan, ItemModel, ListModel, RequestModel, PlanModel, ProviderOutcome,
};
use super::context::{
    utf16_to_char, platform_context, platform_start, pcm_path_context, meta_value_kind, meta_value_keywords,
    meta_value_start, hash_position, opens_with, rate_offset_context, word_char_start, keyword_after_header,
    fm_fragment, instrument_type_context, at_meta_start, suppress_note_or_rest,
};
use super::items::{format_of, table_item, table_items, item_views, render_table, table_entry_item, has_dollar};

verus! {

// ---------------------------------------------------------------------------
// Models
// ---------------------------------------------------------------------------

/// The range on line `li` between characters `a` and `b` of line `s`.
pub open spec fn char_range(s: Seq<char>, li: u32, a: int, b: int) -> EditRange {
    EditRange {
        start: Pos { line: li, character: units_before(s, a) as u32 },
        end: Pos { line: li, character: units_before(s, b) as u32 },
    }
}

/// A list with no items.
pub open spec fn empty_list() -> ListModel {
    ListModel { items: Seq::empty(), is_incomplete: false }
}

/// The platform commands offered inside quotes: all but the key
/// signature entries (`_`, `__`, `_{`).
pub open spec fn platform_entries(t: Seq<DocEntry>) -> Seq<DocEntry>
    decreases t.len(),
{
    if t.len() == 0 {
        t
    } else {
        let r = platform_entries(t.drop_last());
        let k = t.last().key@;
        if k == "_"@ || k == "__"@ || k == "_{"@ { r } else { r.push(t.last()) }
    }
}

/// The value table of the meta keyword at position `k` of
/// [`meta_value_keywords`].
pub open spec fn meta_value_table(k: int) -> Seq<DocEntry> {
    if k == 0 {
        spec_platform_values()
    } else if k == 1 {
        spec_option_values()
    } else if k == 2 {
        spec_timesig_values()
    } else {
        spec_group_values()
    }
}

/// `k` without a leading `#`.
pub open spec fn strip_hash(k: Seq<char>) -> Seq<char> {
    if k.len() > 0 && k[0] == '#' { k.drop_first() } else { k }
}

/// `x` is the text of one of the strings of `l`.
pub open spec fn in_list(l: Seq<&'static str>, x: Seq<char>) -> bool {
    exists|j: int| 0 <= j < l.len() && (#[trigger] l[j])@ == x
}

/// The item of a meta keyword: inserted without its `#`, reopening the
/// suggestions for keywords that take values.
pub open spec fn keyword_item(e: DocEntry, range: EditRange, i: int) -> ItemModel {
    ItemModel {
        insert_text: strip_hash(e.key@),
        format: format_of(strip_hash(e.key@)),
        command: if in_list(spec_meta_keywords_trigger_suggest(), e.key@) {
            Some(CoreCommand::TriggerSuggest)
        } else {
            None
        },
        ..table_item(e, CoreItemKind::Keyword, range, i)
    }
}

/// The item of an instrument type, reopening the suggestions for types
/// that take a file.
pub open spec fn type_item(e: DocEntry, range: EditRange, i: int) -> ItemModel {
    ItemModel {
        command: if in_list(spec_instrument_types_trigger_suggest(), e.key@) {
            Some(CoreCommand::TriggerSuggest)
        } else {
            None
        },
        ..table_item(e, CoreItemKind::TypeParameter, range, i)
    }
}

/// For each label of `labels`, the first entry of `t` with that label.
pub open spec fn label_entries(labels: Seq<&'static str>, t: Seq<DocEntry>) -> Seq<DocEntry>
    decreases labels.len(),
{
    if labels.len() == 0 {
        Seq::empty()
    } else {
        let r = label_entries(labels.drop_last(), t);
        match entry_for_label(t, labels.last()@) {
            Some(e) => r.push(e),
            None => r,
        }
    }
}

/// The first completion stage on line `s` (index `li`) with the cursor
/// before character `k`.
pub open spec fn plan_on_line(text: Seq<char>, s: Seq<char>, li: u32, k: int, st: CompletionSettings) -> PlanModel {
    let p = s.subrange(0, k);
    let b = encode_utf8(s);
    let cb = bytes_before(s, k);
    if comment_before(b, cb) || in_key_sig(b, cb) || (leading_selector(b) matches Some(x) && cb <= x.1) {
        PlanModel::Done(empty_list())
    } else if p.len() > 0 && p.last() == '|' {
        PlanModel::NeedsData(RequestModel::CursorTick)
    } else if platform_context(p) {
        PlanModel::Done(
            ListModel {
                items: table_items(
                    platform_entries(spec_platform_commands()),
                    CoreItemKind::Function,
                    char_range(s, li, platform_start(p), k),
                ),
                is_incomplete: false,
            },
        )
    } else if pcm_path_context(p) {
        PlanModel::NeedsData(RequestModel::PcmPaths)
    } else {
        plan_after_paths(text, s, li, k, st)
    }
}

/// The first completion stage at `pos` of `text`.
pub open spec fn plan_spec(text: Seq<char>, pos: Pos, settings: CompletionSettings) -> PlanModel {
    let ls = char_lines(text);
    if pos.line >= ls.len() {
        PlanModel::Done(empty_list())
    } else {
        let s = ls[pos.line as int];
        plan_on_line(text, s, pos.line, utf16_to_char(s, pos.character as int, 0), settings)
    }
}

/// Where the chord or arpeggio provider takes the position at `pos`, the
/// line index and byte length leave room in `u32`, and a stacked chord's
/// channel scan runs without overflow within a million octaves.
pub open spec fn plan_slots_ok(text: Seq<char>, pos: Pos, st: CompletionSettings) -> bool {
    let ls = char_lines(text);
    pos.line < ls.len() ==> {
        let s = ls[pos.line as int];
        slots_ok_at(text, s, utf16_to_char(s, pos.character as int, 0), pos.line, st)
    }
}

/// [`plan_slots_ok`] for line `s` (index `li`), cursor before character `k`.
pub open spec fn slots_ok_at(text: Seq<char>, s: Seq<char>, k: int, li: u32, st: CompletionSettings) -> bool {
    let p = s.subrange(0, k);
    &&& (chord_context(p) is Some || (st.arpeggio_enabled && arpeggio_context(p) is Some)) ==> slot_line_fits(s, k, li)
    &&& chord_scan_ok(&lines_model(char_lines(text)), s, k, li, st)
}

/// `model` holds the lines of `text`, of which `s` is line `li`, and the
/// providers' limits hold there.
pub open spec fn slot_env(text: Seq<char>, model: LinesModel, s: Seq<char>, k: int, li: u32, st: CompletionSettings) -> bool {
    &&& model.lines() == char_lines(text)
    &&& lines_model(char_lines(text)).lines() == char_lines(text)
    &&& li < char_lines(text).len()
    &&& char_lines(text)[li as int] == s
    &&& slots_ok_at(text, s, k, li, st)
}

/// The line at `pos` fits UTF-16 offsets in `u32`.
pub open spec fn line_fits(text: Seq<char>, line: u32) -> bool {
    let ls = char_lines(text);
    line < ls.len() ==> units_before(ls[line as int], ls[line as int].len() as int) <= u32::MAX
}

// ---------------------------------------------------------------------------
// Executable
// ---------------------------------------------------------------------------

pub(crate) fn range_of(s: &[char], li: u32, a: usize, b: usize) -> (r: EditRange)
    requires
        a <= s@.len(),
        b <= s@.len(),
        units_before(s@, s@.len() as int) <= u32::MAX,
    ensures
        r == char_range(s@, li, a as int, b as int),
{
    let ua = super::context::units_to(s, a);
    let ub = super::context::units_to(s, b);
    EditRange::new(Pos { line: li, character: ua }, Pos { line: li, character: ub })
}

pub(crate) fn list_of(items: Vec<CoreItem>, is_incomplete: bool) -> (r: CoreCompletionList)
    ensures
        r@ == (ListModel { items: item_views(items@), is_incomplete }),
{
    CoreCompletionList { items, is_incomplete }
}

fn done_empty() -> (r: CompletionPlan)
    ensures
        r@ == PlanModel::Done(empty_list()),
{
    let l = CoreCompletionList::empty();
    assert(l@.items =~= Seq::<ItemModel>::empty());
    CompletionPlan::Done(l)
}

fn platform_entries_exec() -> (r: Vec<DocEntry>)
    ensures
        r@ == platform_entries(spec_platform_commands()),
{
    let t = crate::docs::platform_commands();
    let mut out: Vec<DocEntry> = Vec::new();
    let mut i: usize = 0;
    while i < t.len()
        invariant
            i <= t@.len(),
            t@ == spec_platform_commands(),
            out@ == platform_entries(t@.subrange(0, i as int)),
        decreases t@.len() - i,
    {
        let e = t[i];
        assert(t@.subrange(0, i + 1).drop_last() =~= t@.subrange(0, i as int));
        if !(str_eq(e.key, "_") || str_eq(e.key, "__") || str_eq(e.key, "_{")) {
            out.push(e);
        }
        i += 1;
    }
    assert(t@.subrange(0, t@.len() as int) =~= t@);
    out
}

fn in_str_list(l: &Vec<&'static str>, x: &str) -> (r: bool)
    ensures
        r == in_list(l@, x@),
{
    let mut i: usize = 0;
    while i < l.len()
        invariant
            i <= l@.len(),
            forall|j: int| 0 <= j < i ==> (#[trigger] l@[j])@ != x@,
        decreases l@.len() - i,
    {
        if str_eq(l[i], x) {
            return true;
        }
        i += 1;
    }
    false
}

fn without_hash(k: &str) -> (r: String)
    ensures
        r@ == strip_hash(k@),
{
    let c = str_chars(k);
    if c.len() > 0 && c[0] == '#' {
        let rest = chars_between(c.as_slice(), 1, c.len());
        assert(rest@ =~= k@.drop_first());
        string_of_chars(rest.as_slice())
    } else {
        k.to_owned()
    }
}

fn keyword_items(range: EditRange) -> (r: Vec<CoreItem>)
    ensures
        item_views(r@) == Seq::new(spec_meta_keywords().len(), |i: int| keyword_item(spec_meta_keywords()[i], range, i)),
{
    let t = crate::docs::meta_keywords();
    let trig = crate::docs::meta_keywords_trigger_suggest();
    let ghost want = Seq::new(spec_meta_keywords().len(), |i: int| keyword_item(spec_meta_keywords()[i], range, i));
    let mut out: Vec<CoreItem> = Vec::new();
    let mut i: usize = 0;
    while i < t.len()
        invariant
            i <= t@.len(),
            t@ == spec_meta_keywords(),
            trig@ == spec_meta_keywords_trigger_suggest(),
            want == Seq::new(spec_meta_keywords().len(), |i: int| keyword_item(spec_meta_keywords()[i], range, i)),
            item_views(out@) == want.subrange(0, i as int),
        decreases t@.len() - i,
    {
        let e = t[i];
        let mut it = table_entry_item(&e, CoreItemKind::Keyword, range, i);
        let text = without_hash(e.key);
        let format = if has_dollar(text.as_str()) {
            super::types::InsertFormat::Snippet
        } else {
            super::types::InsertFormat::PlainText
        };
        it.insert = InsertSpec { text, format, as_is: false };
        it.command = if in_str_list(&trig, e.key) { Some(CoreCommand::TriggerSuggest) } else { None };
        let ghost prev = out@;
        out.push(it);
        assert(it@ == keyword_item(e, range, i as int));
        assert(item_views(out@) =~= item_views(prev).push(it@));
        assert(want.subrange(0, i + 1) =~= want.subrange(0, i as int).push(want[i as int]));
        i += 1;
    }
    assert(want.subrange(0, t@.len() as int) =~= want);
    out
}

fn type_items(range: EditRange) -> (r: Vec<CoreItem>)
    ensures
        item_views(r@) == Seq::new(spec_instrument_types().len(), |i: int| type_item(spec_instrument_types()[i], range, i)),
{
    let t = crate::docs::instrument_types();
    let trig = crate::docs::instrument_types_trigger_suggest();
    let ghost want = Seq::new(spec_instrument_types().len(), |i: int| type_item(spec_instrument_types()[i], range, i));
    let mut out: Vec<CoreItem> = Vec::new();
    let mut i: usize = 0;
    while i < t.len()
        invariant
            i <= t@.len(),
            t@ == spec_instrument_types(),
            trig@ == spec_instrument_types_trigger_suggest(),
            want == Seq::new(spec_instrument_types().len(), |i: int| type_item(spec_instrument_types()[i], range, i)),
            item_views(out@) == want.subrange(0, i as int),
        decreases t@.len() - i,
    {
        let e = t[i];
        let mut it = table_entry_item(&e, CoreItemKind::TypeParameter, range, i);
        it.command = if in_str_list(&trig, e.key) { Some(CoreCommand::TriggerSuggest) } else { None };
        let ghost prev = out@;
        out.push(it);
        assert(it@ == type_item(e, range, i as int));
        assert(item_views(out@) =~= item_views(prev).push(it@));
        assert(want.subrange(0, i + 1) =~= want.subrange(0, i as int).push(want[i as int]));
        i += 1;
    }
    assert(want.subrange(0, t@.len() as int) =~= want);
    out
}

fn at_meta_entries() -> (r: Vec<DocEntry>)
    ensures
        r@ == label_entries(spec_at_meta_completion_labels(), spec_at_meta()),
{
    let labels = crate::docs::at_meta_completion_labels();
    let t = crate::docs::at_meta();
    let mut out: Vec<DocEntry> = Vec::new();
    let mut i: usize = 0;
    while i < labels.len()
        invariant
            i <= labels@.len(),
            labels@ == spec_at_meta_completion_labels(),
            t@ == spec_at_meta(),
            out@ == label_entries(labels@.subrange(0, i as int), t@),
        decreases labels@.len() - i,
    {
        assert(labels@.subrange(0, i + 1).drop_last() =~= labels@.subrange(0, i as int));
        match crate::docs::find_label(t.as_slice(), labels[i]) {
            Some(j) => {
                out.push(t[j]);
            },
            None => {},
        }
        i += 1;
    }
    assert(labels@.subrange(0, labels@.len() as int) =~= labels@);
    out
}

/// See [`plan_on_line`].
fn plan_line(text: &str, model: &LinesModel, s: &[char], line: &str, li: u32, k: usize, st: &CompletionSettings) -> (r: CompletionPlan)
    requires
        slot_env(text@, *model, s@, k as int, li, *st),
        line@ == s@,
        k <= s@.len(),
        units_before(s@, s@.len() as int) <= u32::MAX,
    ensures
        r@ == plan_on_line(text@, s@, li, k as int, *st),
{
    let _blen = line.as_bytes().len();
    proof {
        lemma_encoded_len(s@);
        lemma_prefix_monotone(s@, k as int, s@.len() as int);
    }
    let cb = super::context::bytes_to(s, k);
    if is_in_comment(line, cb) || is_in_key_sig(line, cb) {
        return done_empty();
    }
    match parse_leading_track_selector(line) {
        Some(sel) => {
            if cb <= sel.end {
                return done_empty();
            }
        },
        None => {},
    }
    let p = chars_between(s, 0, k);
    let pc = p.as_slice();
    if k > 0 && s[k - 1] == '|' {
        return CompletionPlan::NeedsData(DataRequest::CursorTick);
    }
    if super::context::is_platform_context(pc) {
        let start = super::context::platform_start_of(pc);
        let entries = platform_entries_exec();
        let items = render_table(entries.as_slice(), CoreItemKind::Function, range_of(s, li, start, k));
        return CompletionPlan::Done(list_of(items, false));
    }
    if super::context::is_pcm_path_context(pc) {
        return CompletionPlan::NeedsData(DataRequest::PcmPaths);
    }
    plan_line_values(text, model, s, li, k, pc, st)
}

fn plan_line_values(text: &str, model: &LinesModel, s: &[char], li: u32, k: usize, pc: &[char], st: &CompletionSettings) -> (r: CompletionPlan)
    requires
        slot_env(text@, *model, s@, k as int, li, *st),
        k <= s@.len(),
        pc@ == s@.subrange(0, k as int),
        units_before(s@, s@.len() as int) <= u32::MAX,
        !platform_context(pc@),
        !pcm_path_context(pc@),
    ensures
        r@ == plan_after_paths(text@, s@, li, k as int, *st),
{
    match super::context::meta_value_kind_of(pc) {
        Some(m) => {
            let (kw, table) = if m == 0 {
                (str_chars("#platform"), crate::docs::platform_values())
            } else if m == 1 {
                (str_chars("#option"), crate::docs::option_values())
            } else if m == 2 {
                (str_chars("#timesig"), crate::docs::timesig_values())
            } else {
                (str_chars("#group"), crate::docs::group_values())
            };
            assert(kw@ == meta_value_keywords()[m as int]);
            let start = super::context::meta_value_start_of(pc, kw.as_slice());
            let items = render_table(table.as_slice(), CoreItemKind::Value, range_of(s, li, start, k));
            return CompletionPlan::Done(list_of(items, false));
        },
        None => {},
    }
    match super::context::meta_keyword_hash_of(pc) {
        Some(h) => {
            let items = keyword_items(range_of(s, li, h + 1, k));
            return CompletionPlan::Done(list_of(items, false));
        },
        None => {},
    }
    if super::context::opens_with_char(pc, '#') {
        return done_empty();
    }
    if super::context::rate_offset_context_in(pc) {
        let ws = super::context::word_start_back(s, k);
        let table = crate::docs::rate_offset();
        let items = render_table(table.as_slice(), CoreItemKind::Property, range_of(s, li, ws, k));
        return CompletionPlan::Done(list_of(items, false));
    }
    plan_line_headers(text, model, s, li, k, pc, st)
}

/// [`plan_on_line`] past the quoted-path checks.
pub open spec fn plan_after_paths(text: Seq<char>, s: Seq<char>, li: u32, k: int, st: CompletionSettings) -> PlanModel {
    let p = s.subrange(0, k);
    if meta_value_kind(p) is Some {
        let m = meta_value_kind(p).unwrap();
        PlanModel::Done(
            ListModel {
                items: table_items(
                    meta_value_table(m),
                    CoreItemKind::Value,
                    char_range(s, li, meta_value_start(p, meta_value_keywords()[m]), k),
                ),
                is_incomplete: false,
            },
        )
    } else if hash_position(p) is Some {
        let range = char_range(s, li, hash_position(p).unwrap() + 1, k);
        PlanModel::Done(
            ListModel {
                items: Seq::new(
                    spec_meta_keywords().len(),
                    |i: int| keyword_item(spec_meta_keywords()[i], range, i),
                ),
                is_incomplete: false,
            },
        )
    } else if opens_with(p, '#') {
        PlanModel::Done(empty_list())
    } else if rate_offset_context(p) {
        PlanModel::Done(
            ListModel {
                items: table_items(
                    spec_rate_offset(),
                    CoreItemKind::Property,
                    char_range(s, li, word_char_start(s, k), k),
                ),
                is_incomplete: false,
            },
        )
    } else {
        plan_after_meta(text, s, li, k, st)
    }
}

/// [`plan_on_line`] past the meta and PCM parameter checks.
pub open spec fn plan_after_meta(text: Seq<char>, s: Seq<char>, li: u32, k: int, st: CompletionSettings) -> PlanModel {
    let p = s.subrange(0, k);
    if keyword_after_header(p, "fm"@) is Some {
        PlanModel::NeedsData(
            RequestModel::FmPatches(
                if st.fm_picker_hierarchy {
                    fm_fragment(p, keyword_after_header(p, "fm"@).unwrap())
                } else {
                    None
                },
            ),
        )
    } else if keyword_after_header(p, "pcm"@) is Some {
        PlanModel::NeedsData(RequestModel::PcmFiles)
    } else if instrument_type_context(p) {
        let range = char_range(s, li, word_char_start(s, k), k);
        PlanModel::Done(
            ListModel {
                items: Seq::new(
                    spec_instrument_types().len(),
                    |i: int| type_item(spec_instrument_types()[i], range, i),
                ),
                is_incomplete: true,
            },
        )
    } else if at_meta_start(p) is Some {
        PlanModel::Done(
            ListModel {
                items: table_items(
                    label_entries(spec_at_meta_completion_labels(), spec_at_meta()),
                    CoreItemKind::Struct,
                    char_range(s, li, at_meta_start(p).unwrap(), k),
                ),
                is_incomplete: false,
            },
        )
    } else if opens_with(p, '@') {
        PlanModel::Done(empty_list())
    } else {
        plan_after_at(text, s, li, k, st)
    }
}

/// [`plan_after_meta`] past the `@` checks: chords, arpeggios, then the
/// note/rest suppression and the command table.
pub open spec fn plan_after_at(text: Seq<char>, s: Seq<char>, li: u32, k: int, st: CompletionSettings) -> PlanModel {
    if spec_chord_slot(text, s, k, li, st) is Some {
        PlanModel::Done(spec_chord_slot(text, s, k, li, st).unwrap())
    } else if spec_arpeggio_slot(text, s, k, li, st) is Some {
        PlanModel::Done(spec_arpeggio_slot(text, s, k, li, st).unwrap())
    } else if suppress_note_or_rest(s, k) {
        PlanModel::Done(empty_list())
    } else {
        PlanModel::Done(
            ListModel {
                items: table_items(
                    spec_command_completions(),
                    CoreItemKind::Function,
                    char_range(s, li, word_char_start(s, k), k),
                ),
                is_incomplete: true,
            },
        )
    }
}

fn plan_line_headers(text: &str, model: &LinesModel, s: &[char], li: u32, k: usize, pc: &[char], st: &CompletionSettings) -> (r: CompletionPlan)
    requires
        slot_env(text@, *model, s@, k as int, li, *st),
        k <= s@.len(),
        pc@ == s@.subrange(0, k as int),
        units_before(s@, s@.len() as int) <= u32::MAX,
    ensures
        r@ == plan_after_meta(text@, s@, li, k as int, *st),
{
    let fm = str_chars("fm");
    match super::context::keyword_after_header_of(pc, fm.as_slice()) {
        Some(end) => {
            if st.fm_picker_hierarchy {
                let fragment = match super::context::fm_fragment_of(pc, end) {
                    Some(v) => Some(string_of_chars(v.as_slice())),
                    None => None,
                };
                return CompletionPlan::NeedsData(DataRequest::FmPatches { fragment });
            }
            return CompletionPlan::NeedsData(DataRequest::FmPatches { fragment: None });
        },
        None => {},
    }
    let pcm = str_chars("pcm");
    match super::context::keyword_after_header_of(pc, pcm.as_slice()) {
        Some(_) => {
            return CompletionPlan::NeedsData(DataRequest::PcmFiles);
        },
        None => {},
    }
    if super::context::instrument_type_context_in(pc) {
        let ws = super::context::word_start_back(s, k);
        let items = type_items(range_of(s, li, ws, k));
        return CompletionPlan::Done(list_of(items, true));
    }
    match super::context::at_meta_start_of(pc) {
        Some(start) => {
            let entries = at_meta_entries();
            let items = render_table(entries.as_slice(), CoreItemKind::Struct, range_of(s, li, start, k));
            return CompletionPlan::Done(list_of(items, false));
        },
        None => {},
    }
    if super::context::opens_with_char(pc, '@') {
        return done_empty();
    }
    plan_line_slots(text, model, s, li, k, st)
}

#[verifier::rlimit(50)]
proof fn lemma_slot_env(text: Seq<char>, model: LinesModel, s: Seq<char>, k: int, li: u32, st: CompletionSettings)
    requires
        slot_env(text, model, s, k, li, st),
        0 <= k <= s.len(),
        units_before(s, s.len() as int) <= u32::MAX,
    ensures
        super::chord_slot::chord_in_ok(&model, s, k, li, st),
        super::arpeggio_slot::arpeggio_in_ok(&model, s, k, li, st),
        super::chord_slot::chord_in(&model, s, k, li, st) == spec_chord_slot(text, s, k, li, st),
        super::arpeggio_slot::arpeggio_in(&model, s, k, li, st) == spec_arpeggio_slot(text, s, k, li, st),
{
    let lm = lines_model(char_lines(text));
    if chord_context(s.subrange(0, k)) is Some || (st.arpeggio_enabled && arpeggio_context(s.subrange(0, k)) is Some) {
        assert(lm.spec_line((li + 1) as u32) == s);
        lemma_key_cut_on_own_line(&lm, s, k, li);
    }
    assert(super::chord_slot::chord_in_ok(&lm, s, k, li, st));
    assert(super::arpeggio_slot::arpeggio_in_ok(&lm, s, k, li, st));
    lemma_line_models_agree(model, lm);
    lemma_chord_agree(&model, &lm, s, k, li, st);
    lemma_arpeggio_agree(&model, &lm, s, k, li, st);
}

fn plan_line_slots(text: &str, model: &LinesModel, s: &[char], li: u32, k: usize, st: &CompletionSettings) -> (r: CompletionPlan)
    requires
        slot_env(text@, *model, s@, k as int, li, *st),
        k <= s@.len(),
        units_before(s@, s@.len() as int) <= u32::MAX,
    ensures
        r@ == plan_after_at(text@, s@, li, k as int, *st),
{
    proof {
        lemma_slot_env(text@, *model, s@, k as int, li, *st);
    }
    match chord_in_exec(model, s, k, li, st) {
        ProviderOutcome::Exclusive(list) => {
            return CompletionPlan::Done(list);
        },
        ProviderOutcome::NotApplicable => {},
    }
    match arpeggio_in_exec(model, s, k, li, st) {
        ProviderOutcome::Exclusive(list) => {
            return CompletionPlan::Done(list);
        },
        ProviderOutcome::NotApplicable => {},
    }
    if super::context::suppresses_note_or_rest(s, k) {
        return done_empty();
    }
    let ws = super::context::word_start_back(s, k);
    let table = crate::docs::command_completions();
    let items = render_table(table.as_slice(), CoreItemKind::Function, range_of(s, li, ws, k));
    CompletionPlan::Done(list_of(items, true))
}

/// The line `line` of `text` as characters, split as [`char_lines`] does.
pub fn line_chars_at(text: &str, line: u32) -> (r: Option<Vec<char>>)
    ensures
        match r {
            Some(v) => line < char_lines(text@).len() && v@ == char_lines(text@)[line as int],
            None => line >= char_lines(text@).len(),
        },
{
    let c = str_chars(text);
    let ranges = crate::strings::char_line_ranges(c.as_slice());
    let li = line as usize;
    if li >= ranges.len() {
        return None;
    }
    let (a, b) = ranges[li];
    Some(chars_between(c.as_slice(), a, b))
}

/// Plan completion at `pos`: either a finished list from the tables, or
/// the kind of host data needed to finish it.
pub fn completion_plan(text: &str, pos: Pos, _trigger: Option<char>, settings: &CompletionSettings) -> (r: CompletionPlan)
    requires
        line_fits(text@, pos.line),
        plan_slots_ok(text@, pos, *settings),
    ensures
        r@ == plan_spec(text@, pos, *settings),
{
    let s = match line_chars_at(text, pos.line) {
        Some(v) => v,
        None => {
            return done_empty();
        },
    };
    let line = string_of_chars(s.as_slice());
    let k = super::context::char_cursor(s.as_slice(), pos.character);
    let model = model_of_char_lines(text);
    plan_line(text, &model, s.as_slice(), line.as_str(), pos.line, k, settings)
}

} // verus!
