//! The second completion stage: finishing a list from host data.

use vstd::prelude::*;
use vstd::string::StringSliceAdditionalSpecFns;
use vstd::utf8::encode_utf8;
use crate::strings::{char_lines, str_chars, str_eq, chars_between, push_chars, trim_chars, dec_chars, is_unicode_ws, trim_start_chars};
use crate::track_selector::{leading_selector, parse_leading_track_selector};
use crate::docs::spec_fm_default_template;
use super::plan::line_fits;
use crate::hover::string_of_chars;
use crate::timesig::spec_scan_time_signature;
use crate::beat_fill::{spec_after_bar_line, spec_measure_rests, measure_ok};
use super::{units_before, bytes_before, byte_to_utf16, utf16_to_byte, lemma_encoded_len, lemma_prefix_monotone};
use super::types::{
    Pos, CoreCompletionList, CoreItem, CoreItemKind, InsertSpec, InsertFormat, EditRange, CursorTickData,
    ItemModel, ListModel, EditModel, PatchModel, CoreCommand, FmPatchData, CoreTextEdit, CompletionSettings,
    CompletionPlan, DataRequest, DataPayload, PlanModel, RequestModel, PayloadModel,
};
use super::context::{utf16_to_char, last_of, chars_at, find_chars, pcm_path_context, keyword_after_header, fm_fragment};
use super::items::{item_views, pad_dec};
use super::plan::{char_range, empty_list, plan_spec};

verus! {

// ---------------------------------------------------------------------------
// PCM paths
// ---------------------------------------------------------------------------

/// The paths of `paths` that start with `pre`, each kept once, in order.
pub open spec fn kept_paths(paths: Seq<Seq<char>>, pre: Seq<char>) -> Seq<Seq<char>>
    decreases paths.len(),
{
    if paths.len() == 0 {
        Seq::empty()
    } else {
        let r = kept_paths(paths.drop_last(), pre);
        let x = paths.last();
        if chars_at(x, 0, pre) && !r.contains(x) { r.push(x) } else { r }
    }
}

/// A file item for `path`, inserting `insert`.
pub open spec fn file_item(path: Seq<char>, detail: Option<Seq<char>>, insert: Seq<char>, range: EditRange) -> ItemModel {
    ItemModel {
        label: path,
        label_description: None,
        kind: CoreItemKind::File,
        detail,
        documentation: None,
        insert_text: insert,
        format: InsertFormat::PlainText,
        as_is: false,
        filter_text: Some(path),
        sort_text: Some(path),
        preselect: false,
        edit_range: range,
        additional_edits: Seq::empty(),
        command: None,
    }
}

/// Sample paths for the quoted path being typed on line `s` (index `li`)
/// before character `k`: those that extend what is typed, each closed
/// with a quote unless one follows the cursor.
pub open spec fn pcm_paths_list(s: Seq<char>, li: u32, k: int, paths: Seq<Seq<char>>) -> ListModel {
    let p = s.subrange(0, k);
    if !pcm_path_context(p) {
        empty_list()
    } else {
        let q = last_of(p, '"', k) + 1;
        let suffix = if k < s.len() && s[k] == '"' { Seq::<char>::empty() } else { seq!['"'] };
        let range = char_range(s, li, q, k);
        let kept = kept_paths(paths, p.subrange(q, k));
        ListModel {
            items: Seq::new(kept.len(), |i: int| file_item(kept[i], None, kept[i] + suffix, range)),
            is_incomplete: false,
        }
    }
}

fn contains_string(v: &Vec<String>, x: &str) -> (r: bool)
    ensures
        r == v@.map_values(|s: String| s@).contains(x@),
{
    let ghost w = v@.map_values(|s: String| s@);
    let mut i: usize = 0;
    while i < v.len()
        invariant
            i <= v@.len(),
            w == v@.map_values(|s: String| s@),
            forall|j: int| 0 <= j < i ==> w[j] != x@,
        decreases v@.len() - i,
    {
        if str_eq(v[i].as_str(), x) {
            assert(w[i as int] == x@);
            return true;
        }
        i += 1;
    }
    false
}

/// See [`kept_paths`].
fn keep_paths(paths: &Vec<String>, pre: &[char]) -> (r: Vec<String>)
    ensures
        r@.map_values(|s: String| s@) == kept_paths(paths@.map_values(|s: String| s@), pre@),
{
    let ghost pv = paths@.map_values(|s: String| s@);
    let mut out: Vec<String> = Vec::new();
    let mut i: usize = 0;
    while i < paths.len()
        invariant
            i <= paths@.len(),
            pv == paths@.map_values(|s: String| s@),
            out@.map_values(|s: String| s@) == kept_paths(pv.subrange(0, i as int), pre@),
        decreases paths@.len() - i,
    {
        assert(pv.subrange(0, i + 1).drop_last() =~= pv.subrange(0, i as int));
        assert(pv.subrange(0, i + 1).last() == paths@[i as int]@);
        let pc = str_chars(paths[i].as_str());
        if super::context::chars_at_exec(pc.as_slice(), 0, pre) && !contains_string(&out, paths[i].as_str()) {
            let ghost prev = out@;
            out.push(paths[i].clone());
            assert(out@.map_values(|s: String| s@) =~= prev.map_values(|s: String| s@).push(paths@[i as int]@));
        }
        i += 1;
    }
    assert(pv.subrange(0, paths@.len() as int) =~= pv);
    out
}

fn file_item_exec(path: &String, detail: Option<String>, insert: String, range: EditRange) -> (r: CoreItem)
    ensures
        r@ == file_item(path@, super::types::opt_chars(detail), insert@, range),
{
    let r = CoreItem {
        label: path.clone(),
        label_description: None,
        kind: CoreItemKind::File,
        detail,
        documentation: None,
        insert: InsertSpec { text: insert, format: InsertFormat::PlainText, as_is: false },
        filter_text: Some(path.clone()),
        sort_text: Some(path.clone()),
        preselect: false,
        edit_range: range,
        additional_edits: Vec::new(),
        command: None,
    };
    assert(r@.additional_edits =~= Seq::<EditModel>::empty());
    r
}

fn char_range_of(s: &[char], li: u32, a: usize, b: usize) -> (r: EditRange)
    requires
        a <= s@.len(),
        b <= s@.len(),
        units_before(s@, s@.len() as int) <= u32::MAX,
    ensures
        r == char_range(s@, li, a as int, b as int),
{
    let ua = super::context::units_to(s, a);
    let ub = super::context::units_to(s, b);
    EditRange::new(Pos { line: li, character: ua }, Pos { line: li, character: ub })
}

/// See [`pcm_paths_list`].
fn resolve_pcm_paths(s: &[char], li: u32, k: usize, paths: Vec<String>) -> (r: CoreCompletionList)
    requires
        k <= s@.len(),
        units_before(s@, s@.len() as int) <= u32::MAX,
    ensures
        r@ == pcm_paths_list(s@, li, k as int, paths@.map_values(|x: String| x@)),
{
    let p = chars_between(s, 0, k);
    if !super::context::is_pcm_path_context(p.as_slice()) {
        let e = CoreCompletionList::empty();
        assert(e@.items =~= Seq::<ItemModel>::empty());
        return e;
    }
    let q = super::context::after_last(p.as_slice(), '"', k);
    let close = !(k < s.len() && s[k] == '"');
    let range = char_range_of(s, li, q, k);
    let pre = chars_between(p.as_slice(), q, k);
    let kept = keep_paths(&paths, pre.as_slice());
    let ghost kv = kept@.map_values(|x: String| x@);
    let ghost suffix = if k < s@.len() && s@[k as int] == '"' { Seq::<char>::empty() } else { seq!['"'] };
    let ghost want = Seq::new(kv.len(), |i: int| file_item(kv[i], None, kv[i] + suffix, range));
    let mut items: Vec<CoreItem> = Vec::new();
    let mut i: usize = 0;
    while i < kept.len()
        invariant
            i <= kept@.len(),
            kv == kept@.map_values(|x: String| x@),
            suffix == (if close { seq!['"'] } else { Seq::<char>::empty() }),
            want == Seq::new(kv.len(), |i: int| file_item(kv[i], None, kv[i] + suffix, range)),
            item_views(items@) == want.subrange(0, i as int),
        decreases kept@.len() - i,
    {
        let mut text = kept[i].clone();
        if close {
            text.push('"');
        }
        assert(text@ =~= kv[i as int] + suffix);
        let it = file_item_exec(&kept[i], None, text, range);
        let ghost prev = items@;
        items.push(it);
        assert(item_views(items@) =~= item_views(prev).push(it@));
        assert(want.subrange(0, i + 1) =~= want.subrange(0, i as int).push(want[i as int]));
        i += 1;
    }
    assert(want.subrange(0, kv.len() as int) =~= want);
    CoreCompletionList { items, is_incomplete: false }
}

// ---------------------------------------------------------------------------
// PCM files
// ---------------------------------------------------------------------------

/// ASCII upper case.
pub open spec fn ascii_upper(c: char) -> char {
    if 'a' <= c <= 'z' { ((c as u8) - 32u8) as char } else { c }
}

/// The extension of the file name of `path` in ASCII upper case, when it
/// has a non-empty one.
pub open spec fn ext_upper(path: Seq<char>) -> Option<Seq<char>> {
    let name = path.subrange(last_of(path, '/', path.len() as int) + 1, path.len() as int);
    let dot = last_of(name, '.', name.len() as int);
    if dot >= 0 && dot + 1 < name.len() {
        let e = name.subrange(dot + 1, name.len() as int);
        Some(Seq::new(e.len(), |i: int| ascii_upper(e[i])))
    } else {
        None
    }
}

/// `"<EXT> <what>"`, or `what` when `path` has no extension.
pub open spec fn ext_detail(path: Seq<char>, what: Seq<char>) -> Seq<char> {
    match ext_upper(path) {
        Some(e) => e + seq![' '] + what,
        None => what,
    }
}

/// The hint shown when no sample file is known.
pub open spec fn pcm_hint_item(current: Seq<char>, range: EditRange) -> ItemModel {
    ItemModel {
        label: "PCM files (.wav) are suggested when present."@,
        label_description: None,
        kind: CoreItemKind::Text,
        detail: Some("Import a PCM file to see path suggestions here."@),
        documentation: None,
        insert_text: current,
        format: InsertFormat::PlainText,
        as_is: false,
        filter_text: Some(if current.len() == 0 { "pcm"@ } else { current }),
        sort_text: Some("zzzz"@),
        preselect: false,
        edit_range: range,
        additional_edits: Seq::empty(),
        command: None,
    }
}

/// Sample files for `@N pcm` on line `s` before character `k`: each file
/// once, quoted; a hint when there are none.
pub open spec fn pcm_files_list(s: Seq<char>, li: u32, k: int, paths: Seq<Seq<char>>) -> ListModel {
    match keyword_after_header(s.subrange(0, k), "pcm"@) {
        None => empty_list(),
        Some(start) => {
            let range = char_range(s, li, start, s.len() as int);
            let kept = kept_paths(paths, Seq::empty());
            ListModel {
                items: if kept.len() == 0 {
                    seq![pcm_hint_item(s.subrange(start, s.len() as int), range)]
                } else {
                    Seq::new(
                        kept.len(),
                        |i: int| file_item(kept[i], Some(ext_detail(kept[i], "sample"@)), seq![' ', '"'] + kept[i] + seq!['"'], range),
                    )
                },
                is_incomplete: false,
            }
        },
    }
}

fn to_ascii_upper(c: char) -> (r: char)
    ensures
        r == ascii_upper(c),
{
    if 'a' <= c && c <= 'z' {
        ((c as u8) - 32u8) as char
    } else {
        c
    }
}

/// See [`ext_detail`].
pub fn ext_detail_of(path: &str, what: &str) -> (r: String)
    ensures
        r@ == ext_detail(path@, what@),
{
    let c = str_chars(path);
    let slash = super::context::after_last(c.as_slice(), '/', c.len());
    let name = chars_between(c.as_slice(), slash, c.len());
    let dot = super::context::after_last(name.as_slice(), '.', name.len());
    let mut out = String::new();
    if dot > 0 && dot < name.len() {
        let mut i = dot;
        while i < name.len()
            invariant
                dot <= i <= name@.len(),
                out@ == Seq::new((i - dot) as nat, |j: int| ascii_upper(name@[dot + j])),
            decreases name@.len() - i,
        {
            out.push(to_ascii_upper(name[i]));
            assert(out@ =~= Seq::new((i + 1 - dot) as nat, |j: int| ascii_upper(name@[dot + j])));
            i += 1;
        }
        out.push(' ');
    }
    let w = str_chars(what);
    push_chars(&mut out, w.as_slice());
    proof {
        let e = name@.subrange(dot as int, name@.len() as int);
        if dot > 0 && dot < name@.len() {
            assert(Seq::new(e.len(), |i: int| ascii_upper(e[i])) =~= Seq::new((name@.len() - dot) as nat, |j: int| ascii_upper(name@[dot + j])));
        }
    }
    assert(out@ =~= ext_detail(path@, what@));
    out
}

/// See [`pcm_files_list`].
fn resolve_pcm_files(s: &[char], li: u32, k: usize, paths: Vec<String>) -> (r: CoreCompletionList)
    requires
        k <= s@.len(),
        units_before(s@, s@.len() as int) <= u32::MAX,
    ensures
        r@ == pcm_files_list(s@, li, k as int, paths@.map_values(|x: String| x@)),
{
    let p = chars_between(s, 0, k);
    let pcm = str_chars("pcm");
    let start = match super::context::keyword_after_header_of(p.as_slice(), pcm.as_slice()) {
        Some(st) => st,
        None => {
            let e = CoreCompletionList::empty();
            assert(e@.items =~= Seq::<ItemModel>::empty());
            return e;
        },
    };
    let range = char_range_of(s, li, start, s.len());
    let none: Vec<char> = Vec::new();
    let kept = keep_paths(&paths, none.as_slice());
    assert(none@ =~= Seq::<char>::empty());
    let ghost kv = kept@.map_values(|x: String| x@);
    if kept.len() == 0 {
        let cur = chars_between(s, start, s.len());
        let current = string_of_chars(cur.as_slice());
        let filter = if cur.len() == 0 { "pcm".to_owned() } else { current.clone() };
        let it = CoreItem {
            label: "PCM files (.wav) are suggested when present.".to_owned(),
            label_description: None,
            kind: CoreItemKind::Text,
            detail: Some("Import a PCM file to see path suggestions here.".to_owned()),
            documentation: None,
            insert: InsertSpec { text: current, format: InsertFormat::PlainText, as_is: false },
            filter_text: Some(filter),
            sort_text: Some("zzzz".to_owned()),
            preselect: false,
            edit_range: range,
            additional_edits: Vec::new(),
            command: None,
        };
        assert(it@.additional_edits =~= Seq::<EditModel>::empty());
        assert(it@ == pcm_hint_item(s@.subrange(start as int, s@.len() as int), range));
        let mut items: Vec<CoreItem> = Vec::new();
        items.push(it);
        assert(item_views(items@) =~= seq![it@]);
        return CoreCompletionList { items, is_incomplete: false };
    }
    let ghost want = Seq::new(
        kv.len(),
        |i: int| file_item(kv[i], Some(ext_detail(kv[i], "sample"@)), seq![' ', '"'] + kv[i] + seq!['"'], range),
    );
    let mut items: Vec<CoreItem> = Vec::new();
    let mut i: usize = 0;
    while i < kept.len()
        invariant
            i <= kept@.len(),
            kv == kept@.map_values(|x: String| x@),
            want == Seq::new(
                kv.len(),
                |i: int| file_item(kv[i], Some(ext_detail(kv[i], "sample"@)), seq![' ', '"'] + kv[i] + seq!['"'], range),
            ),
            item_views(items@) == want.subrange(0, i as int),
        decreases kept@.len() - i,
    {
        let mut text = String::new();
        text.push(' ');
        text.push('"');
        let pc = str_chars(kept[i].as_str());
        push_chars(&mut text, pc.as_slice());
        text.push('"');
        assert(text@ =~= seq![' ', '"'] + kv[i as int] + seq!['"']);
        let detail = ext_detail_of(kept[i].as_str(), "sample");
        let it = file_item_exec(&kept[i], Some(detail), text, range);
        let ghost prev = items@;
        items.push(it);
        assert(item_views(items@) =~= item_views(prev).push(it@));
        assert(want.subrange(0, i + 1) =~= want.subrange(0, i as int).push(want[i as int]));
        i += 1;
    }
    assert(want.subrange(0, kv.len() as int) =~= want);
    CoreCompletionList { items, is_incomplete: false }
}

// ---------------------------------------------------------------------------
// FM patches
// ---------------------------------------------------------------------------

/// A patch with a path and a body that is not blank.
pub open spec fn usable(p: PatchModel) -> bool {
    p.rel_path.len() > 0 && trim_chars(p.mml).len() > 0
}

/// The usable patches, in order.
pub open spec fn usable_patches(ps: Seq<PatchModel>) -> Seq<PatchModel>
    decreases ps.len(),
{
    if ps.len() == 0 {
        ps
    } else {
        let r = usable_patches(ps.drop_last());
        if usable(ps.last()) { r.push(ps.last()) } else { r }
    }
}

/// How many patches of `ps` have path `path`.
pub open spec fn path_count(ps: Seq<PatchModel>, path: Seq<char>) -> int
    decreases ps.len(),
{
    if ps.len() == 0 {
        0
    } else {
        path_count(ps.drop_last(), path) + if ps.last().rel_path == path { 1int } else { 0int }
    }
}

/// End of `t[..n]` once trailing line breaks (`\n`, `\r\n`) are removed.
pub open spec fn newline_trim_end(t: Seq<char>, n: int) -> int
    decreases n,
{
    if n > 0 && n <= t.len() && t[n - 1] == '\n' {
        let m = n - 1;
        newline_trim_end(t, if m > 0 && t[m - 1] == '\r' { m - 1 } else { m })
    } else {
        n
    }
}

/// The parameter text inserted after `@N fm` for patch body `mml`: a space,
/// the comment of its header line if any, then the lines after the
/// header, without trailing line breaks.
pub open spec fn fm_param_text(mml: Seq<char>) -> Option<Seq<char>> {
    let nl = find_chars(mml, seq!['\n'], 0);
    if mml.len() == 0 || nl < 0 {
        None
    } else {
        let header = mml.subrange(0, nl);
        let semi = find_chars(header, seq![';'], 0);
        let head = if semi >= 0 { seq![' '] + header.subrange(semi, nl) + seq!['\n'] } else { seq![' '] };
        let t = head + mml.subrange(nl + 1, mml.len() as int);
        Some(t.subrange(0, newline_trim_end(t, t.len() as int)))
    }
}

/// The label of patch `p` in the flat picker.
pub open spec fn flat_label(p: PatchModel, count: int) -> Seq<char> {
    match p.name {
        Some(n) => if count > 1 { p.rel_path + ": "@ + n } else { p.rel_path + " \u{2014} "@ + n },
        None => p.rel_path,
    }
}

/// The flat-picker item of patch `p`, when its body has parameters.
pub open spec fn flat_item(p: PatchModel, count: int, sort_index: int, range: EditRange, edits: Seq<EditModel>) -> Option<ItemModel> {
    match fm_param_text(p.mml) {
        None => None,
        Some(text) => Some(
            ItemModel {
                label: flat_label(p, count),
                label_description: None,
                kind: CoreItemKind::Snippet,
                detail: Some(
                    match p.name {
                        Some(n) => n,
                        None => ext_detail(p.rel_path, "instrument"@),
                    },
                ),
                documentation: None,
                insert_text: text,
                format: InsertFormat::PlainText,
                as_is: true,
                filter_text: None,
                sort_text: Some(pad_dec(sort_index as nat, 4)),
                preselect: false,
                edit_range: range,
                additional_edits: edits,
                command: None,
            },
        ),
    }
}

/// The flat-picker items of `ps`, numbered in order.
pub open spec fn flat_items(ps: Seq<PatchModel>, all: Seq<PatchModel>, range: EditRange, edits: Seq<EditModel>) -> Seq<ItemModel>
    decreases ps.len(),
{
    if ps.len() == 0 {
        Seq::empty()
    } else {
        let r = flat_items(ps.drop_last(), all, range, edits);
        match flat_item(ps.last(), path_count(all, ps.last().rel_path), r.len() as int, range, edits) {
            Some(it) => r.push(it),
            None => r,
        }
    }
}

/// The first patch of each path, in order.
pub open spec fn first_patches(ps: Seq<PatchModel>) -> Seq<PatchModel>
    decreases ps.len(),
{
    if ps.len() == 0 {
        ps
    } else {
        let r = first_patches(ps.drop_last());
        if path_count(r, ps.last().rel_path) == 0 { r.push(ps.last()) } else { r }
    }
}

/// The file-step item of the first patch `p` of a path: the patch itself
/// when the file holds one, else the file to drill into.
pub open spec fn file_item_of(p: PatchModel, count: int, range: EditRange, edits: Seq<EditModel>) -> Option<ItemModel> {
    if count == 1 {
        match flat_item(p, count, 0, range, edits) {
            Some(it) => Some(ItemModel { sort_text: Some(p.rel_path), ..it }),
            None => None,
        }
    } else {
        Some(
            ItemModel {
                label: p.rel_path,
                label_description: Some(dec_chars(count as nat)),
                kind: CoreItemKind::File,
                detail: None,
                documentation: None,
                insert_text: seq![' '] + p.rel_path + seq!['/'],
                format: InsertFormat::PlainText,
                as_is: false,
                filter_text: Some(p.rel_path),
                sort_text: Some(p.rel_path),
                preselect: false,
                edit_range: range,
                additional_edits: Seq::empty(),
                command: Some(CoreCommand::TriggerSuggest),
            },
        )
    }
}

/// The file-step items of the first patches `fs`.
pub open spec fn file_items(fs: Seq<PatchModel>, all: Seq<PatchModel>, range: EditRange, edits: Seq<EditModel>) -> Seq<ItemModel>
    decreases fs.len(),
{
    if fs.len() == 0 {
        Seq::empty()
    } else {
        let r = file_items(fs.drop_last(), all, range, edits);
        match file_item_of(fs.last(), path_count(all, fs.last().rel_path), range, edits) {
            Some(it) => r.push(it),
            None => r,
        }
    }
}

/// The file name of `path` without its extension.
pub open spec fn path_stem(path: Seq<char>) -> Seq<char> {
    let name = path.subrange(last_of(path, '/', path.len() as int) + 1, path.len() as int);
    let dot = last_of(name, '.', name.len() as int);
    if dot >= 0 { name.subrange(0, dot) } else { name }
}

/// The patch-step item of patch `p` of file `fragment`.
pub open spec fn fragment_item(p: PatchModel, fragment: Seq<char>, range: EditRange, edits: Seq<EditModel>) -> Option<ItemModel> {
    match fm_param_text(p.mml) {
        None => None,
        Some(text) => {
            let label = match p.name {
                Some(n) => n,
                None => path_stem(p.rel_path),
            };
            Some(
                ItemModel {
                    label,
                    label_description: Some(fragment),
                    kind: CoreItemKind::Value,
                    detail: if p.has_macros { Some("[macros]"@) } else { None },
                    documentation: if p.rel_path.len() > 0 { Some(p.rel_path) } else { None },
                    insert_text: text,
                    format: InsertFormat::PlainText,
                    as_is: true,
                    filter_text: Some(fragment + seq!['/'] + label),
                    sort_text: Some(label),
                    preselect: false,
                    edit_range: range,
                    additional_edits: edits,
                    command: None,
                },
            )
        },
    }
}

/// The patch-step items of the patches of file `fragment`.
pub open spec fn fragment_items(ps: Seq<PatchModel>, fragment: Seq<char>, range: EditRange, edits: Seq<EditModel>) -> Seq<ItemModel>
    decreases ps.len(),
{
    if ps.len() == 0 {
        Seq::empty()
    } else {
        let r = fragment_items(ps.drop_last(), fragment, range, edits);
        if ps.last().rel_path == fragment {
            match fragment_item(ps.last(), fragment, range, edits) {
                Some(it) => r.push(it),
                None => r,
            }
        } else {
            r
        }
    }
}

/// The default FM template item.
pub open spec fn default_fm_item(range: EditRange, edits: Seq<EditModel>) -> ItemModel {
    ItemModel {
        label: "Default FM template"@,
        label_description: None,
        kind: CoreItemKind::Snippet,
        detail: Some("template"@),
        documentation: None,
        insert_text: spec_fm_default_template()@,
        format: InsertFormat::Snippet,
        as_is: false,
        filter_text: Some("default fm template"@),
        sort_text: Some("~default"@),
        preselect: false,
        edit_range: range,
        additional_edits: edits,
        command: None,
    }
}

// ---------------------------------------------------------------------------
// FM patches, executable
// ---------------------------------------------------------------------------

/// The patches of `ps` at the indices `idx`.
pub open spec fn picked(ps: Seq<FmPatchData>, idx: Seq<usize>) -> Seq<PatchModel> {
    idx.map_values(|i: usize| ps[i as int]@)
}

/// The models of the edits of `v`.
pub open spec fn edit_views(v: Seq<CoreTextEdit>) -> Seq<EditModel> {
    v.map_values(|e: CoreTextEdit| e@)
}

fn usable_indices(ps: &[FmPatchData]) -> (r: Vec<usize>)
    ensures
        picked(ps@, r@) == usable_patches(ps@.map_values(|p: FmPatchData| p@)),
        forall|j: int| 0 <= j < r@.len() ==> (#[trigger] r@[j]) < ps@.len(),
{
    let ghost pv = ps@.map_values(|p: FmPatchData| p@);
    let mut out: Vec<usize> = Vec::new();
    let mut i: usize = 0;
    while i < ps.len()
        invariant
            i <= ps@.len(),
            pv == ps@.map_values(|p: FmPatchData| p@),
            picked(ps@, out@) == usable_patches(pv.subrange(0, i as int)),
            forall|j: int| 0 <= j < out@.len() ==> (#[trigger] out@[j]) < ps@.len(),
        decreases ps@.len() - i,
    {
        assert(pv.subrange(0, i + 1).drop_last() =~= pv.subrange(0, i as int));
        assert(pv.subrange(0, i + 1).last() == ps@[i as int]@);
        let t = crate::strings::trimmed_chars(ps[i].mml.as_str());
        if !super::items::str_empty(ps[i].rel_path.as_str()) && t.len() > 0 {
            let ghost prev = out@;
            out.push(i);
            assert(picked(ps@, out@) =~= picked(ps@, prev).push(ps@[i as int]@));
        }
        i += 1;
    }
    assert(pv.subrange(0, ps@.len() as int) =~= pv);
    out
}

fn count_path(ps: &[FmPatchData], idx: &Vec<usize>, path: &str) -> (r: usize)
    requires
        forall|j: int| 0 <= j < idx@.len() ==> (#[trigger] idx@[j]) < ps@.len(),
    ensures
        r == path_count(picked(ps@, idx@), path@),
{
    let ghost pk = picked(ps@, idx@);
    let mut n: usize = 0;
    let mut i: usize = 0;
    while i < idx.len()
        invariant
            i <= idx@.len(),
            pk == picked(ps@, idx@),
            forall|j: int| 0 <= j < idx@.len() ==> (#[trigger] idx@[j]) < ps@.len(),
            n == path_count(pk.subrange(0, i as int), path@),
            n <= i,
        decreases idx@.len() - i,
    {
        assert(pk.subrange(0, i + 1).drop_last() =~= pk.subrange(0, i as int));
        if str_eq(ps[idx[i]].rel_path.as_str(), path) {
            n += 1;
        }
        i += 1;
    }
    assert(pk.subrange(0, idx@.len() as int) =~= pk);
    n
}

fn copy_edits(v: &Vec<CoreTextEdit>) -> (r: Vec<CoreTextEdit>)
    ensures
        edit_views(r@) == edit_views(v@),
{
    let mut out: Vec<CoreTextEdit> = Vec::new();
    let mut i: usize = 0;
    while i < v.len()
        invariant
            i <= v@.len(),
            edit_views(out@) == edit_views(v@).subrange(0, i as int),
        decreases v@.len() - i,
    {
        let e = CoreTextEdit { range: v[i].range, new_text: v[i].new_text.clone() };
        let ghost prev = out@;
        out.push(e);
        assert(edit_views(out@) =~= edit_views(prev).push(e@));
        assert(edit_views(v@).subrange(0, i + 1) =~= edit_views(v@).subrange(0, i as int).push(v@[i as int]@));
        i += 1;
    }
    assert(edit_views(v@).subrange(0, v@.len() as int) =~= edit_views(v@));
    out
}

fn copy_opt(o: &Option<String>) -> (r: Option<String>)
    ensures
        super::types::opt_chars(r) == super::types::opt_chars(*o),
{
    match o {
        Some(x) => Some(x.clone()),
        None => None,
    }
}

/// See [`fm_param_text`].
fn fm_param_text_of(mml: &str) -> (r: Option<String>)
    ensures
        match fm_param_text(mml@) {
            Some(t) => r matches Some(x) && x@ == t,
            None => r is None,
        },
{
    let c = str_chars(mml);
    let nlc = vec!['\n'];
    assert(nlc@ =~= seq!['\n']);
    let nl = match super::context::find_chars_exec(c.as_slice(), nlc.as_slice()) {
        Some(i) => i,
        None => {
            return None;
        },
    };
    if c.len() == 0 {
        return None;
    }
    let header = chars_between(c.as_slice(), 0, nl);
    let sc = vec![';'];
    assert(sc@ =~= seq![';']);
    let mut t: Vec<char> = Vec::new();
    t.push(' ');
    match super::context::find_chars_exec(header.as_slice(), sc.as_slice()) {
        Some(semi) => {
            let mut j = semi;
            while j < nl
                invariant
                    semi <= j <= nl,
                    nl == header@.len(),
                    t@ == seq![' '] + header@.subrange(semi as int, j as int),
                decreases nl - j,
            {
                t.push(header[j]);
                assert(header@.subrange(semi as int, j + 1) =~= header@.subrange(semi as int, j as int).push(header@[j as int]));
                j += 1;
            }
            t.push('\n');
            assert(t@ =~= seq![' '] + header@.subrange(semi as int, nl as int) + seq!['\n']);
        },
        None => {
            assert(t@ =~= seq![' ']);
        },
    }
    let ghost head = t@;
    let mut i = nl + 1;
    while i < c.len()
        invariant
            nl + 1 <= i <= c@.len(),
            t@ == head + c@.subrange(nl + 1, i as int),
        decreases c@.len() - i,
    {
        t.push(c[i]);
        assert(c@.subrange(nl + 1, i + 1) =~= c@.subrange(nl + 1, i as int).push(c@[i as int]));
        i += 1;
    }
    let mut e = t.len();
    while e > 0 && t[e - 1] == '\n'
        invariant
            e <= t@.len(),
            newline_trim_end(t@, t@.len() as int) == newline_trim_end(t@, e as int),
        decreases e,
    {
        let m = e - 1;
        e = if m > 0 && t[m - 1] == '\r' { m - 1 } else { m };
    }
    let body = chars_between(t.as_slice(), 0, e);
    assert(c@.subrange(0, nl as int) == header@);
    Some(string_of_chars(body.as_slice()))
}

fn concat3(a: &str, b: &str, c: &str) -> (r: String)
    ensures
        r@ == a@ + b@ + c@,
{
    let mut out = String::new();
    let x = str_chars(a);
    push_chars(&mut out, x.as_slice());
    let y = str_chars(b);
    push_chars(&mut out, y.as_slice());
    let z = str_chars(c);
    push_chars(&mut out, z.as_slice());
    out
}

/// See [`flat_item`].
fn flat_item_of(p: &FmPatchData, count: usize, sort_index: usize, range: EditRange, edits: &Vec<CoreTextEdit>) -> (r: Option<CoreItem>)
    ensures
        match flat_item(p@, count as int, sort_index as int, range, edit_views(edits@)) {
            Some(it) => r matches Some(x) && x@ == it,
            None => r is None,
        },
{
    let text = match fm_param_text_of(p.mml.as_str()) {
        Some(t) => t,
        None => {
            return None;
        },
    };
    let label = match &p.name {
        Some(n) => if count > 1 {
            concat3(p.rel_path.as_str(), ": ", n.as_str())
        } else {
            concat3(p.rel_path.as_str(), " \u{2014} ", n.as_str())
        },
        None => p.rel_path.clone(),
    };
    let detail = match &p.name {
        Some(n) => n.clone(),
        None => ext_detail_of(p.rel_path.as_str(), "instrument"),
    };
    let it = CoreItem {
        label,
        label_description: None,
        kind: CoreItemKind::Snippet,
        detail: Some(detail),
        documentation: None,
        insert: InsertSpec { text, format: InsertFormat::PlainText, as_is: true },
        filter_text: None,
        sort_text: Some(super::items::padded(sort_index, 4)),
        preselect: false,
        edit_range: range,
        additional_edits: copy_edits(edits),
        command: None,
    };
    Some(it)
}

fn flat_items_of(ps: &[FmPatchData], us: &Vec<usize>, range: EditRange, edits: &Vec<CoreTextEdit>) -> (r: Vec<CoreItem>)
    requires
        forall|j: int| 0 <= j < us@.len() ==> (#[trigger] us@[j]) < ps@.len(),
    ensures
        item_views(r@) == flat_items(picked(ps@, us@), picked(ps@, us@), range, edit_views(edits@)),
{
    let ghost all = picked(ps@, us@);
    let ghost ev = edit_views(edits@);
    let mut out: Vec<CoreItem> = Vec::new();
    let mut i: usize = 0;
    while i < us.len()
        invariant
            i <= us@.len(),
            all == picked(ps@, us@),
            ev == edit_views(edits@),
            forall|j: int| 0 <= j < us@.len() ==> (#[trigger] us@[j]) < ps@.len(),
            item_views(out@) == flat_items(all.subrange(0, i as int), all, range, ev),
        decreases us@.len() - i,
    {
        let p = &ps[us[i]];
        assert(all.subrange(0, i + 1).drop_last() =~= all.subrange(0, i as int));
        assert(all.subrange(0, i + 1).last() == p@);
        let count = count_path(ps, us, p.rel_path.as_str());
        match flat_item_of(p, count, out.len(), range, edits) {
            Some(it) => {
                let ghost prev = out@;
                out.push(it);
                assert(item_views(out@) =~= item_views(prev).push(it@));
            },
            None => {},
        }
        i += 1;
    }
    assert(all.subrange(0, us@.len() as int) =~= all);
    out
}

fn first_indices(ps: &[FmPatchData], us: &Vec<usize>) -> (r: Vec<usize>)
    requires
        forall|j: int| 0 <= j < us@.len() ==> (#[trigger] us@[j]) < ps@.len(),
    ensures
        picked(ps@, r@) == first_patches(picked(ps@, us@)),
        forall|j: int| 0 <= j < r@.len() ==> (#[trigger] r@[j]) < ps@.len(),
{
    let ghost all = picked(ps@, us@);
    let mut out: Vec<usize> = Vec::new();
    let mut i: usize = 0;
    while i < us.len()
        invariant
            i <= us@.len(),
            all == picked(ps@, us@),
            forall|j: int| 0 <= j < us@.len() ==> (#[trigger] us@[j]) < ps@.len(),
            forall|j: int| 0 <= j < out@.len() ==> (#[trigger] out@[j]) < ps@.len(),
            picked(ps@, out@) == first_patches(all.subrange(0, i as int)),
        decreases us@.len() - i,
    {
        assert(all.subrange(0, i + 1).drop_last() =~= all.subrange(0, i as int));
        assert(all.subrange(0, i + 1).last() == ps@[us@[i as int] as int]@);
        if count_path(ps, &out, ps[us[i]].rel_path.as_str()) == 0 {
            let ghost prev = out@;
            out.push(us[i]);
            assert(picked(ps@, out@) =~= picked(ps@, prev).push(ps@[us@[i as int] as int]@));
        }
        i += 1;
    }
    assert(all.subrange(0, us@.len() as int) =~= all);
    out
}

fn file_item_exec_of(p: &FmPatchData, count: usize, range: EditRange, edits: &Vec<CoreTextEdit>) -> (r: Option<CoreItem>)
    ensures
        match file_item_of(p@, count as int, range, edit_views(edits@)) {
            Some(it) => r matches Some(x) && x@ == it,
            None => r is None,
        },
{
    if count == 1 {
        match flat_item_of(p, count, 0, range, edits) {
            Some(mut it) => {
                it.sort_text = Some(p.rel_path.clone());
                Some(it)
            },
            None => None,
        }
    } else {
        let mut d = String::new();
        super::items::push_dec(&mut d, count);
        let mut ins = String::new();
        ins.push(' ');
        let rc = str_chars(p.rel_path.as_str());
        push_chars(&mut ins, rc.as_slice());
        ins.push('/');
        assert(ins@ =~= seq![' '] + p.rel_path@ + seq!['/']);
        let it = CoreItem {
            label: p.rel_path.clone(),
            label_description: Some(d),
            kind: CoreItemKind::File,
            detail: None,
            documentation: None,
            insert: InsertSpec { text: ins, format: InsertFormat::PlainText, as_is: false },
            filter_text: Some(p.rel_path.clone()),
            sort_text: Some(p.rel_path.clone()),
            preselect: false,
            edit_range: range,
            additional_edits: Vec::new(),
            command: Some(CoreCommand::TriggerSuggest),
        };
        assert(it@.additional_edits =~= Seq::<EditModel>::empty());
        Some(it)
    }
}

fn file_items_of(ps: &[FmPatchData], us: &Vec<usize>, fs: &Vec<usize>, range: EditRange, edits: &Vec<CoreTextEdit>) -> (r: Vec<CoreItem>)
    requires
        forall|j: int| 0 <= j < us@.len() ==> (#[trigger] us@[j]) < ps@.len(),
        forall|j: int| 0 <= j < fs@.len() ==> (#[trigger] fs@[j]) < ps@.len(),
    ensures
        item_views(r@) == file_items(picked(ps@, fs@), picked(ps@, us@), range, edit_views(edits@)),
{
    let ghost all = picked(ps@, us@);
    let ghost firsts = picked(ps@, fs@);
    let mut out: Vec<CoreItem> = Vec::new();
    let mut i: usize = 0;
    while i < fs.len()
        invariant
            i <= fs@.len(),
            all == picked(ps@, us@),
            firsts == picked(ps@, fs@),
            forall|j: int| 0 <= j < us@.len() ==> (#[trigger] us@[j]) < ps@.len(),
            forall|j: int| 0 <= j < fs@.len() ==> (#[trigger] fs@[j]) < ps@.len(),
            item_views(out@) == file_items(firsts.subrange(0, i as int), all, range, edit_views(edits@)),
        decreases fs@.len() - i,
    {
        let p = &ps[fs[i]];
        assert(firsts.subrange(0, i + 1).drop_last() =~= firsts.subrange(0, i as int));
        assert(firsts.subrange(0, i + 1).last() == p@);
        let count = count_path(ps, us, p.rel_path.as_str());
        match file_item_exec_of(p, count, range, edits) {
            Some(it) => {
                let ghost prev = out@;
                out.push(it);
                assert(item_views(out@) =~= item_views(prev).push(it@));
            },
            None => {},
        }
        i += 1;
    }
    assert(firsts.subrange(0, fs@.len() as int) =~= firsts);
    out
}

fn path_stem_of(path: &str) -> (r: String)
    ensures
        r@ == path_stem(path@),
{
    let c = str_chars(path);
    let slash = super::context::after_last(c.as_slice(), '/', c.len());
    let name = chars_between(c.as_slice(), slash, c.len());
    let dot = super::context::after_last(name.as_slice(), '.', name.len());
    if dot > 0 {
        let stem = chars_between(name.as_slice(), 0, dot - 1);
        string_of_chars(stem.as_slice())
    } else {
        string_of_chars(name.as_slice())
    }
}

fn fragment_item_of(p: &FmPatchData, fragment: &str, range: EditRange, edits: &Vec<CoreTextEdit>) -> (r: Option<CoreItem>)
    ensures
        match fragment_item(p@, fragment@, range, edit_views(edits@)) {
            Some(it) => r matches Some(x) && x@ == it,
            None => r is None,
        },
{
    let text = match fm_param_text_of(p.mml.as_str()) {
        Some(t) => t,
        None => {
            return None;
        },
    };
    let label = match &p.name {
        Some(n) => n.clone(),
        None => path_stem_of(p.rel_path.as_str()),
    };
    let filter = concat3(fragment, "/", label.as_str());
    assert("/"@ == seq!['/']) by {
        reveal_strlit("/");
    }
    let doc = if super::items::str_empty(p.rel_path.as_str()) { None } else { Some(p.rel_path.clone()) };
    let detail = if p.has_macros { Some("[macros]".to_owned()) } else { None };
    let it = CoreItem {
        label: label.clone(),
        label_description: Some(fragment.to_owned()),
        kind: CoreItemKind::Value,
        detail,
        documentation: doc,
        insert: InsertSpec { text, format: InsertFormat::PlainText, as_is: true },
        filter_text: Some(filter),
        sort_text: Some(label),
        preselect: false,
        edit_range: range,
        additional_edits: copy_edits(edits),
        command: None,
    };
    Some(it)
}

fn fragment_items_of(ps: &[FmPatchData], us: &Vec<usize>, fragment: &str, range: EditRange, edits: &Vec<CoreTextEdit>) -> (r: Vec<CoreItem>)
    requires
        forall|j: int| 0 <= j < us@.len() ==> (#[trigger] us@[j]) < ps@.len(),
    ensures
        item_views(r@) == fragment_items(picked(ps@, us@), fragment@, range, edit_views(edits@)),
{
    let ghost all = picked(ps@, us@);
    let mut out: Vec<CoreItem> = Vec::new();
    let mut i: usize = 0;
    while i < us.len()
        invariant
            i <= us@.len(),
            all == picked(ps@, us@),
            forall|j: int| 0 <= j < us@.len() ==> (#[trigger] us@[j]) < ps@.len(),
            item_views(out@) == fragment_items(all.subrange(0, i as int), fragment@, range, edit_views(edits@)),
        decreases us@.len() - i,
    {
        let p = &ps[us[i]];
        assert(all.subrange(0, i + 1).drop_last() =~= all.subrange(0, i as int));
        assert(all.subrange(0, i + 1).last() == p@);
        if str_eq(p.rel_path.as_str(), fragment) {
            match fragment_item_of(p, fragment, range, edits) {
                Some(it) => {
                    let ghost prev = out@;
                    out.push(it);
                    assert(item_views(out@) =~= item_views(prev).push(it@));
                },
                None => {},
            }
        }
        i += 1;
    }
    assert(all.subrange(0, us@.len() as int) =~= all);
    out
}

fn default_fm_item_of(range: EditRange, edits: &Vec<CoreTextEdit>) -> (r: CoreItem)
    ensures
        r@ == default_fm_item(range, edit_views(edits@)),
{
    CoreItem {
        label: "Default FM template".to_owned(),
        label_description: None,
        kind: CoreItemKind::Snippet,
        detail: Some("template".to_owned()),
        documentation: None,
        insert: InsertSpec { text: crate::docs::fm_default_template().to_owned(), format: InsertFormat::Snippet, as_is: false },
        filter_text: Some("default fm template".to_owned()),
        sort_text: Some("~default".to_owned()),
        preselect: false,
        edit_range: range,
        additional_edits: copy_edits(edits),
        command: None,
    }
}

// ---------------------------------------------------------------------------
// Instrument parameter lines below the cursor
// ---------------------------------------------------------------------------

/// Whitespace, an ASCII digit, or one of `+-,>:|/`.
pub open spec fn param_char(c: char) -> bool {
    is_unicode_ws(c) || ('0' <= c <= '9') || c == '+' || c == '-' || c == ',' || c == '>' || c == ':' || c == '|'
        || c == '/'
}

/// Every character before the first `;` of `l` is a parameter character.
pub open spec fn param_line(l: Seq<char>) -> bool {
    let f = find_chars(l, seq![';'], 0);
    let end = if f >= 0 { f } else { l.len() as int };
    forall|i: int| 0 <= i < end ==> param_char(#[trigger] l[i])
}

/// Scanning lines from `idx` for the parameter block of an instrument
/// header: the last parameter (or `; '` comment) line before a blank
/// line after parameters, an `@` line, a track line or other text.
pub open spec fn param_scan(ls: Seq<Seq<char>>, idx: int, has: bool, last: Option<int>) -> Option<int>
    decreases ls.len() - idx,
{
    if idx < 0 || idx >= ls.len() {
        last
    } else {
        let l = ls[idx];
        let t = trim_start_chars(l);
        let is_param = param_line(l);
        if (l.len() > 0 && l[0] == '@') || (leading_selector(encode_utf8(l)) is Some && !is_param) {
            last
        } else if t.len() == 0 {
            if has { last } else { param_scan(ls, idx + 1, has, last) }
        } else if t[0] == ';' && !chars_at(t, 0, "; '"@) {
            param_scan(ls, idx + 1, has, last)
        } else if chars_at(t, 0, "; '"@) || is_param {
            param_scan(ls, idx + 1, true, Some(idx))
        } else {
            last
        }
    }
}

/// The edit that removes the existing parameter lines below header line
/// `li`, if there are any.
pub open spec fn param_edits(ls: Seq<Seq<char>>, li: int) -> Seq<EditModel> {
    let start = li + 1;
    if start >= ls.len() {
        Seq::empty()
    } else {
        match param_scan(ls, start, false, None) {
            None => Seq::empty(),
            Some(la) => seq![
                EditModel {
                    range: EditRange {
                        start: Pos { line: start as u32, character: 0 },
                        end: if la + 1 >= ls.len() {
                            Pos { line: la as u32, character: units_before(ls[la], ls[la].len() as int) as u32 }
                        } else {
                            Pos { line: (la + 1) as u32, character: 0 }
                        },
                    },
                    new_text: Seq::empty(),
                },
            ],
        }
    }
}

/// Every line of `text` fits `u32` offsets, and so does the line count.
pub open spec fn text_fits(text: Seq<char>) -> bool {
    let ls = char_lines(text);
    ls.len() <= u32::MAX && forall|i: int| 0 <= i < ls.len() ==> encode_utf8(#[trigger] ls[i]).len() <= u32::MAX
}

/// The lines of `text` (see [`char_lines`]) as strings.
fn split_lines(text: &str) -> (r: Vec<String>)
    ensures
        r@.map_values(|x: String| x@) == char_lines(text@),
{
    let c = str_chars(text);
    let ranges = crate::strings::char_line_ranges(c.as_slice());
    let ghost want = char_lines(c@);
    let mut out: Vec<String> = Vec::new();
    let mut i: usize = 0;
    while i < ranges.len()
        invariant
            i <= ranges@.len() == want.len(),
            want == char_lines(c@),
            c@ == text@,
            forall|k: int| 0 <= k < ranges@.len() ==> (#[trigger] ranges@[k]).0 <= ranges@[k].1 <= c@.len()
                && c@.subrange(ranges@[k].0 as int, ranges@[k].1 as int) == want[k],
            out@.map_values(|x: String| x@) == want.subrange(0, i as int),
        decreases ranges@.len() - i,
    {
        let (a, b) = ranges[i];
        let piece = chars_between(c.as_slice(), a, b);
        let ghost prev = out@;
        out.push(string_of_chars(piece.as_slice()));
        assert(out@.map_values(|x: String| x@) =~= prev.map_values(|x: String| x@).push(want[i as int]));
        assert(want.subrange(0, i + 1) =~= want.subrange(0, i as int).push(want[i as int]));
        i += 1;
    }
    assert(want.subrange(0, want.len() as int) =~= want);
    out
}

fn is_param_line(l: &[char]) -> (r: bool)
    ensures
        r == param_line(l@),
{
    let sc = vec![';'];
    assert(sc@ =~= seq![';']);
    let _n = l.len();
    let end = match super::context::find_chars_exec(l, sc.as_slice()) {
        Some(f) => f,
        None => l.len(),
    };
    let mut i: usize = 0;
    while i < end
        invariant
            i <= end <= l@.len(),
            end == (if find_chars(l@, seq![';'], 0) >= 0 { find_chars(l@, seq![';'], 0) } else { l@.len() as int }),
            forall|j: int| 0 <= j < i ==> param_char(#[trigger] l@[j]),
        decreases end - i,
    {
        let c = l[i];
        if !(crate::strings::whitespace_char(c) || ('0' <= c && c <= '9') || c == '+' || c == '-' || c == ',' || c
            == '>' || c == ':' || c == '|' || c == '/') {
            assert(!param_char(l@[i as int]));
            return false;
        }
        i += 1;
    }
    true
}

/// See [`param_edits`].
fn param_edits_of(lines: &Vec<String>, li: u32) -> (r: Vec<CoreTextEdit>)
    requires
        text_lines_fit(lines@),
    ensures
        edit_views(r@) == param_edits(lines@.map_values(|x: String| x@), li as int),
{
    let ghost ls = lines@.map_values(|x: String| x@);
    let n = lines.len();
    if li as usize >= n || li as usize + 1 >= n {
        let v: Vec<CoreTextEdit> = Vec::new();
        assert(edit_views(v@) =~= Seq::<EditModel>::empty());
        return v;
    }
    let start = li as usize + 1;
    let pre = str_chars("; '");
    let mut has = false;
    let mut last: Option<usize> = None;
    let mut idx = start;
    let mut done = false;
    while idx < n && !done
        invariant
            start <= idx <= n == lines@.len() == ls.len(),
            ls == lines@.map_values(|x: String| x@),
            pre@ == "; '"@,
            last matches Some(x) ==> start <= x < n,
            done ==> param_scan(ls, start as int, false, None) == match last {
                Some(x) => Some(x as int),
                None => None::<int>,
            },
            !done ==> param_scan(ls, start as int, false, None) == param_scan(ls, idx as int, has, match last {
                Some(x) => Some(x as int),
                None => None::<int>,
            }),
        decreases n - idx + (if done { 0int } else { 1int }),
    {
        let l = str_chars(lines[idx].as_str());
        assert(l@ == ls[idx as int]);
        let t = crate::hover_params::trim_start_vec(l.as_slice());
        let is_param = is_param_line(l.as_slice());
        let sel = match parse_leading_track_selector(lines[idx].as_str()) {
            Some(_) => true,
            None => false,
        };
        if (l.len() > 0 && l[0] == '@') || (sel && !is_param) {
            done = true;
        } else if t.len() == 0 {
            if has {
                done = true;
            } else {
                idx += 1;
            }
        } else if t[0] == ';' && !super::context::chars_at_exec(t.as_slice(), 0, pre.as_slice()) {
            idx += 1;
        } else if super::context::chars_at_exec(t.as_slice(), 0, pre.as_slice()) || is_param {
            has = true;
            last = Some(idx);
            idx += 1;
        } else {
            done = true;
        }
    }
    let la = match last {
        Some(x) => x,
        None => {
            let v: Vec<CoreTextEdit> = Vec::new();
            assert(edit_views(v@) =~= Seq::<EditModel>::empty());
            return v;
        },
    };
    let end = if la + 1 >= n {
        let lc = str_chars(lines[la].as_str());
        let _b = lines[la].as_str().as_bytes().len();
        proof {
            super::lemma_encoded_len(lc@);
            super::lemma_prefix_monotone(lc@, 0, lc@.len() as int);
        }
        Pos { line: la as u32, character: super::context::units_to(lc.as_slice(), lc.len()) }
    } else {
        Pos { line: (la + 1) as u32, character: 0 }
    };
    let e = CoreTextEdit {
        range: EditRange::new(Pos { line: start as u32, character: 0 }, end),
        new_text: String::new(),
    };
    let mut out: Vec<CoreTextEdit> = Vec::new();
    out.push(e);
    assert(edit_views(out@) =~= param_edits(ls, li as int));
    out
}

/// The lines of a text fit `u32` offsets, and so does their count.
pub open spec fn text_lines_fit(v: Seq<String>) -> bool {
    v.len() <= u32::MAX && forall|i: int| 0 <= i < v.len() ==> encode_utf8((#[trigger] v[i])@).len() <= u32::MAX
}

// ---------------------------------------------------------------------------
// Lists
// ---------------------------------------------------------------------------

/// FM patches for `@N fm` on line `li` of `ls` before character `k`: in
/// the hierarchical picker's patch step the patches of the typed file, in
/// its file step one item per file, else one item per patch; each with
/// the edit that replaces parameter lines already below the header, and
/// the default template.
pub open spec fn fm_list(ls: Seq<Seq<char>>, li: u32, k: int, hierarchy: bool, fragment: Option<Seq<char>>, patches: Seq<PatchModel>) -> ListModel {
    let s = ls[li as int];
    let p = s.subrange(0, k);
    match keyword_after_header(p, "fm"@) {
        None => empty_list(),
        Some(fm_end) => {
            let ctx = if hierarchy { fm_fragment(p, fm_end) } else { None };
            if ctx != fragment {
                empty_list()
            } else {
                let range = char_range(s, li, fm_end, s.len() as int);
                let edits = param_edits(ls, li as int);
                let us = usable_patches(patches);
                let items = match fragment {
                    Some(f) => {
                        let fi = fragment_items(us, f, range, edits);
                        if fi.len() == 0 { seq![default_fm_item(range, edits)] } else { fi }
                    },
                    None => if hierarchy {
                        file_items(first_patches(us), us, range, edits).push(default_fm_item(range, edits))
                    } else {
                        flat_items(us, us, range, edits).push(default_fm_item(range, edits))
                    },
                };
                ListModel { items, is_incomplete: false }
            }
        },
    }
}

/// The measure-fill item inserting `fill`.
pub open spec fn fill_item(fill: Seq<char>, range: EditRange) -> ItemModel {
    ItemModel {
        label: "Fill measure ("@ + fill + ")"@,
        label_description: None,
        kind: CoreItemKind::Snippet,
        detail: None,
        documentation: None,
        insert_text: fill,
        format: InsertFormat::PlainText,
        as_is: false,
        filter_text: None,
        sort_text: Some("0"@),
        preselect: false,
        edit_range: range,
        additional_edits: Seq::empty(),
        command: None,
    }
}

/// Rests filling the measure after the `|` just typed on line `s` before
/// character `k`, from the compiled cursor tick.
pub open spec fn fill_list(text: Seq<char>, s: Seq<char>, li: u32, k: int, timing: Option<CursorTickData>) -> ListModel {
    match timing {
        None => empty_list(),
        Some(t) => if t.ppqn == 0 {
            empty_list()
        } else {
            match spec_scan_time_signature(text) {
                None => empty_list(),
                Some(ts) => {
                    let b = encode_utf8(s);
                    let cb = bytes_before(s, k);
                    if cb == 0 || b[cb - 1] != 0x7Cu8 {
                        empty_list()
                    } else {
                        let rests = spec_measure_rests(t.tick, t.ppqn, ts, spec_after_bar_line(b, cb as u32));
                        if rests.len() == 0 {
                            empty_list()
                        } else {
                            let range = EditRange {
                                start: Pos { line: li, character: byte_to_utf16(s, cb - 1, 0) as u32 },
                                end: Pos { line: li, character: byte_to_utf16(s, cb, 0) as u32 },
                            };
                            ListModel { items: seq![fill_item(rests + " |"@, range)], is_incomplete: false }
                        }
                    }
                },
            }
        },
    }
}

/// The second completion stage: the first stage's list, or the list built
/// from host data of the kind it asked for (empty for any other kind).
pub open spec fn resolve_spec(text: Seq<char>, pos: Pos, settings: CompletionSettings, data: PayloadModel) -> ListModel {
    match plan_spec(text, pos, settings) {
        PlanModel::Done(l) => l,
        PlanModel::NeedsData(req) => {
            let ls = char_lines(text);
            let s = ls[pos.line as int];
            let k = utf16_to_char(s, pos.character as int, 0);
            match req {
                RequestModel::PcmPaths => match data {
                    PayloadModel::PcmPaths(v) => pcm_paths_list(s, pos.line, k, v),
                    _ => empty_list(),
                },
                RequestModel::PcmFiles => match data {
                    PayloadModel::PcmFiles(v) => pcm_files_list(s, pos.line, k, v),
                    _ => empty_list(),
                },
                RequestModel::FmPatches(f) => match data {
                    PayloadModel::FmPatches(v) => fm_list(ls, pos.line, k, settings.fm_picker_hierarchy, f, v),
                    _ => empty_list(),
                },
                RequestModel::CursorTick => match data {
                    PayloadModel::CursorTick(t) => fill_list(text, s, pos.line, k, t),
                    _ => empty_list(),
                },
            }
        },
    }
}

/// The host's cursor timing suits the text's time signature.
pub open spec fn tick_fits(text: Seq<char>, data: PayloadModel) -> bool {
    match data {
        PayloadModel::CursorTick(Some(t)) => (t.ppqn > 0 && spec_scan_time_signature(text) is Some) ==> (t.ppqn * 7
            <= u32::MAX && measure_ok(t.ppqn, spec_scan_time_signature(text).unwrap())),
        _ => true,
    }
}

fn same_fragment(a: &Option<Vec<char>>, b: &Option<String>) -> (r: bool)
    ensures
        r == ((match a {
            Some(v) => Some(v@),
            None => None::<Seq<char>>,
        }) == super::types::opt_chars(*b)),
{
    match (a, b) {
        (Some(x), Some(y)) => {
            let yc = str_chars(y.as_str());
            let xs = string_of_chars(x.as_slice());
            let e = str_eq(xs.as_str(), y.as_str());
            e
        },
        (None, None) => true,
        _ => false,
    }
}

/// See [`fm_list`].
fn resolve_fm(lines: &Vec<String>, s: &[char], li: u32, k: usize, hierarchy: bool, fragment: Option<String>, patches: &[FmPatchData]) -> (r: CoreCompletionList)
    requires
        (li as int) < lines@.len(),
        lines@[li as int]@ == s@,
        k <= s@.len(),
        text_lines_fit(lines@),
        units_before(s@, s@.len() as int) <= u32::MAX,
    ensures
        r@ == fm_list(lines@.map_values(|x: String| x@), li, k as int, hierarchy, super::types::opt_chars(fragment), patches@.map_values(|p: FmPatchData| p@)),
{
    let ghost ls = lines@.map_values(|x: String| x@);
    assert(ls[li as int] == s@);
    let p = chars_between(s, 0, k);
    let fm = str_chars("fm");
    let fm_end = match super::context::keyword_after_header_of(p.as_slice(), fm.as_slice()) {
        Some(e) => e,
        None => {
            let e = CoreCompletionList::empty();
            assert(e@.items =~= Seq::<ItemModel>::empty());
            return e;
        },
    };
    let ctx = if hierarchy { super::context::fm_fragment_of(p.as_slice(), fm_end) } else { None };
    if !same_fragment(&ctx, &fragment) {
        let e = CoreCompletionList::empty();
        assert(e@.items =~= Seq::<ItemModel>::empty());
        return e;
    }
    let range = char_range_of(s, li, fm_end, s.len());
    let edits = param_edits_of(lines, li);
    let us = usable_indices(patches);
    let ghost pv = patches@.map_values(|q: FmPatchData| q@);
    let items = match &fragment {
        Some(f) => {
            let mut fi = fragment_items_of(patches, &us, f.as_str(), range, &edits);
            if fi.len() == 0 {
                let d = default_fm_item_of(range, &edits);
                let ghost prev = fi@;
                fi.push(d);
                assert(item_views(fi@) =~= seq![d@]);
            }
            fi
        },
        None => {
            let mut v = if hierarchy {
                let fs = first_indices(patches, &us);
                file_items_of(patches, &us, &fs, range, &edits)
            } else {
                flat_items_of(patches, &us, range, &edits)
            };
            let d = default_fm_item_of(range, &edits);
            let ghost prev = v@;
            v.push(d);
            assert(item_views(v@) =~= item_views(prev).push(d@));
            v
        },
    };
    CoreCompletionList { items, is_incomplete: false }
}

/// See [`fill_list`].
fn resolve_fill(text: &str, s: &[char], li: u32, k: usize, timing: Option<CursorTickData>) -> (r: CoreCompletionList)
    requires
        k <= s@.len(),
        encode_utf8(s@).len() <= u32::MAX,
        tick_fits(text@, PayloadModel::CursorTick(timing)),
    ensures
        r@ == fill_list(text@, s@, li, k as int, timing),
{
    let t = match timing {
        Some(t) => t,
        None => {
            let e = CoreCompletionList::empty();
            assert(e@.items =~= Seq::<ItemModel>::empty());
            return e;
        },
    };
    if t.ppqn == 0 {
        let e = CoreCompletionList::empty();
        assert(e@.items =~= Seq::<ItemModel>::empty());
        return e;
    }
    let ts = match crate::timesig::scan_time_signature(text) {
        Some(ts) => ts,
        None => {
            let e = CoreCompletionList::empty();
            assert(e@.items =~= Seq::<ItemModel>::empty());
            return e;
        },
    };
    let line = string_of_chars(s);
    let b = line.as_str().as_bytes();
    proof {
        lemma_encoded_len(s@);
        lemma_prefix_monotone(s@, k as int, s@.len() as int);
        lemma_prefix_monotone(s@, 0, s@.len() as int);
    }
    let cb = super::context::bytes_to(s, k);
    if cb == 0 || b[cb - 1] != 0x7Cu8 {
        let e = CoreCompletionList::empty();
        assert(e@.items =~= Seq::<ItemModel>::empty());
        return e;
    }
    let after = crate::beat_fill::is_after_bar_line(line.as_str(), cb as u32);
    let rests = crate::beat_fill::generate_measure_rests(t.tick, t.ppqn, Some(ts), after);
    if super::items::str_empty(rests.as_str()) {
        let e = CoreCompletionList::empty();
        assert(e@.items =~= Seq::<ItemModel>::empty());
        return e;
    }
    let fill = concat3(rests.as_str(), " |", "");
    let label = concat3("Fill measure (", fill.as_str(), ")");
    assert(""@ =~= Seq::<char>::empty()) by {
        reveal_strlit("");
    }
    let start = super::byte_offset_to_utf16_character(line.as_str(), cb - 1);
    let end = super::byte_offset_to_utf16_character(line.as_str(), cb);
    let it = CoreItem {
        label,
        label_description: None,
        kind: CoreItemKind::Snippet,
        detail: None,
        documentation: None,
        insert: InsertSpec { text: fill, format: InsertFormat::PlainText, as_is: false },
        filter_text: None,
        sort_text: Some("0".to_owned()),
        preselect: false,
        edit_range: EditRange::new(Pos { line: li, character: start }, Pos { line: li, character: end }),
        additional_edits: Vec::new(),
        command: None,
    };
    assert(it@.additional_edits =~= Seq::<EditModel>::empty());
    let mut items: Vec<CoreItem> = Vec::new();
    items.push(it);
    assert(item_views(items@) =~= seq![it@]);
    CoreCompletionList { items, is_incomplete: false }
}

/// Finish completion at `pos` with host `data`. Detection runs again, so
/// data of another kind than the one requested gives an empty list.
pub fn completion_resolve(text: &str, pos: Pos, trigger: Option<char>, settings: &CompletionSettings, data: DataPayload) -> (r: CoreCompletionList)
    requires
        text_fits(text@),
        tick_fits(text@, data@),
        super::plan::plan_slots_ok(text@, pos, *settings),
    ensures
        r@ == resolve_spec(text@, pos, *settings, data@),
{
    let ghost ls = char_lines(text@);
    proof {
        if (pos.line as int) < ls.len() {
            let l = ls[pos.line as int];
            lemma_encoded_len(l);
            lemma_prefix_monotone(l, 0, l.len() as int);
        }
    }
    let plan = super::plan::completion_plan(text, pos, trigger, settings);
    let req = match plan {
        CompletionPlan::Done(l) => {
            return l;
        },
        CompletionPlan::NeedsData(req) => req,
    };
    let s = match super::plan::line_chars_at(text, pos.line) {
        Some(v) => v,
        None => {
            let e = CoreCompletionList::empty();
            assert(e@.items =~= Seq::<ItemModel>::empty());
            return e;
        },
    };
    let k = super::context::char_cursor(s.as_slice(), pos.character);
    match req {
        DataRequest::PcmPaths => match data {
            DataPayload::PcmPaths(v) => resolve_pcm_paths(s.as_slice(), pos.line, k, v),
            _ => {
                let e = CoreCompletionList::empty();
                assert(e@.items =~= Seq::<ItemModel>::empty());
                e
            },
        },
        DataRequest::PcmFiles => match data {
            DataPayload::PcmFiles(v) => resolve_pcm_files(s.as_slice(), pos.line, k, v),
            _ => {
                let e = CoreCompletionList::empty();
                assert(e@.items =~= Seq::<ItemModel>::empty());
                e
            },
        },
        DataRequest::FmPatches { fragment } => match data {
            DataPayload::FmPatches(v) => {
                let lines = split_lines(text);
                assert(lines@[pos.line as int]@ == ls[pos.line as int]);
                assert(text_lines_fit(lines@)) by {
                    assert forall|i: int| 0 <= i < lines@.len() implies encode_utf8((#[trigger] lines@[i])@).len()
                        <= u32::MAX by {
                        assert(lines@[i]@ == ls[i]);
                    }
                }
                resolve_fm(&lines, s.as_slice(), pos.line, k, settings.fm_picker_hierarchy, fragment, v.as_slice())
            },
            _ => {
                let e = CoreCompletionList::empty();
                assert(e@.items =~= Seq::<ItemModel>::empty());
                e
            },
        },
        DataRequest::CursorTick => match data {
            DataPayload::CursorTick(t) => resolve_fill(text, s.as_slice(), pos.line, k, t),
            _ => {
                let e = CoreCompletionList::empty();
                assert(e@.items =~= Seq::<ItemModel>::empty());
                e
            },
        },
    }
}

/// The edit removing the parameter lines already below the instrument
/// header on line `cursor_line` of `text` (see [`param_edits`]).
pub fn collect_instrument_param_edit(text: &str, cursor_line: u32) -> (r: Vec<CoreTextEdit>)
    requires
        text_fits(text@),
    ensures
        edit_views(r@) == param_edits(char_lines(text@), cursor_line as int),
{
    let ghost ls = char_lines(text@);
    let lines = split_lines(text);
    assert(text_lines_fit(lines@)) by {
        assert forall|i: int| 0 <= i < lines@.len() implies encode_utf8((#[trigger] lines@[i])@).len() <= u32::MAX by {
            assert(lines@[i]@ == ls[i]);
        }
    }
    param_edits_of(&lines, cursor_line)
}

// ---------------------------------------------------------------------------
// Laws
// ---------------------------------------------------------------------------

/// The payload carries the kind of data that request `req` asks for.
pub open spec fn payload_matches(req: RequestModel, data: PayloadModel) -> bool {
    match req {
        RequestModel::PcmPaths => data is PcmPaths,
        RequestModel::PcmFiles => data is PcmFiles,
        RequestModel::FmPatches(_) => data is FmPatches,
        RequestModel::CursorTick => data is CursorTick,
    }
}

/// When the first stage finishes without data, resolving returns its
/// list whatever the payload.
pub proof fn law_resolve_keeps_finished_plan(text: Seq<char>, pos: Pos, settings: CompletionSettings, data: PayloadModel)
    requires
        plan_spec(text, pos, settings) is Done,
    ensures
        PlanModel::Done(resolve_spec(text, pos, settings, data)) == plan_spec(text, pos, settings),
{
}

/// Data of another kind than the one the first stage asks for resolves to
/// an empty, complete list.
pub proof fn law_mismatched_payload_is_empty(text: Seq<char>, pos: Pos, settings: CompletionSettings, data: PayloadModel)
    requires
        plan_spec(text, pos, settings) matches PlanModel::NeedsData(req) && !payload_matches(req, data),
    ensures
        resolve_spec(text, pos, settings, data) == empty_list(),
{
}

} // verus!
