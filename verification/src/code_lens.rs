//! Code lens enumeration.
//!
//! Two kinds of lenses:
//!
//! 1. Instrument preview buttons: `Load` / `Save` / `Play <channel>`
//!    lenses anchored to `@N fm` / `@N psg` / `@N pcm` definitions, with
//!    the command IDs `mml.previewPatch`, `mml.loadPatch` and
//!    `mml.savePatch`.
//! 2. Track header labels: for lines that start with a track selector
//!    (`A`, `AB`, `*32`, ...), an informational `FM1, FM2` style label
//!    naming the channels the section drives.

use vstd::prelude::*;
use vstd::utf8::encode_utf8;
use vstd::string::StringSliceAdditionalSpecFns;
use crate::strings::{
    str_chars, std_lines, std_line_ranges, chars_between, trim_start_chars, trim_chars, is_unicode_ws,
    whitespace_char, skip_ws_forward, trimmed_chars, dec_chars, push_decimal, push_chars,
};
use crate::block_finder::{at_number, parse_at_number};
use crate::track_selector::{LeadingTrackSpan, leading_selector, parse_leading_track_selector};

verus! {

/// One emitted lens.
#[derive(Debug, Clone, PartialEq, Eq)]
pub struct CodeLens {
    /// 0-based line index where the lens should anchor.
    pub line: u32,
    /// Title shown in the editor.
    pub title: String,
    /// Command ID, or `None` for informational labels.
    pub command_id: Option<String>,
    /// Argument list. Callers usually prepend the document URI before
    /// sending the command to a client.
    pub arguments: Vec<String>,
}

/// The content of a [`CodeLens`].
pub struct LensModel {
    pub line: u32,
    pub title: Seq<char>,
    pub command_id: Option<Seq<char>>,
    pub arguments: Seq<Seq<char>>,
}

impl View for CodeLens {
    type V = LensModel;

    open spec fn view(&self) -> LensModel {
        LensModel {
            line: self.line,
            title: self.title@,
            command_id: match self.command_id {
                Some(c) => Some(c@),
                None => None,
            },
            arguments: self.arguments@.map_values(|a: String| a@),
        }
    }
}

/// Instrument categories that get preview lenses.
#[derive(Debug, Clone, Copy, PartialEq, Eq)]
pub enum PreviewType {
    Fm,
    Psg,
    Pcm,
}

/// The keyword naming a preview type.
pub open spec fn preview_keyword(t: PreviewType) -> Seq<char> {
    match t {
        PreviewType::Fm => seq!['f', 'm'],
        PreviewType::Psg => seq!['p', 's', 'g'],
        PreviewType::Pcm => seq!['p', 'c', 'm'],
    }
}

/// `s` starts with the keyword of `t`, followed by the end of `s`,
/// whitespace or `;`.
pub open spec fn keyword_ends(s: Seq<char>, t: PreviewType) -> bool {
    let k = preview_keyword(t);
    &&& s.len() >= k.len()
    &&& s.subrange(0, k.len() as int) == k
    &&& (s.len() == k.len() || is_unicode_ws(s[k.len() as int]) || s[k.len() as int] == ';')
}

/// The first of `fm`, `psg`, `pcm` that `s` starts with as a word.
pub open spec fn type_at_start(s: Seq<char>) -> Option<PreviewType> {
    if keyword_ends(s, PreviewType::Fm) {
        Some(PreviewType::Fm)
    } else if keyword_ends(s, PreviewType::Psg) {
        Some(PreviewType::Psg)
    } else if keyword_ends(s, PreviewType::Pcm) {
        Some(PreviewType::Pcm)
    } else {
        None
    }
}

/// First line in `j..=end` whose trimmed text is neither empty nor a
/// `;` comment.
pub open spec fn first_content(lines: Seq<Seq<char>>, j: int, end: int) -> Option<int>
    decreases end + 1 - j,
{
    if j > end || j < 0 || j >= lines.len() {
        None
    } else {
        let t = trim_chars(lines[j]);
        if t.len() == 0 || t[0] == ';' { first_content(lines, j + 1, end) } else { Some(j) }
    }
}

/// The instrument definition that line `idx` heads: `@N <type>` on the
/// line itself, or `@N` alone (perhaps with a comment) with the type
/// keyword on the next content line within three lines.
pub open spec fn definition_at(lines: Seq<Seq<char>>, idx: int) -> Option<(PreviewType, u32)> {
    let t = trim_start_chars(lines[idx]);
    match at_number(t) {
        None => None,
        Some((n, e)) => {
            let after = trim_start_chars(t.subrange(e, t.len() as int));
            match type_at_start(after) {
                Some(ty) => Some((ty, n)),
                None => if after.len() > 0 && after[0] != ';' {
                    None
                } else {
                    let last = if lines.len() == 0 { 0 } else { lines.len() - 1 };
                    let le = if idx + 3 < last { idx + 3 } else { last };
                    match first_content(lines, idx + 1, le) {
                        None => None,
                        Some(j) => match type_at_start(trim_chars(lines[j])) {
                            Some(ty) => Some((ty, n)),
                            None => None,
                        },
                    }
                },
            }
        },
    }
}

/// A lens with the given parts.
pub open spec fn lens(line: u32, title: Seq<char>, cmd: Option<Seq<char>>, args: Seq<Seq<char>>) -> LensModel {
    LensModel { line, title, command_id: cmd, arguments: args }
}

/// The lenses of an instrument definition on `line` with number `n`.
pub open spec fn definition_lenses(line: u32, ty: PreviewType, n: u32) -> Seq<LensModel> {
    let ls = dec_chars(line as nat);
    let ns = dec_chars(n as nat);
    let kw = preview_keyword(ty);
    let preview = Some("mml.previewPatch"@);
    let load = Some("mml.loadPatch"@);
    let save = Some("mml.savePatch"@);
    match ty {
        PreviewType::Fm => seq![
            lens(line, "$(folder-opened) Load"@, load, seq![ls, kw]),
            lens(line, "$(save) Save"@, save, seq![ls, kw]),
            lens(line, "$(play) FM"@, preview, seq![ls, kw, "A"@, ns]),
        ],
        PreviewType::Pcm => seq![
            lens(line, "$(folder-opened) Load"@, load, seq![ls, kw]),
            lens(line, "$(play) pcm"@, preview, seq![ls, kw, "F"@, ns]),
        ],
        PreviewType::Psg => seq![
            lens(line, "$(play) Square"@, preview, seq![ls, kw, "G"@, ns]),
            lens(line, "$(play) Noise mode=0"@, preview, seq![ls, kw, "J"@, ns]),
            lens(line, "$(play) Noise mode=1"@, preview, seq![ls, kw, "J 'mode 1'"@, ns]),
            lens(line, "$(play) Noise mode=2"@, preview, seq![ls, kw, "J 'mode 2'"@, ns]),
        ],
    }
}

/// The Mega Drive channel driven by track `id`; the dummy tracks `M..P`
/// and every track from `*16` on have none.
pub open spec fn channel_name(id: u32) -> Option<Seq<char>> {
    if id == 0 { Some("FM1"@) } else if id == 1 { Some("FM2"@) } else if id == 2 { Some("FM3"@) }
    else if id == 3 { Some("FM4"@) } else if id == 4 { Some("FM5"@) } else if id == 5 { Some("FM6"@) }
    else if id == 6 { Some("PSG1"@) } else if id == 7 { Some("PSG2"@) } else if id == 8 { Some("PSG3"@) }
    else if id == 9 { Some("Noise"@) } else if id == 10 { Some("PCM2"@) } else if id == 11 { Some("PCM3"@) }
    else { None }
}

/// The track a Mega Drive channel name belongs to, read from the name:
/// `FM1..FM6` are tracks 0..5, `PSG1..PSG3` tracks 6..8, `Noise` track 9,
/// `PCM2` and `PCM3` tracks 10 and 11.
pub open spec fn channel_track(name: Seq<char>) -> int {
    let last = name.last() as int;
    if name.len() == 3 && name[0] == 'F' && name[1] == 'M' { last - '1' as int }
    else if name.len() == 4 && name[0] == 'P' && name[1] == 'S' && name[2] == 'G' { 6 + (last - '1' as int) }
    else if name == seq!['N', 'o', 'i', 's', 'e'] { 9 }
    else if name.len() == 4 && name[0] == 'P' && name[1] == 'C' && name[2] == 'M' { 10 + (last - '2' as int) }
    else { -1 }
}

/// Exactly the twelve driven tracks `A..L` have a channel, and each one's
/// channel name reads back as that track: the labels run FM1..FM6,
/// PSG1..PSG3, Noise, PCM2, PCM3 and no two tracks share one.
pub proof fn law_channel_name_names_its_track(id: u32)
    ensures
        channel_name(id) is Some <==> id < 12,
        channel_name(id) is Some ==> channel_track(channel_name(id).unwrap()) == id,
{
    reveal_strlit("FM1");
    reveal_strlit("FM2");
    reveal_strlit("FM3");
    reveal_strlit("FM4");
    reveal_strlit("FM5");
    reveal_strlit("FM6");
    reveal_strlit("PSG1");
    reveal_strlit("PSG2");
    reveal_strlit("PSG3");
    reveal_strlit("Noise");
    reveal_strlit("PCM2");
    reveal_strlit("PCM3");
    if id == 0 {
        let n = channel_name(id).unwrap();
        assert(n =~= seq!['F', 'M', '1']);
        assert(n.last() as int == '1' as int);
    }
    if id == 1 {
        let n = channel_name(id).unwrap();
        assert(n =~= seq!['F', 'M', '2']);
        assert(n.last() as int == '2' as int);
    }
    if id == 2 {
        let n = channel_name(id).unwrap();
        assert(n =~= seq!['F', 'M', '3']);
        assert(n.last() as int == '3' as int);
    }
    if id == 3 {
        let n = channel_name(id).unwrap();
        assert(n =~= seq!['F', 'M', '4']);
        assert(n.last() as int == '4' as int);
    }
    if id == 4 {
        let n = channel_name(id).unwrap();
        assert(n =~= seq!['F', 'M', '5']);
        assert(n.last() as int == '5' as int);
    }
    if id == 5 {
        let n = channel_name(id).unwrap();
        assert(n =~= seq!['F', 'M', '6']);
        assert(n.last() as int == '6' as int);
    }
    if id == 6 {
        let n = channel_name(id).unwrap();
        assert(n =~= seq!['P', 'S', 'G', '1']);
        assert(n.last() as int == '1' as int);
    }
    if id == 7 {
        let n = channel_name(id).unwrap();
        assert(n =~= seq!['P', 'S', 'G', '2']);
        assert(n.last() as int == '2' as int);
    }
    if id == 8 {
        let n = channel_name(id).unwrap();
        assert(n =~= seq!['P', 'S', 'G', '3']);
        assert(n.last() as int == '3' as int);
    }
    if id == 9 {
        let n = channel_name(id).unwrap();
        assert(n =~= seq!['N', 'o', 'i', 's', 'e']);
        assert(n.last() as int == 'e' as int);
    }
    if id == 10 {
        let n = channel_name(id).unwrap();
        assert(n =~= seq!['P', 'C', 'M', '2']);
        assert(n != seq!['N', 'o', 'i', 's', 'e']);
        assert(n.last() as int == '2' as int);
    }
    if id == 11 {
        let n = channel_name(id).unwrap();
        assert(n =~= seq!['P', 'C', 'M', '3']);
        assert(n != seq!['N', 'o', 'i', 's', 'e']);
        assert(n.last() as int == '3' as int);
    }
}

/// Two different driven tracks never carry the same channel label.
pub proof fn law_channel_names_distinct(a: u32, b: u32)
    requires
        a < 12,
        b < 12,
        a != b,
    ensures
        channel_name(a) != channel_name(b),
{
    law_channel_name_names_its_track(a);
    law_channel_name_names_its_track(b);
}

/// The channel names of the tracks in `spans`, in order.
pub open spec fn span_channels(spans: Seq<LeadingTrackSpan>) -> Seq<Seq<char>>
    decreases spans.len(),
{
    if spans.len() == 0 {
        Seq::empty()
    } else {
        let rest = span_channels(spans.drop_last());
        match channel_name(spans.last().track_id) {
            Some(c) => rest.push(c),
            None => rest,
        }
    }
}

/// `parts` joined with `, `.
pub open spec fn join_comma(parts: Seq<Seq<char>>) -> Seq<char>
    decreases parts.len(),
{
    if parts.len() == 0 {
        Seq::empty()
    } else if parts.len() == 1 {
        parts[0]
    } else {
        join_comma(parts.drop_last()) + seq![',', ' '] + parts.last()
    }
}

/// The lenses of line `idx`: an instrument definition's buttons, else a
/// track header's channel label when its selector names any channel.
pub open spec fn line_lenses(lines: Seq<Seq<char>>, idx: int) -> Seq<LensModel> {
    match definition_at(lines, idx) {
        Some((ty, n)) => definition_lenses(idx as u32, ty, n),
        None => match leading_selector(encode_utf8(lines[idx])) {
            Some((spans, _)) => {
                let names = span_channels(spans);
                if names.len() > 0 { seq![lens(idx as u32, join_comma(names), None, Seq::empty())] } else { Seq::empty() }
            },
            None => Seq::empty(),
        },
    }
}

/// The lenses of lines `0..k`, in line order.
pub open spec fn lenses_upto(lines: Seq<Seq<char>>, k: int) -> Seq<LensModel>
    decreases k,
{
    if k <= 0 { Seq::empty() } else { lenses_upto(lines, k - 1) + line_lenses(lines, k - 1) }
}

/// The lenses of a whole document.
pub open spec fn spec_code_lens(text: Seq<char>) -> Seq<LensModel> {
    lenses_upto(std_lines(text), std_lines(text).len() as int)
}

fn keyword_chars(t: PreviewType) -> (r: Vec<char>)
    ensures
        r@ == preview_keyword(t),
{
    match t {
        PreviewType::Fm => vec!['f', 'm'],
        PreviewType::Psg => vec!['p', 's', 'g'],
        PreviewType::Pcm => vec!['p', 'c', 'm'],
    }
}

fn keyword_ends_at(s: &[char], from: usize, t: PreviewType) -> (r: bool)
    requires
        from <= s@.len(),
    ensures
        r == keyword_ends(s@.subrange(from as int, s@.len() as int), t),
{
    let ghost v = s@.subrange(from as int, s@.len() as int);
    let k = keyword_chars(t);
    if s.len() - from < k.len() {
        return false;
    }
    let slen = s.len();
    let mut i: usize = 0;
    while i < k.len()
        invariant
            slen == s@.len(),
            i <= k@.len(),
            k@ == preview_keyword(t),
            from + k@.len() <= s@.len(),
            v == s@.subrange(from as int, s@.len() as int),
            forall|m: int| 0 <= m < i ==> v[m] == k@[m],
        decreases k@.len() - i,
    {
        if s[from + i] != k[i] {
            assert(v.subrange(0, k@.len() as int)[i as int] != k@[i as int]);
            return false;
        }
        i += 1;
    }
    assert(v.subrange(0, k@.len() as int) =~= k@);
    let n = from + k.len();
    n == s.len() || whitespace_char(s[n]) || s[n] == ';'
}

fn type_at(s: &[char], from: usize) -> (r: Option<PreviewType>)
    requires
        from <= s@.len(),
    ensures
        r == type_at_start(s@.subrange(from as int, s@.len() as int)),
{
    if keyword_ends_at(s, from, PreviewType::Fm) {
        Some(PreviewType::Fm)
    } else if keyword_ends_at(s, from, PreviewType::Psg) {
        Some(PreviewType::Psg)
    } else if keyword_ends_at(s, from, PreviewType::Pcm) {
        Some(PreviewType::Pcm)
    } else {
        None
    }
}

/// The views of `v`.
pub open spec fn string_views(v: Seq<String>) -> Seq<Seq<char>> {
    v.map_values(|s: String| s@)
}

fn find_definition(lines: &Vec<String>, idx: usize) -> (r: Option<(PreviewType, u32)>)
    requires
        idx < lines@.len(),
        lines@.len() < usize::MAX - 4,
    ensures
        r == definition_at(string_views(lines@), idx as int),
{
    let ghost ls = string_views(lines@);
    let c = str_chars(lines[idx].as_str());
    assert(c@ == ls[idx as int]);
    let p = skip_ws_forward(c.as_slice(), 0, c.len());
    assert(c@.subrange(0, c@.len() as int) =~= c@);
    let t = chars_between(c.as_slice(), p, c.len());
    let (number, e) = match parse_at_number(t.as_slice()) {
        Some(x) => x,
        None => {
            return None;
        },
    };
    let q = skip_ws_forward(t.as_slice(), e, t.len());
    if let Some(ty) = type_at(t.as_slice(), q) {
        return Some((ty, number));
    }
    if q < t.len() && t[q] != ';' {
        assert(t@.subrange(q as int, t@.len() as int)[0] == t@[q as int]);
        return None;
    }
    let last: usize = if lines.len() == 0 { 0 } else { lines.len() - 1 };
    let le: usize = if idx + 3 < last { idx + 3 } else { last };
    let ghost target = first_content(ls, idx + 1, le as int);
    assert(definition_at(ls, idx as int) == (match target {
        None => None,
        Some(jj) => match type_at_start(trim_chars(ls[jj])) {
            Some(ty) => Some((ty, number)),
            None => None,
        },
    }));
    let mut j = idx + 1;
    while j <= le
        invariant
            idx + 1 <= j <= le + 1,
            le <= last < lines@.len(),
            lines@.len() < usize::MAX - 4,
            definition_at(ls, idx as int) == (match target {
                None => None,
                Some(jj) => match type_at_start(trim_chars(ls[jj])) {
                    Some(ty) => Some((ty, number)),
                    None => None,
                },
            }),
            ls == string_views(lines@),
            target == first_content(ls, idx + 1, le as int),
            target == first_content(ls, j as int, le as int),
        decreases le + 1 - j,
    {
        let next = trimmed_chars(lines[j].as_str());
        assert(next@ == trim_chars(ls[j as int]));
        if next.len() == 0 || next[0] == ';' {
            j += 1;
        } else {
            assert(target == Some(j as int));
            assert(next@.subrange(0, next@.len() as int) =~= next@);
            return match type_at(next.as_slice(), 0) {
                Some(ty) => Some((ty, number)),
                None => None,
            };
        }
    }
    None
}

fn string_of(s: &str) -> (r: String)
    ensures
        r@ == s@,
{
    s.to_owned()
}

fn decimal_string(n: u32) -> (r: String)
    ensures
        r@ == dec_chars(n as nat),
{
    let mut s = String::new();
    push_decimal(&mut s, n);
    assert(s@ =~= dec_chars(n as nat));
    s
}

fn keyword_string(t: PreviewType) -> (r: String)
    ensures
        r@ == preview_keyword(t),
{
    let k = keyword_chars(t);
    let mut s = String::new();
    push_chars(&mut s, k.as_slice());
    assert(s@ =~= preview_keyword(t));
    s
}

fn cmd_lens(line: u32, title: &str, command: &str, arguments: Vec<String>) -> (r: CodeLens)
    ensures
        r@ == lens(line, title@, Some(command@), string_views(arguments@)),
{
    CodeLens { line, title: string_of(title), command_id: Some(string_of(command)), arguments }
}

fn emit_instrument_variants(line: u32, ty: PreviewType, instrument_number: u32, out: &mut Vec<CodeLens>)
    ensures
        final(out)@.map_values(|l: CodeLens| l@) == old(out)@.map_values(|l: CodeLens| l@)
            + definition_lenses(line, ty, instrument_number),
{
    let ghost before = out@;
    let ghost ls = dec_chars(line as nat);
    let ghost ns = dec_chars(instrument_number as nat);
    let ghost kw = preview_keyword(ty);
    let preview = "mml.previewPatch";
    let load = "mml.loadPatch";
    let save = "mml.savePatch";
    match ty {
        PreviewType::Fm => {
            let a = vec![decimal_string(line), keyword_string(ty)];
            assert(string_views(a@) =~= seq![ls, kw]);
            let l1 = cmd_lens(line, "$(folder-opened) Load", load, a);
            assert(l1@ == lens(line, "$(folder-opened) Load"@, Some(load@), seq![ls, kw]));
            let b = vec![decimal_string(line), keyword_string(ty)];
            assert(string_views(b@) =~= seq![ls, kw]);
            let l2 = cmd_lens(line, "$(save) Save", save, b);
            assert(l2@ == lens(line, "$(save) Save"@, Some(save@), seq![ls, kw]));
            let c = vec![decimal_string(line), keyword_string(ty), string_of("A"), decimal_string(instrument_number)];
            assert(string_views(c@) =~= seq![ls, kw, "A"@, ns]);
            let l3 = cmd_lens(line, "$(play) FM", preview, c);
            assert(l3@ == lens(line, "$(play) FM"@, Some(preview@), seq![ls, kw, "A"@, ns]));
            out.push(l1);
            out.push(l2);
            out.push(l3);
        },
        PreviewType::Pcm => {
            let a = vec![decimal_string(line), keyword_string(ty)];
            assert(string_views(a@) =~= seq![ls, kw]);
            let l1 = cmd_lens(line, "$(folder-opened) Load", load, a);
            assert(l1@ == lens(line, "$(folder-opened) Load"@, Some(load@), seq![ls, kw]));
            let c = vec![decimal_string(line), keyword_string(ty), string_of("F"), decimal_string(instrument_number)];
            assert(string_views(c@) =~= seq![ls, kw, "F"@, ns]);
            let l2 = cmd_lens(line, "$(play) pcm", preview, c);
            assert(l2@ == lens(line, "$(play) pcm"@, Some(preview@), seq![ls, kw, "F"@, ns]));
            out.push(l1);
            out.push(l2);
        },
        PreviewType::Psg => {
            let a = vec![decimal_string(line), keyword_string(ty), string_of("G"), decimal_string(instrument_number)];
            assert(string_views(a@) =~= seq![ls, kw, "G"@, ns]);
            let l1 = cmd_lens(line, "$(play) Square", preview, a);
            assert(l1@ == lens(line, "$(play) Square"@, Some(preview@), seq![ls, kw, "G"@, ns]));
            let b = vec![decimal_string(line), keyword_string(ty), string_of("J"), decimal_string(instrument_number)];
            assert(string_views(b@) =~= seq![ls, kw, "J"@, ns]);
            let l2 = cmd_lens(line, "$(play) Noise mode=0", preview, b);
            assert(l2@ == lens(line, "$(play) Noise mode=0"@, Some(preview@), seq![ls, kw, "J"@, ns]));
            let c = vec![decimal_string(line), keyword_string(ty), string_of("J 'mode 1'"), decimal_string(instrument_number)];
            assert(string_views(c@) =~= seq![ls, kw, "J 'mode 1'"@, ns]);
            let l3 = cmd_lens(line, "$(play) Noise mode=1", preview, c);
            assert(l3@ == lens(line, "$(play) Noise mode=1"@, Some(preview@), seq![ls, kw, "J 'mode 1'"@, ns]));
            let d = vec![decimal_string(line), keyword_string(ty), string_of("J 'mode 2'"), decimal_string(instrument_number)];
            assert(string_views(d@) =~= seq![ls, kw, "J 'mode 2'"@, ns]);
            let l4 = cmd_lens(line, "$(play) Noise mode=2", preview, d);
            assert(l4@ == lens(line, "$(play) Noise mode=2"@, Some(preview@), seq![ls, kw, "J 'mode 2'"@, ns]));
            out.push(l1);
            out.push(l2);
            out.push(l3);
            out.push(l4);
        },
    }
    assert(out@.map_values(|l: CodeLens| l@) =~= before.map_values(|l: CodeLens| l@)
        + definition_lenses(line, ty, instrument_number));
}

fn channel_description(id: u32) -> (r: Option<&'static str>)
    ensures
        match channel_name(id) {
            Some(c) => r matches Some(s) && s@ == c,
            None => r is None,
        },
{
    if id == 0 { Some("FM1") } else if id == 1 { Some("FM2") } else if id == 2 { Some("FM3") }
    else if id == 3 { Some("FM4") } else if id == 4 { Some("FM5") } else if id == 5 { Some("FM6") }
    else if id == 6 { Some("PSG1") } else if id == 7 { Some("PSG2") } else if id == 8 { Some("PSG3") }
    else if id == 9 { Some("Noise") } else if id == 10 { Some("PCM2") } else if id == 11 { Some("PCM3") }
    else { None }
}

/// The channel label of a selector: its channel names joined with `, `,
/// or `None` when it names no channel.
fn channel_label(spans: &Vec<LeadingTrackSpan>) -> (r: Option<String>)
    ensures
        span_channels(spans@).len() == 0 ==> r is None,
        span_channels(spans@).len() > 0 ==> (r matches Some(s) && s@ == join_comma(span_channels(spans@))),
{
    let mut out = String::new();
    let mut count: usize = 0;
    let mut i: usize = 0;
    while i < spans.len()
        invariant
            i <= spans@.len(),
            count <= i,
            count == span_channels(spans@.subrange(0, i as int)).len(),
            out@ == join_comma(span_channels(spans@.subrange(0, i as int))),
        decreases spans@.len() - i,
    {
        let ghost prev = spans@.subrange(0, i as int);
        assert(spans@.subrange(0, i + 1).drop_last() =~= prev);
        match channel_description(spans[i].track_id) {
            Some(d) => {
                if count > 0 {
                    out.push(',');
                    out.push(' ');
                }
                let dc = str_chars(d);
                push_chars(&mut out, dc.as_slice());
                proof {
                    let names = span_channels(spans@.subrange(0, i + 1));
                    assert(names == span_channels(prev).push(d@));
                    if span_channels(prev).len() == 0 {
                        assert(out@ =~= join_comma(names));
                    } else {
                        assert(names.drop_last() =~= span_channels(prev));
                        assert(out@ =~= join_comma(names));
                    }
                }
                count += 1;
            },
            None => {},
        }
        i += 1;
    }
    assert(spans@.subrange(0, spans@.len() as int) =~= spans@);
    if count == 0 {
        None
    } else {
        Some(out)
    }
}

/// Enumerate code lenses for `text`.
pub fn code_lens(text: &str) -> (r: Vec<CodeLens>)
    requires
        text@.len() < usize::MAX - 5,
    ensures
        r@.map_values(|l: CodeLens| l@) == spec_code_lens(text@),
{
    let chars = str_chars(text);
    let ranges = std_line_ranges(chars.as_slice());
    let ghost sl = std_lines(text@);
    let mut lines: Vec<String> = Vec::new();
    let mut i: usize = 0;
    while i < ranges.len()
        invariant
            chars@ == text@,
            sl == std_lines(text@),
            i <= ranges@.len(),
            ranges@.len() == sl.len(),
            forall|k: int| 0 <= k < ranges@.len() ==> (#[trigger] ranges@[k]).0 <= ranges@[k].1 <= chars@.len()
                && chars@.subrange(ranges@[k].0 as int, ranges@[k].1 as int) == sl[k],
            lines@.len() == i,
            forall|k: int| 0 <= k < i ==> #[trigger] lines@[k]@ == sl[k],
        decreases ranges@.len() - i,
    {
        let (a, b) = ranges[i];
        let piece = chars_between(chars.as_slice(), a, b);
        let mut line = String::new();
        push_chars(&mut line, piece.as_slice());
        assert(line@ =~= sl[i as int]);
        lines.push(line);
        i += 1;
    }
    assert(string_views(lines@) =~= sl);
    proof {
        assert(sl.len() <= text@.len() + 1) by {
            lemma_std_lines_len(text@);
        }
    }
    let mut out: Vec<CodeLens> = Vec::new();
    let mut idx: usize = 0;
    while idx < lines.len()
        invariant
            sl == string_views(lines@),
            lines@.len() < usize::MAX - 4,
            idx <= lines@.len(),
            out@.map_values(|l: CodeLens| l@) == lenses_upto(sl, idx as int),
        decreases lines@.len() - idx,
    {
        let line_idx = idx as u32;
        let ghost before = out@.map_values(|l: CodeLens| l@);
        match find_definition(&lines, idx) {
            Some((ty, n)) => {
                emit_instrument_variants(line_idx, ty, n, &mut out);
            },
            None => {
                let l = lines[idx].as_str();
                assert(l@ == sl[idx as int]);
                match parse_leading_track_selector(l) {
                    Some(sel) => {
                        match channel_label(&sel.spans) {
                            Some(title) => {
                                let lensv = CodeLens { line: line_idx, title, command_id: None, arguments: Vec::new() };
                                assert(lensv@.arguments =~= Seq::<Seq<char>>::empty());
                                assert(lensv@ == lens(line_idx, join_comma(span_channels(sel.spans@)), None, Seq::empty()));
                                out.push(lensv);
                                assert(out@.map_values(|l: CodeLens| l@) =~= before + line_lenses(sl, idx as int));
                            },
                            None => {
                                assert(out@.map_values(|l: CodeLens| l@) =~= before + line_lenses(sl, idx as int));
                            },
                        }
                    },
                    None => {
                        assert(out@.map_values(|l: CodeLens| l@) =~= before + line_lenses(sl, idx as int));
                    },
                }
            },
        }
        idx += 1;
    }
    out
}

proof fn lemma_split_count(s: Seq<char>, n: int)
    requires
        0 <= n <= s.len(),
    ensures
        crate::strings::char_split_state(s, n).0.len() <= n,
        crate::strings::char_split_state(s, n).0.len() + crate::strings::char_split_state(s, n).1.len() <= n,
    decreases n,
{
    if n > 0 {
        lemma_split_count(s, n - 1);
    }
}

proof fn lemma_std_lines_len(s: Seq<char>)
    ensures
        std_lines(s).len() <= s.len() + 1,
{
    lemma_split_count(s, s.len() as int);
}

} // verus!
