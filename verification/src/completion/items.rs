//! Completion items built from the documentation tables.

use vstd::prelude::*;
use crate::strings::{dec_chars, digit_char, str_chars, push_chars};
use crate::docs::DocEntry;
use super::types::{CoreItem, CoreItemKind, InsertSpec, InsertFormat, EditRange, CoreCommand, ItemModel, EditModel};

verus! {

/// `n` in decimal, left-padded with zeros to at least `w` digits.
pub open spec fn pad_dec(n: nat, w: nat) -> Seq<char> {
    let d = dec_chars(n);
    if d.len() >= w {
        d
    } else {
        Seq::new((w - d.len()) as nat, |i: int| '0') + d
    }
}

/// Snippet syntax when the text holds a `$`.
pub open spec fn format_of(s: Seq<char>) -> InsertFormat {
    if s.contains('$') {
        InsertFormat::Snippet
    } else {
        InsertFormat::PlainText
    }
}

/// `s`, or nothing when it is empty.
pub open spec fn nonempty_chars(s: Seq<char>) -> Option<Seq<char>> {
    if s.len() == 0 {
        None
    } else {
        Some(s)
    }
}

/// The item for table entry `e` at position `i`.
pub open spec fn table_item(e: DocEntry, kind: CoreItemKind, range: EditRange, i: int) -> ItemModel {
    ItemModel {
        label: e.label@,
        label_description: None,
        kind,
        detail: Some(e.detail@),
        documentation: nonempty_chars(e.doc@),
        insert_text: e.insert@,
        format: format_of(e.insert@),
        as_is: false,
        filter_text: Some(e.key@),
        sort_text: Some(pad_dec(i as nat, 3)),
        preselect: false,
        edit_range: range,
        additional_edits: Seq::empty(),
        command: None,
    }
}

/// The items for table `t`, in order.
pub open spec fn table_items(t: Seq<DocEntry>, kind: CoreItemKind, range: EditRange) -> Seq<ItemModel> {
    Seq::new(t.len(), |i: int| table_item(t[i], kind, range, i))
}

/// The models of a list of items.
pub open spec fn item_views(v: Seq<CoreItem>) -> Seq<ItemModel> {
    v.map_values(|i: CoreItem| i@)
}

/// Appends `n` in decimal.
pub fn push_dec(s: &mut String, n: usize)
    ensures
        final(s)@ == old(s)@ + dec_chars(n as nat),
{
    push_dec_usize(s, n);
}

fn push_dec_usize(s: &mut String, n: usize)
    ensures
        final(s)@ == old(s)@ + dec_chars(n as nat),
    decreases n,
{
    if n >= 10 {
        push_dec_usize(s, n / 10);
    }
    let d = (n % 10) as u8;
    s.push((d + 48u8) as char);
    proof {
        if n < 10 {
            assert(old(s)@ + dec_chars(n as nat) =~= old(s)@.push(digit_char(n as nat)));
        } else {
            assert(old(s)@ + dec_chars(n as nat) =~= (old(s)@ + dec_chars((n / 10) as nat)).push(
                digit_char((n % 10) as nat),
            ));
        }
    }
}

/// `n` in decimal, zero-padded to `w` digits (`format!("{n:0w$}")`).
pub fn padded(n: usize, w: usize) -> (r: String)
    ensures
        r@ == pad_dec(n as nat, w as nat),
{
    let mut d = String::new();
    push_dec_usize(&mut d, n);
    let dc = str_chars(d.as_str());
    let mut out = String::new();
    if dc.len() < w {
        let zeros = w - dc.len();
        let mut i: usize = 0;
        while i < zeros
            invariant
                i <= zeros,
                out@ == Seq::new(i as nat, |j: int| '0'),
            decreases zeros - i,
        {
            out.push('0');
            assert(out@ =~= Seq::new((i + 1) as nat, |j: int| '0'));
            i += 1;
        }
    }
    push_chars(&mut out, dc.as_slice());
    assert(out@ =~= pad_dec(n as nat, w as nat));
    out
}

/// Whether `s` holds a `$`.
pub fn has_dollar(s: &str) -> (r: bool)
    ensures
        r == s@.contains('$'),
{
    let c = str_chars(s);
    let mut i: usize = 0;
    while i < c.len()
        invariant
            c@ == s@,
            i <= c@.len(),
            forall|j: int| 0 <= j < i ==> c@[j] != '$',
        decreases c@.len() - i,
    {
        if c[i] == '$' {
            assert(s@[i as int] == '$');
            return true;
        }
        i += 1;
    }
    false
}

/// Whether `s` is empty.
pub fn str_empty(s: &str) -> (r: bool)
    ensures
        r == (s@.len() == 0),
{
    str_chars(s).len() == 0
}

/// The item for table entry `e` at position `i`.
pub fn table_entry_item(e: &DocEntry, kind: CoreItemKind, range: EditRange, i: usize) -> (r: CoreItem)
    ensures
        r@ == table_item(*e, kind, range, i as int),
{
    let doc = if str_empty(e.doc) { None } else { Some(e.doc.to_owned()) };
    let format = if has_dollar(e.insert) { InsertFormat::Snippet } else { InsertFormat::PlainText };
    let r = CoreItem {
        label: e.label.to_owned(),
        label_description: None,
        kind,
        detail: Some(e.detail.to_owned()),
        documentation: doc,
        insert: InsertSpec { text: e.insert.to_owned(), format, as_is: false },
        filter_text: Some(e.key.to_owned()),
        sort_text: Some(padded(i, 3)),
        preselect: false,
        edit_range: range,
        additional_edits: Vec::new(),
        command: None,
    };
    assert(r@.additional_edits =~= Seq::<EditModel>::empty());
    r
}

/// The items for table `t`, in order.
pub fn render_table(t: &[DocEntry], kind: CoreItemKind, range: EditRange) -> (r: Vec<CoreItem>)
    ensures
        item_views(r@) == table_items(t@, kind, range),
{
    let mut out: Vec<CoreItem> = Vec::new();
    let mut i: usize = 0;
    while i < t.len()
        invariant
            i <= t@.len(),
            item_views(out@) == table_items(t@, kind, range).subrange(0, i as int),
        decreases t@.len() - i,
    {
        let item = table_entry_item(&t[i], kind, range, i);
        let ghost prev = out@;
        out.push(item);
        assert(item_views(out@) =~= item_views(prev).push(item@));
        assert(table_items(t@, kind, range).subrange(0, i + 1) =~= table_items(t@, kind, range).subrange(
            0,
            i as int,
        ).push(table_item(t@[i as int], kind, range, i as int)));
        i += 1;
    }
    assert(table_items(t@, kind, range).subrange(0, t@.len() as int) =~= table_items(t@, kind, range));
    out
}

} // verus!
