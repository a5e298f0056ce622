//! Tick to MML rest decomposition and measure-remainder utilities, used
//! by the "fill measure with rests" action: given a cursor tick position
//! and the song's time signature, generate the rests up to the next bar.

use vstd::prelude::*;
use vstd::string::StringSliceAdditionalSpecFns;
use vstd::utf8::decode_utf8;
use crate::strings::{dec_chars, digit_char, char_digits_value, all_digit_chars, push_decimal, push_string, str_chars, trim_end_chars, skip_ws_backward};
use crate::text_scan::{at_boundary, sub_str};
use crate::timesig::{TimeSignature, default_time_signature, spec_default_time_signature};

verus! {

/// One row of the duration table: a tick count and its MML length label.
struct DurationEntry {
    ticks: u32,
    label: String,
}

/// The `i`-th standard note denominator (whole through 64th).
pub open spec fn denominator_at(i: int) -> u32 {
    if i == 0 { 1 } else if i == 1 { 2 } else if i == 2 { 4 } else if i == 3 { 8 }
    else if i == 4 { 16 } else if i == 5 { 32 } else { 64 }
}

/// Table rows contributed by the `i`-th denominator: double-dotted,
/// dotted and plain lengths, where the tick counts are whole numbers.
pub open spec fn rows_for(whole: u32, i: int) -> Seq<(u32, Seq<char>)> {
    let d = denominator_at(i);
    let label = dec_chars(d as nat);
    if whole % d != 0 || whole / d < 1 {
        Seq::empty()
    } else {
        let base = whole / d;
        (if base % 4 == 0 { seq![((base + base / 2 + base / 4) as u32, label + seq!['.', '.'])] } else { Seq::empty() })
            + (if base % 2 == 0 { seq![((base + base / 2) as u32, label.push('.'))] } else { Seq::empty() })
            + seq![(base, label)]
    }
}

/// Rows of the first `n` denominators.
pub open spec fn rows_upto(whole: u32, n: int) -> Seq<(u32, Seq<char>)>
    decreases n,
{
    if n <= 0 { Seq::empty() } else { rows_upto(whole, n - 1) + rows_for(whole, n - 1) }
}

/// The standard durations for `ppqn` ticks per quarter note (plain,
/// dotted, double-dotted; whole through 64th), longest first.
pub open spec fn duration_table(ppqn: u32) -> Seq<(u32, Seq<char>)> {
    rows_upto((ppqn * 4) as u32, 7)
}

/// Greedy decomposition of `remaining` ticks over `table[i..]`: each row
/// is used as often as it fits. Returns the rests written and the ticks
/// left over.
pub open spec fn greedy_rests(table: Seq<(u32, Seq<char>)>, i: int, remaining: nat) -> (Seq<char>, nat)
    decreases table.len() - i, remaining,
{
    if i < 0 || i >= table.len() {
        (Seq::empty(), remaining)
    } else if table[i].0 > 0 && remaining >= table[i].0 {
        let rest = greedy_rests(table, i, (remaining - table[i].0) as nat);
        (seq!['r'] + table[i].1 + rest.0, rest.1)
    } else {
        greedy_rests(table, i + 1, remaining)
    }
}

/// MML rests spelling `ticks`: the greedy standard-duration rests, then
/// `r:<n>` for any non-standard remainder; empty for zero ticks.
pub open spec fn spec_ticks_to_mml_rest(ticks: u32, ppqn: u32) -> Seq<char> {
    if ticks == 0 {
        Seq::empty()
    } else {
        let g = greedy_rests(duration_table(ppqn), 0, ticks as nat);
        if g.1 > 0 { g.0 + seq!['r', ':'] + dec_chars(g.1) } else { g.0 }
    }
}

/// Ticks covered by the rests `greedy_rests` writes from row `i` on.
pub open spec fn greedy_ticks(table: Seq<(u32, Seq<char>)>, i: int, remaining: nat) -> nat
    decreases table.len() - i, remaining,
{
    if i < 0 || i >= table.len() {
        0
    } else if table[i].0 > 0 && remaining >= table[i].0 {
        (table[i].0 + greedy_ticks(table, i, (remaining - table[i].0) as nat)) as nat
    } else {
        greedy_ticks(table, i + 1, remaining)
    }
}

/// The greedy decomposition loses nothing: the standard rests it picks
/// plus the leftover it writes as `r:<n>` add up to the tick count.
pub proof fn law_rests_cover_ticks(table: Seq<(u32, Seq<char>)>, i: int, remaining: nat)
    ensures
        greedy_ticks(table, i, remaining) + greedy_rests(table, i, remaining).1 == remaining,
    decreases table.len() - i, remaining,
{
    if i < 0 || i >= table.len() {
    } else if table[i].0 > 0 && remaining >= table[i].0 {
        law_rests_cover_ticks(table, i, (remaining - table[i].0) as nat);
    } else {
        law_rests_cover_ticks(table, i + 1, remaining);
    }
}

/// Only what no row fits is left over: starting at any row, the ticks
/// the greedy decomposition leaves for `r:<n>` are fewer than the last
/// (shortest) row lasts.
pub proof fn law_leftover_below_shortest(table: Seq<(u32, Seq<char>)>, i: int, remaining: nat)
    requires
        0 <= i < table.len(),
        table.last().0 > 0,
    ensures
        greedy_rests(table, i, remaining).1 < table.last().0,
    decreases table.len() - i, remaining,
{
    if table[i].0 > 0 && remaining >= table[i].0 {
        law_leftover_below_shortest(table, i, (remaining - table[i].0) as nat);
    } else if i + 1 < table.len() {
        law_leftover_below_shortest(table, i + 1, remaining);
    } else {
        assert(greedy_rests(table, i + 1, remaining).1 == remaining);
    }
}

/// Number of `.` characters ending `l`.
pub open spec fn trailing_dots(l: Seq<char>) -> nat
    decreases l.len(),
{
    if l.len() > 0 && l.last() == '.' { 1 + trailing_dots(l.drop_last()) } else { 0 }
}

/// `2^k`.
pub open spec fn pow2(k: nat) -> nat
    decreases k,
{
    if k == 0 { 1 } else { 2 * pow2((k - 1) as nat) }
}

/// Read as an MML length against `whole` ticks per whole note, `label`
/// (a denominator `d` then `k` dots) lasts `ticks`: `(whole / d)` ticks
/// times `2 - 1/2^k`.
pub open spec fn label_denotes(label: Seq<char>, whole: int, ticks: int) -> bool {
    let k = trailing_dots(label);
    let ds = label.subrange(0, label.len() - k);
    let d = char_digits_value(ds);
    &&& ds.len() > 0
    &&& all_digit_chars(ds)
    &&& d > 0
    &&& whole % (d as int) == 0
    &&& ticks * pow2(k) == (whole / (d as int)) * (2 * pow2(k) - 1)
}

proof fn lemma_dec_digits(n: nat)
    ensures
        dec_chars(n).len() > 0,
        all_digit_chars(dec_chars(n)),
        char_digits_value(dec_chars(n)) == n,
        trailing_dots(dec_chars(n)) == 0,
    decreases n,
{
    if n >= 10 {
        lemma_dec_digits(n / 10);
        let p = dec_chars(n / 10);
        assert(dec_chars(n) == p.push(digit_char(n % 10)));
        assert(dec_chars(n).drop_last() =~= p);
        let m = n % 10;
        assert(((m + 48) as u8) as int == m + 48);
        assert(digit_char(m) as u32 == m + 48);
        assert(char_digits_value(dec_chars(n)) == char_digits_value(p) * 10 + m);
        assert(forall|i: int| 0 <= i < p.len() ==> dec_chars(n)[i] == p[i]);
    } else {
        assert(dec_chars(n).drop_last() =~= Seq::<char>::empty());
        assert(((n + 48) as u8) as int == n + 48);
        assert(digit_char(n) as u32 == n + 48);
        assert(char_digits_value(dec_chars(n)) == char_digits_value(Seq::<char>::empty()) * 10 + n);
    }
}

proof fn lemma_dotted(x: Seq<char>, k: nat)
    requires
        k <= 2,
        trailing_dots(x) == 0,
    ensures
        trailing_dots(x + Seq::new(k, |i: int| '.')) == k,
        (x + Seq::new(k, |i: int| '.')).subrange(0, x.len() as int) == x,
{
    let y = x + Seq::new(k, |i: int| '.');
    assert(y.subrange(0, x.len() as int) =~= x);
    if k == 0 {
        assert(y =~= x);
    } else if k == 1 {
        assert(y.last() == '.');
        assert(y.drop_last() =~= x);
        assert(trailing_dots(y) == 1 + trailing_dots(y.drop_last()));
    } else {
        let z = y.drop_last();
        assert(y.last() == '.');
        assert(z =~= x.push('.'));
        assert(z.last() == '.');
        assert(z.drop_last() =~= x);
        assert(trailing_dots(z) == 1 + trailing_dots(z.drop_last()));
        assert(trailing_dots(y) == 1 + trailing_dots(z));
    }
}

proof fn lemma_rows_for_denote(whole: u32, i: int)
    requires
        0 <= i < 7,
        whole as int * 7 / 4 <= u32::MAX,
    ensures
        forall|j: int| 0 <= j < rows_for(whole, i).len() ==> label_denotes(#[trigger] rows_for(whole, i)[j].1, whole as int, rows_for(whole, i)[j].0 as int),
{
    let d = denominator_at(i);
    let label = dec_chars(d as nat);
    lemma_dec_digits(d as nat);
    if !(whole % d != 0 || whole / d < 1) {
        let base = whole / d;
        assert(base <= whole);
        lemma_dotted(label, 0);
        lemma_dotted(label, 1);
        lemma_dotted(label, 2);
        assert(label + Seq::new(0, |i: int| '.') =~= label);
        assert(label + Seq::new(1, |i: int| '.') =~= label.push('.'));
        assert(label + Seq::new(2, |i: int| '.') =~= label + seq!['.', '.']);
        assert(pow2(1) == 2 && pow2(2) == 4) by {
            reveal_with_fuel(pow2, 3);
        }
        let rows = rows_for(whole, i);
        let r0 = (base, label);
        let r1 = ((base + base / 2) as u32, label.push('.'));
        let r2 = ((base + base / 2 + base / 4) as u32, label + seq!['.', '.']);
        assert(label_denotes(r0.1, whole as int, r0.0 as int)) by {
            assert(pow2(0) == 1);
        }
        if base % 2 == 0 {
            assert((base + base / 2) as u32 as int == base + base / 2);
            assert(label_denotes(r1.1, whole as int, r1.0 as int));
        }
        if base % 4 == 0 {
            assert((base + base / 2 + base / 4) as u32 as int == base + base / 2 + base / 4);
            let l2 = label + seq!['.', '.'];
            assert(trailing_dots(l2) == 2);
            assert(l2.subrange(0, l2.len() - 2) == label);
            assert(4 * (base + base / 2 + base / 4) == 7 * base);
            assert(whole as int / (d as int) == base as int);
            assert(pow2(2) == 4);
            assert(((base + base / 2 + base / 4) as int) * 4 == (base as int) * 7);
            assert(label_denotes(r2.1, whole as int, r2.0 as int));
        }
        let sa: Seq<(u32, Seq<char>)> = if base % 4 == 0 { seq![r2] } else { Seq::empty() };
        let sb: Seq<(u32, Seq<char>)> = if base % 2 == 0 { seq![r1] } else { Seq::empty() };
        assert(rows =~= sa + sb + seq![r0]);
        assert forall|j: int| 0 <= j < rows.len() implies label_denotes(#[trigger] rows[j].1, whole as int, rows[j].0 as int) by {
            if j < sa.len() {
                assert(rows[j] == r2);
            } else if j < sa.len() + sb.len() {
                assert(rows[j] == r1);
            } else {
                assert(rows[j] == r0);
            }
        }
    }
}

proof fn lemma_rows_upto_denote(whole: u32, n: int)
    requires
        0 <= n <= 7,
        whole as int * 7 / 4 <= u32::MAX,
    ensures
        forall|j: int| 0 <= j < rows_upto(whole, n).len() ==> label_denotes(#[trigger] rows_upto(whole, n)[j].1, whole as int, rows_upto(whole, n)[j].0 as int),
    decreases n,
{
    if n > 0 {
        lemma_rows_upto_denote(whole, n - 1);
        lemma_rows_for_denote(whole, n - 1);
        let a = rows_upto(whole, n - 1);
        let b = rows_for(whole, n - 1);
        assert forall|j: int| 0 <= j < (a + b).len() implies label_denotes(#[trigger] (a + b)[j].1, whole as int, (a + b)[j].0 as int) by {
            if j < a.len() {
                assert((a + b)[j] == a[j]);
            } else {
                assert((a + b)[j] == b[j - a.len()]);
            }
        }
    }
}

/// Every row of the duration table reads back as its own tick count: its
/// label, a denominator `d` with `k` dots, lasts `(whole / d) * (2 - 1/2^k)`
/// ticks for `whole = 4 * ppqn` ticks per whole note. With
/// [`law_rests_cover_ticks`], the rests written for `n` ticks (plus any
/// `r:<m>` remainder) therefore last exactly `n` ticks.
pub proof fn law_duration_rows_read_back(ppqn: u32, j: int)
    requires
        ppqn * 7 <= u32::MAX,
        0 <= j < duration_table(ppqn).len(),
    ensures
        label_denotes(duration_table(ppqn)[j].1, 4 * ppqn, duration_table(ppqn)[j].0 as int),
{
    let whole = (ppqn * 4) as u32;
    assert(whole as int == 4 * ppqn);
    lemma_rows_upto_denote(whole, 7);
}

/// Ticks an MML length label (a denominator then dots) lasts against
/// `whole` ticks per whole note, when it is well formed and the length is
/// a whole number of ticks.
pub open spec fn length_ticks(label: Seq<char>, whole: int) -> Option<int> {
    let k = trailing_dots(label);
    let ds = label.subrange(0, label.len() - k);
    let d = char_digits_value(ds) as int;
    let scaled = (whole / d) * (2 * pow2(k) - 1);
    if ds.len() > 0 && all_digit_chars(ds) && d > 0 && whole % d == 0 && scaled % (pow2(k) as int) == 0 {
        Some(scaled / (pow2(k) as int))
    } else {
        None
    }
}

/// Ticks of the text after an `r`: `:<n>` is `n` ticks, anything else a
/// length label.
pub open spec fn rest_token_ticks(t: Seq<char>, whole: int) -> Option<int> {
    if t.len() > 0 && t[0] == ':' {
        let n = t.skip(1);
        if n.len() > 0 && all_digit_chars(n) { Some(char_digits_value(n) as int) } else { None }
    } else {
        length_ticks(t, whole)
    }
}

/// The index of the first `r` at or after `i`, or the length of `s`.
pub open spec fn token_end(s: Seq<char>, i: int) -> int
    decreases s.len() - i,
{
    if i < 0 || i >= s.len() { s.len() as int } else if s[i] == 'r' { i } else { token_end(s, i + 1) }
}

/// Total ticks of a run of MML rests (`r` followed by a length label or by
/// `:<ticks>`), read against `whole` ticks per whole note; `None` for text
/// that is not such a run.
pub open spec fn rests_ticks(s: Seq<char>, whole: int) -> Option<int>
    decreases s.len(),
{
    if s.len() == 0 {
        Some(0)
    } else if s[0] != 'r' {
        None
    } else {
        let e = token_end(s, 1);
        if e < 1 || e > s.len() {
            None
        } else {
            match (rest_token_ticks(s.subrange(1, e), whole), rests_ticks(s.skip(e), whole)) {
                (Some(a), Some(b)) => Some(a + b),
                _ => None,
            }
        }
    }
}

/// Text that holds no `r`.
pub open spec fn r_free(t: Seq<char>) -> bool {
    forall|j: int| 0 <= j < t.len() ==> t[j] != 'r'
}

/// Text that is empty or starts a new rest.
pub open spec fn starts_rest(t: Seq<char>) -> bool {
    t.len() == 0 || t[0] == 'r'
}

proof fn lemma_token_end(x: Seq<char>, y: Seq<char>, i: int)
    requires
        1 <= i <= x.len(),
        forall|j: int| i <= j < x.len() ==> x[j] != 'r',
        starts_rest(y),
    ensures
        token_end(x + y, i) == x.len(),
    decreases x.len() - i,
{
    if i < x.len() {
        lemma_token_end(x, y, i + 1);
    }
}

proof fn lemma_read_rest(t: Seq<char>, y: Seq<char>, whole: int)
    requires
        r_free(t),
        starts_rest(y),
    ensures
        rests_ticks(seq!['r'] + t + y, whole) == (match (rest_token_ticks(t, whole), rests_ticks(y, whole)) {
            (Some(a), Some(b)) => Some(a + b),
            _ => None::<int>,
        }),
{
    let x = seq!['r'] + t;
    assert(seq!['r'] + t + y == x + y);
    lemma_token_end(x, y, 1);
    assert((x + y).subrange(1, x.len() as int) =~= t);
    assert((x + y).skip(x.len() as int) =~= y);
}

proof fn lemma_trailing_dots_are_dots(l: Seq<char>, j: int)
    requires
        l.len() - trailing_dots(l) <= j < l.len(),
    ensures
        l[j] == '.',
    decreases l.len(),
{
    lemma_trailing_dots_bound(l);
    assert(trailing_dots(l) > 0);
    assert(l.last() == '.');
    if j < l.len() - 1 {
        assert(trailing_dots(l) == 1 + trailing_dots(l.drop_last()));
        lemma_trailing_dots_are_dots(l.drop_last(), j);
        assert(l.drop_last()[j] == l[j]);
    }
}

proof fn lemma_trailing_dots_bound(l: Seq<char>)
    ensures
        trailing_dots(l) <= l.len(),
    decreases l.len(),
{
    if l.len() > 0 {
        lemma_trailing_dots_bound(l.drop_last());
    }
}

proof fn lemma_label_reads(label: Seq<char>, whole: int, ticks: int)
    requires
        label_denotes(label, whole, ticks),
    ensures
        r_free(label),
        label.len() > 0 && label[0] != ':',
        rest_token_ticks(label, whole) == Some(ticks),
{
    let k = trailing_dots(label);
    lemma_trailing_dots_bound(label);
    let ds = label.subrange(0, label.len() - k);
    assert forall|j: int| 0 <= j < label.len() implies label[j] != 'r' by {
        if j >= label.len() - k {
            lemma_trailing_dots_are_dots(label, j);
        } else {
            assert(label[j] == ds[j]);
        }
    }
    assert(label[0] == ds[0]);
    let p = pow2(k) as int;
    assert(p > 0) by {
        lemma_pow2_positive(k);
    }
    let d = char_digits_value(ds) as int;
    let scaled = (whole / d) * (2 * pow2(k) - 1);
    vstd::arithmetic::div_mod::lemma_fundamental_div_mod_converse(scaled, p, ticks, 0);
}

proof fn lemma_pow2_positive(k: nat)
    ensures
        pow2(k) > 0,
    decreases k,
{
    if k > 0 {
        lemma_pow2_positive((k - 1) as nat);
    }
}

proof fn lemma_greedy_reads(table: Seq<(u32, Seq<char>)>, i: int, remaining: nat, whole: int, tail: Seq<char>, tv: int)
    requires
        forall|j: int| 0 <= j < table.len() ==> label_denotes(#[trigger] table[j].1, whole, table[j].0 as int),
        starts_rest(tail),
        rests_ticks(tail, whole) == Some(tv),
    ensures
        starts_rest(greedy_rests(table, i, remaining).0 + tail),
        rests_ticks(greedy_rests(table, i, remaining).0 + tail, whole) == Some(greedy_ticks(table, i, remaining) + tv),
    decreases table.len() - i, remaining,
{
    if i < 0 || i >= table.len() {
        assert(greedy_rests(table, i, remaining).0 + tail =~= tail);
    } else if table[i].0 > 0 && remaining >= table[i].0 {
        let next = (remaining - table[i].0) as nat;
        lemma_greedy_reads(table, i, next, whole, tail, tv);
        let rest = greedy_rests(table, i, next);
        let label = table[i].1;
        lemma_label_reads(label, whole, table[i].0 as int);
        lemma_read_rest(label, rest.0 + tail, whole);
        assert(greedy_rests(table, i, remaining).0 + tail =~= seq!['r'] + label + (rest.0 + tail));
    } else {
        lemma_greedy_reads(table, i + 1, remaining, whole, tail, tv);
    }
}

/// The rests written for `ticks` read back as `ticks`: each `r` with its
/// length label lasts what the label denotes against `4 * ppqn` ticks per
/// whole note, an `r:<n>` lasts `n` ticks, and together they fill exactly
/// the requested span.
pub proof fn law_rest_text_reads_back(ticks: u32, ppqn: u32)
    requires
        ppqn * 7 <= u32::MAX,
    ensures
        rests_ticks(spec_ticks_to_mml_rest(ticks, ppqn), 4 * ppqn) == Some(ticks as int),
{
    if ticks > 0 {
        let whole = (ppqn * 4) as u32;
        let table = duration_table(ppqn);
        lemma_rows_upto_denote(whole, 7);
        let g = greedy_rests(table, 0, ticks as nat);
        law_rests_cover_ticks(table, 0, ticks as nat);
        if g.1 > 0 {
            let n = dec_chars(g.1);
            lemma_dec_digits(g.1);
            let t = seq![':'] + n;
            assert(t.skip(1) =~= n);
            assert(r_free(t));
            lemma_read_rest(t, Seq::empty(), 4 * ppqn);
            assert(seq!['r'] + t + Seq::<char>::empty() =~= seq!['r', ':'] + n);
            lemma_greedy_reads(table, 0, ticks as nat, 4 * ppqn, seq!['r', ':'] + n, g.1 as int);
            assert(g.0 + (seq!['r', ':'] + n) =~= g.0 + seq!['r', ':'] + n);
        } else {
            lemma_greedy_reads(table, 0, ticks as nat, 4 * ppqn, Seq::empty(), 0);
            assert(g.0 + Seq::<char>::empty() =~= g.0);
        }
    }
}

spec fn entries_view(v: Seq<DurationEntry>) -> Seq<(u32, Seq<char>)> {
    v.map_values(|e: DurationEntry| (e.ticks, e.label@))
}

/// Build the duration table, longest first; tick counts strictly
/// decrease along it.
fn build_duration_table(ppqn: u32) -> (r: Vec<DurationEntry>)
    requires
        ppqn * 7 <= u32::MAX,
    ensures
        entries_view(r@) == duration_table(ppqn),
        forall|i: int, j: int| 0 <= i < j < r@.len() ==> r@[i].ticks > r@[j].ticks,
        forall|i: int| 0 <= i < r@.len() ==> r@[i].ticks > 0,
{
    let whole = ppqn * 4;
    let denoms: [u32; 7] = [1, 2, 4, 8, 16, 32, 64];
    let mut entries: Vec<DurationEntry> = Vec::new();
    let mut k: usize = 0;
    while k < 7
        invariant
            whole == ppqn * 4,
            ppqn * 7 <= u32::MAX,
            k <= 7,
            forall|m: int| 0 <= m < 7 ==> denoms@[m] == denominator_at(m),
            entries_view(entries@) == rows_upto(whole, k as int),
            forall|i: int, j: int| 0 <= i < j < entries@.len() ==> entries@[i].ticks > entries@[j].ticks,
            forall|i: int| 0 <= i < entries@.len() ==> entries@[i].ticks > 0,
            k > 0 && entries@.len() > 0 ==> entries@.last().ticks >= whole / denominator_at(k - 1),
            k > 0 ==> forall|i: int| 0 <= i < entries@.len() ==> entries@[i].ticks >= whole / denominator_at(k - 1),
        decreases 7 - k,
    {
        let d = denoms[k];
        assert(d == denominator_at(k as int));
        let ghost prev = entries@;
        if whole % d == 0 && whole / d >= 1 {
            let base = whole / d;
            let mut label = String::new();
            push_decimal(&mut label, d);
            assert(label@ =~= dec_chars(d as nat));
            if base % 4 == 0 {
                let mut l = String::new();
                push_string(&mut l, &label);
                l.push('.');
                l.push('.');
                assert(l@ =~= dec_chars(d as nat) + seq!['.', '.']);
                entries.push(DurationEntry { ticks: base + base / 2 + base / 4, label: l });
            }
            if base % 2 == 0 {
                let mut l = String::new();
                push_string(&mut l, &label);
                l.push('.');
                assert(l@ =~= dec_chars(d as nat).push('.'));
                entries.push(DurationEntry { ticks: base + base / 2, label: l });
            }
            entries.push(DurationEntry { ticks: base, label: label });
            proof {
                assert(entries_view(entries@) =~= entries_view(prev) + rows_for(whole, k as int));
                if k > 0 {
                    assert(whole / denominator_at(k - 1) >= 2 * (whole / d)) by (nonlinear_arith)
                        requires
                            d == 2 * denominator_at(k - 1),
                            denominator_at(k - 1) > 0,
                            whole % d == 0;
                }
            }
        } else {
            proof {
                assert(entries_view(entries@) =~= entries_view(prev) + rows_for(whole, k as int));
                if k > 0 {
                    assert(whole / denominator_at(k - 1) >= whole / d) by (nonlinear_arith)
                        requires
                            d == 2 * denominator_at(k - 1),
                            denominator_at(k - 1) > 0;
                }
            }
        }
        k += 1;
    }
    entries
}

/// Convert a tick count into MML rest notation via greedy decomposition,
/// falling back to `r:<ticks>` for any non-standard remainder. Returns
/// an empty string for zero ticks.
pub fn ticks_to_mml_rest(ticks: u32, ppqn: u32) -> (r: String)
    requires
        ticks > 0 ==> ppqn * 7 <= u32::MAX,
    ensures
        r@ == spec_ticks_to_mml_rest(ticks, ppqn),
{
    if ticks == 0 {
        return String::new();
    }
    let table = build_duration_table(ppqn);
    let ghost tv = entries_view(table@);
    let mut out = String::new();
    let mut remaining = ticks;
    let mut i: usize = 0;
    while i < table.len()
        invariant
            tv == entries_view(table@),
            tv == duration_table(ppqn),
            forall|k: int| 0 <= k < table@.len() ==> table@[k].ticks > 0,
            i <= table@.len(),
            greedy_rests(tv, 0, ticks as nat) == ({
                let g = greedy_rests(tv, i as int, remaining as nat);
                (out@ + g.0, g.1)
            }),
        decreases table@.len() - i,
    {
        let t = table[i].ticks;
        while remaining >= t
            invariant
                tv == entries_view(table@),
                i < table@.len(),
                t == table@[i as int].ticks,
                t > 0,
                greedy_rests(tv, 0, ticks as nat) == ({
                    let g = greedy_rests(tv, i as int, remaining as nat);
                    (out@ + g.0, g.1)
                }),
            decreases remaining,
        {
            let ghost before = out@;
            out.push('r');
            push_string(&mut out, &table[i].label);
            proof {
                assert(tv[i as int] == (table@[i as int].ticks, table@[i as int].label@));
                let rest = greedy_rests(tv, i as int, (remaining - t) as nat);
                assert(before + (seq!['r'] + tv[i as int].1 + rest.0) =~= out@ + rest.0);
            }
            remaining -= t;
        }
        i += 1;
    }
    if remaining > 0 {
        out.push('r');
        out.push(':');
        push_decimal(&mut out, remaining);
        assert(out@ =~= greedy_rests(tv, 0, ticks as nat).0 + seq!['r', ':'] + dec_chars(remaining as nat));
    } else {
        assert(out@ =~= greedy_rests(tv, 0, ticks as nat).0);
    }
    out
}

/// Ticks in one measure: `ppqn * numerator * 4 / denominator`.
pub open spec fn ticks_per_measure(ppqn: u32, ts: TimeSignature) -> int {
    (ppqn * ts.numerator * 4) / (ts.denominator as int)
}

/// Inputs on which the measure length is computable and nonzero.
pub open spec fn measure_ok(ppqn: u32, ts: TimeSignature) -> bool {
    ts.denominator > 0 && ppqn * ts.numerator * 4 <= u32::MAX && ticks_per_measure(ppqn, ts) > 0
}

/// Ticks from `cursor_tick` to the next bar line; `0` on a boundary.
pub open spec fn spec_measure_remainder(cursor_tick: u32, ppqn: u32, ts: TimeSignature) -> int {
    let tpm = ticks_per_measure(ppqn, ts);
    let pos = (cursor_tick as int) % tpm;
    if pos == 0 { 0 } else { tpm - pos }
}

/// Tick count remaining to reach the next bar line. Returns `0` when the
/// cursor sits exactly on a measure boundary.
pub fn measure_remainder_ticks(cursor_tick: u32, ppqn: u32, time_sig: TimeSignature) -> (r: u32)
    requires
        measure_ok(ppqn, time_sig),
    ensures
        r as int == spec_measure_remainder(cursor_tick, ppqn, time_sig),
{
    let tpm = ppqn * time_sig.numerator * 4 / time_sig.denominator;
    let pos = cursor_tick % tpm;
    if pos == 0 {
        0
    } else {
        tpm - pos
    }
}

/// The rests that fill through the next bar line (see
/// [`generate_measure_rests`]).
pub open spec fn spec_measure_rests(cursor_tick: u32, ppqn: u32, ts: TimeSignature, after_bar_line: bool) -> Seq<char> {
    spec_ticks_to_mml_rest(measure_fill(cursor_tick, ppqn, ts, after_bar_line) as u32, ppqn)
}

/// The ticks to fill: the rest of the measure, or a whole measure on a
/// boundary right after a bar line.
pub open spec fn measure_fill(cursor_tick: u32, ppqn: u32, ts: TimeSignature, after_bar_line: bool) -> int {
    let rem = spec_measure_remainder(cursor_tick, ppqn, ts);
    if rem == 0 && after_bar_line { ticks_per_measure(ppqn, ts) } else { rem }
}

/// The rests generated at a cursor last exactly up to the next bar line:
/// cursor plus their ticks is a multiple of the measure length, they span
/// at most one measure, and they are empty only on a boundary that no bar
/// line precedes.
pub proof fn law_measure_rests_reach_bar_line(cursor_tick: u32, ppqn: u32, ts: TimeSignature, after_bar_line: bool)
    requires
        measure_ok(ppqn, ts),
        ppqn * 7 <= u32::MAX,
    ensures
        rests_ticks(spec_measure_rests(cursor_tick, ppqn, ts, after_bar_line), 4 * ppqn) matches Some(d) && {
            &&& (cursor_tick + d) % ticks_per_measure(ppqn, ts) == 0
            &&& 0 <= d <= ticks_per_measure(ppqn, ts)
            &&& (d == 0 <==> (cursor_tick as int % ticks_per_measure(ppqn, ts) == 0 && !after_bar_line))
        },
{
    let tpm = ticks_per_measure(ppqn, ts);
    assert(tpm <= ppqn * ts.numerator * 4) by {
        vstd::arithmetic::div_mod::lemma_div_is_ordered_by_denominator((ppqn * ts.numerator * 4) as int, 1, ts.denominator as int);
    }
    let fill = measure_fill(cursor_tick, ppqn, ts, after_bar_line);
    let pos = (cursor_tick as int) % tpm;
    assert(0 <= pos < tpm);
    assert(0 <= fill <= tpm);
    law_rest_text_reads_back(fill as u32, ppqn);
    if pos != 0 {
        vstd::arithmetic::div_mod::lemma_fundamental_div_mod(cursor_tick as int, tpm);
        let q = (cursor_tick as int) / tpm;
        assert(cursor_tick + fill == (q + 1) * tpm) by (nonlinear_arith)
            requires
                cursor_tick == q * tpm + pos,
                fill == tpm - pos;
        vstd::arithmetic::div_mod::lemma_mod_multiples_basic(q + 1, tpm);
    } else if after_bar_line {
        vstd::arithmetic::div_mod::lemma_fundamental_div_mod(cursor_tick as int, tpm);
        let q = (cursor_tick as int) / tpm;
        assert(cursor_tick + fill == (q + 1) * tpm) by (nonlinear_arith)
            requires
                cursor_tick == q * tpm + pos,
                pos == 0,
                fill == tpm;
        vstd::arithmetic::div_mod::lemma_mod_multiples_basic(q + 1, tpm);
    }
}

/// Generate rests to fill through the next bar line (4/4 when no time
/// signature is given). On a measure boundary this fills a whole measure
/// when `after_bar_line` is set, and is empty otherwise.
pub fn generate_measure_rests(
    cursor_tick: u32,
    ppqn: u32,
    time_sig: Option<TimeSignature>,
    after_bar_line: bool,
) -> (r: String)
    requires
        measure_ok(ppqn, match time_sig { Some(ts) => ts, None => spec_default_time_signature() }),
        measure_fill(cursor_tick, ppqn, match time_sig { Some(ts) => ts, None => spec_default_time_signature() }, after_bar_line) > 0
            ==> ppqn * 7 <= u32::MAX,
    ensures
        r@ == spec_measure_rests(cursor_tick, ppqn, match time_sig { Some(ts) => ts, None => spec_default_time_signature() }, after_bar_line),
{
    let ts = match time_sig {
        Some(ts) => ts,
        None => default_time_signature(),
    };
    let mut remainder = measure_remainder_ticks(cursor_tick, ppqn, ts);
    if remainder == 0 && after_bar_line {
        remainder = ppqn * ts.numerator * 4 / ts.denominator;
    }
    ticks_to_mml_rest(remainder, ppqn)
}

/// The text before 1-based `column` (ignoring trailing whitespace) ends
/// with a `|` bar line.
pub open spec fn spec_after_bar_line(b: Seq<u8>, column: u32) -> bool {
    let end = if column == 0 { 0 } else if column - 1 < b.len() { column - 1 } else { b.len() as int };
    let t = trim_end_chars(decode_utf8(b.subrange(0, end)));
    t.len() > 0 && t.last() == '|'
}

/// The byte offset where the text "before 1-based `column`" ends.
pub open spec fn column_end(b: Seq<u8>, column: u32) -> int {
    if column == 0 { 0 } else if column - 1 < b.len() { column - 1 } else { b.len() as int }
}

/// Returns `true` when the text before 1-based `column` on
/// `line_content` ends (ignoring trailing whitespace) with a `|`.
pub fn is_after_bar_line(line_content: &str, column: u32) -> (r: bool)
    requires
        at_boundary(line_content.spec_bytes(), column_end(line_content.spec_bytes(), column)),
    ensures
        r == spec_after_bar_line(line_content.spec_bytes(), column),
{
    let bytes = line_content.as_bytes();
    let end: usize = if column == 0 { 0 } else if ((column - 1) as usize) < bytes.len() { (column - 1) as usize } else { bytes.len() };
    let prefix = sub_str(line_content, 0, end);
    proof {
        vstd::utf8::encode_utf8_decode_utf8(prefix@);
    }
    let chars = str_chars(prefix);
    let e = skip_ws_backward(chars.as_slice(), 0, chars.len());
    assert(chars@.subrange(0, chars@.len() as int) =~= chars@);
    e > 0 && chars[e - 1] == '|'
}

} // verus!
