//! Per-channel octave context at a cursor.
//!
//! [`scan_channel_context_at`] walks forward from the enclosing track
//! selector to the cursor, tracking each channel's effective octave and
//! which branch (channel) of a `{...}` block the cursor sits in. `>`/`<`
//! and `oN` inside a branch affect only that branch's channel; outside
//! braces they affect every channel.

use vstd::prelude::*;
use vstd::string::StringSliceAdditionalSpecFns;
use crate::strings::{digits_value, digit_run_end, lemma_digit_run_end, scan_digits, parse_digits_u32, byte_find, lemma_byte_find, find_byte, lemma_byte_find_suffix};
use crate::track_selector::{LineReader, line_bytes, leading_selector, enclosing_selector, find_enclosing_track_selector_at};
use crate::brace_state::{BraceState, BraceModel};

verus! {

/// Per-channel octave plus the cursor's active branch.
#[derive(Debug, Clone, PartialEq, Eq)]
pub struct ChannelContext {
    /// Octave for each channel (0-indexed); `len() == max(num_channels, 1)`.
    pub octaves: Vec<i32>,
    /// Branch index the cursor sits in (0-based), or `-1` when outside.
    pub active_channel: i32,
}

/// Scanner state: channel octaves, brace depth, branch index, current
/// channel (`-1` outside braces), and whether every step so far stayed
/// within the integer widths.
pub struct OctScan {
    pub chans: Seq<i32>,
    pub depth: int,
    pub branch: int,
    pub cur: int,
    /// Octave shared by all channels outside braces.
    pub shared: int,
    pub ok: bool,
}

/// `>`/`<`: shift the current channel, or every channel outside braces; a
/// current channel past the last one changes nothing.
pub open spec fn oct_shift(s: OctScan, delta: int) -> OctScan {
    if s.cur < 0 {
        OctScan {
            chans: Seq::new(s.chans.len(), |i: int| (s.chans[i] + delta) as i32),
            shared: s.shared + delta,
            ok: s.ok && i32::MIN <= s.shared + delta <= i32::MAX
                && forall|i: int| 0 <= i < s.chans.len() ==> i32::MIN <= #[trigger] s.chans[i] + delta <= i32::MAX,
            ..s
        }
    } else if s.cur < s.chans.len() {
        OctScan {
            chans: s.chans.update(s.cur, (s.chans[s.cur] + delta) as i32),
            ok: s.ok && i32::MIN <= s.chans[s.cur] + delta <= i32::MAX,
            ..s
        }
    } else {
        s
    }
}

/// `oN`: set the current channel, or every channel outside braces.
pub open spec fn oct_set(s: OctScan, v: i32) -> OctScan {
    if s.cur < 0 {
        OctScan { chans: Seq::new(s.chans.len(), |i: int| v), shared: v as int, ..s }
    } else if s.cur < s.chans.len() {
        OctScan { chans: s.chans.update(s.cur, v), ..s }
    } else {
        s
    }
}

/// `{`: enter a block at branch 0 (channel 0 when there are channels).
pub open spec fn oct_open(s: OctScan, n: int) -> OctScan {
    OctScan { depth: s.depth + 1, branch: 0, cur: if n > 1 { 0 } else { -1 }, ok: s.ok && s.depth + 1 <= u32::MAX, ..s }
}

/// `/` inside a block: next branch, which becomes the current channel
/// while it names one.
pub open spec fn oct_slash(s: OctScan, n: int) -> OctScan {
    OctScan {
        branch: s.branch + 1,
        cur: if n > 1 && s.branch + 1 < n { ((s.branch + 1) as i32) as int } else { s.cur },
        ok: s.ok && s.branch + 1 <= usize::MAX,
        ..s
    }
}

/// `}` inside a block: leave it; leaving the outermost block leaves every
/// channel.
pub open spec fn oct_close(s: OctScan) -> OctScan {
    OctScan { depth: s.depth - 1, cur: if s.depth - 1 == 0 { -1 } else { s.cur }, ..s }
}

/// The `oN` value after an `o` at index `i`: a digit run inside
/// `b[..end]` whose value fits in `i32`, with its length.
pub open spec fn octave_number(b: Seq<u8>, end: int, i: int) -> Option<(i32, int)> {
    let e = digit_run_end(b.subrange(0, end), i + 1);
    if e == i + 1 || digits_value(b.subrange(i + 1, e)) > i32::MAX {
        None
    } else {
        Some((digits_value(b.subrange(i + 1, e)) as i32, e - (i + 1)))
    }
}

pub proof fn lemma_octave_number(b: Seq<u8>, end: int, i: int)
    requires
        0 <= i,
        i + 1 <= end <= b.len(),
    ensures
        octave_number(b, end, i) matches Some((_, len)) ==> 1 <= len && i + 1 + len <= end,
{
    lemma_digit_run_end(b.subrange(0, end), i + 1);
}

/// Scan of `b[i..end]` from quote state `(qd, qs)` and scanner state `s`:
/// quoted text is skipped, `_{...}` key-signature blocks are skipped
/// whole, and `oN`, `>`, `<`, `{`, `/`, `}` update the state.
pub open spec fn line_scan(b: Seq<u8>, end: int, i: int, qd: bool, qs: bool, s: OctScan, n: int) -> OctScan
    decreases end - i,
{
    if i < 0 || i >= end || end > b.len() {
        s
    } else {
        let ch = b[i];
        if ch == 0x22u8 && !qs {
            line_scan(b, end, i + 1, !qd, qs, s, n)
        } else if ch == 0x27u8 && !qd {
            line_scan(b, end, i + 1, qd, !qs, s, n)
        } else if qd || qs {
            line_scan(b, end, i + 1, qd, qs, s, n)
        } else if ch == 0x5Fu8 && i + 1 < end && b[i + 1] == 0x7Bu8
            && byte_find(b.subrange(0, end), 0x7Du8, i + 2) < end {
            proof {
                lemma_byte_find(b.subrange(0, end), 0x7Du8, i + 2);
            }
            line_scan(b, end, byte_find(b.subrange(0, end), 0x7Du8, i + 2) + 1, qd, qs, s, n)
        } else if (ch == 0x6Fu8 || ch == 0x4Fu8) && octave_number(b, end, i) is Some {
            let (v, len) = octave_number(b, end, i)->0;
            proof {
                lemma_octave_number(b, end, i);
            }
            line_scan(b, end, i + 1 + len, qd, qs, oct_set(s, v), n)
        } else if ch == 0x3Eu8 {
            line_scan(b, end, i + 1, qd, qs, oct_shift(s, 1), n)
        } else if ch == 0x3Cu8 {
            line_scan(b, end, i + 1, qd, qs, oct_shift(s, -1), n)
        } else if ch == 0x7Bu8 {
            line_scan(b, end, i + 1, qd, qs, oct_open(s, n), n)
        } else if ch == 0x2Fu8 && s.depth > 0 {
            line_scan(b, end, i + 1, qd, qs, oct_slash(s, n), n)
        } else if ch == 0x7Du8 && s.depth > 0 {
            line_scan(b, end, i + 1, qd, qs, oct_close(s), n)
        } else {
            line_scan(b, end, i + 1, qd, qs, s, n)
        }
    }
}

/// Where a line's scan ends: before the cursor column (1-based, clamped)
/// on the cursor line, and before the first `;`.
pub open spec fn scan_end(b: Seq<u8>, is_cursor_line: bool, column: u32) -> int {
    let raw = if is_cursor_line {
        let c = if column == 0 { 0 } else { column - 1 };
        if c < b.len() { c as int } else { b.len() as int }
    } else {
        b.len() as int
    };
    byte_find(b.subrange(0, raw), 0x3Bu8, 0)
}

/// The scanner state after lines `ln..=line_number`.
pub open spec fn lines_scan<R: LineReader>(m: &R, line_number: u32, column: u32, n: int, ln: int, s: OctScan) -> OctScan
    decreases line_number + 1 - ln,
{
    if ln > line_number || ln < 0 {
        s
    } else {
        let b = line_bytes(m, ln as u32);
        let s2 = line_scan(b, scan_end(b, ln == line_number, column), 0, false, false, s, n);
        lines_scan(m, line_number, column, n, ln + 1, s2)
    }
}

/// The line the forward scan starts from.
pub open spec fn start_line<R: LineReader>(m: &R, line_number: u32, track_line: Option<u32>) -> int {
    match track_line {
        Some(t) => t as int,
        None => match enclosing_selector(m, line_number) {
            Some((_, ln)) => ln as int,
            None => 1,
        },
    }
}

/// Initial scanner state: every channel at octave 6, outside braces.
pub open spec fn initial_scan(num_channels: usize) -> OctScan {
    let width = if num_channels < 1 { 1 } else { num_channels as int };
    OctScan { chans: Seq::new(width as nat, |i: int| 6i32), depth: 0, branch: 0, cur: -1, shared: 6, ok: true }
}

/// The scanner state at the cursor.
pub open spec fn spec_channel_scan<R: LineReader>(m: &R, line_number: u32, column: u32, num_channels: usize, track_line: Option<u32>) -> OctScan {
    lines_scan(m, line_number, column, num_channels as int, start_line(m, line_number, track_line), initial_scan(num_channels))
}

proof fn lemma_line_scan_ok(b: Seq<u8>, end: int, i: int, qd: bool, qs: bool, s: OctScan, n: int)
    ensures
        line_scan(b, end, i, qd, qs, s, n).ok ==> s.ok,
    decreases end - i,
{
    if i < 0 || i >= end || end > b.len() {
    } else {
        let ch = b[i];
        if ch == 0x22u8 && !qs {
            lemma_line_scan_ok(b, end, i + 1, !qd, qs, s, n);
        } else if ch == 0x27u8 && !qd {
            lemma_line_scan_ok(b, end, i + 1, qd, !qs, s, n);
        } else if qd || qs {
            lemma_line_scan_ok(b, end, i + 1, qd, qs, s, n);
        } else if ch == 0x5Fu8 && i + 1 < end && b[i + 1] == 0x7Bu8
            && byte_find(b.subrange(0, end), 0x7Du8, i + 2) < end {
            lemma_byte_find(b.subrange(0, end), 0x7Du8, i + 2);
            lemma_line_scan_ok(b, end, byte_find(b.subrange(0, end), 0x7Du8, i + 2) + 1, qd, qs, s, n);
        } else if (ch == 0x6Fu8 || ch == 0x4Fu8) && octave_number(b, end, i) is Some {
            let (v, len) = octave_number(b, end, i)->0;
            lemma_octave_number(b, end, i);
            lemma_line_scan_ok(b, end, i + 1 + len, qd, qs, oct_set(s, v), n);
        } else if ch == 0x3Eu8 {
            lemma_line_scan_ok(b, end, i + 1, qd, qs, oct_shift(s, 1), n);
        } else if ch == 0x3Cu8 {
            lemma_line_scan_ok(b, end, i + 1, qd, qs, oct_shift(s, -1), n);
        } else if ch == 0x7Bu8 {
            lemma_line_scan_ok(b, end, i + 1, qd, qs, oct_open(s, n), n);
        } else if ch == 0x2Fu8 && s.depth > 0 {
            lemma_line_scan_ok(b, end, i + 1, qd, qs, oct_slash(s, n), n);
        } else if ch == 0x7Du8 && s.depth > 0 {
            lemma_line_scan_ok(b, end, i + 1, qd, qs, oct_close(s), n);
        } else {
            lemma_line_scan_ok(b, end, i + 1, qd, qs, s, n);
        }
    }
}

proof fn lemma_lines_scan_ok<R: LineReader>(m: &R, line_number: u32, column: u32, n: int, ln: int, s: OctScan)
    ensures
        lines_scan(m, line_number, column, n, ln, s).ok ==> s.ok,
    decreases line_number + 1 - ln,
{
    if ln > line_number || ln < 0 {
    } else {
        let b = line_bytes(m, ln as u32);
        let s2 = line_scan(b, scan_end(b, ln == line_number, column), 0, false, false, s, n);
        lemma_line_scan_ok(b, scan_end(b, ln == line_number, column), 0, false, false, s, n);
        lemma_lines_scan_ok(m, line_number, column, n, ln + 1, s2);
    }
}

/// Exec mirror of [`OctScan`].
struct ScanState {
    chans: Vec<i32>,
    depth: u32,
    branch: usize,
    cur: i32,
    shared: i32,
}

spec fn state_matches(st: &ScanState, s: OctScan) -> bool {
    st.chans@ == s.chans && st.depth as int == s.depth && st.branch as int == s.branch && st.cur as int == s.cur
        && st.shared as int == s.shared && s.ok
}

fn apply_shift(st: &mut ScanState, delta: i32, Ghost(s): Ghost<OctScan>)
    requires
        state_matches(old(st), s),
        oct_shift(s, delta as int).ok,
    ensures
        state_matches(final(st), oct_shift(s, delta as int)),
{
    if st.cur < 0 {
        st.shared = st.shared + delta;
        let mut i: usize = 0;
        while i < st.chans.len()
            invariant
                i <= st.chans@.len(),
                st.chans@.len() == s.chans.len(),
                st.depth == old(st).depth,
                st.branch == old(st).branch,
                st.cur == old(st).cur,
                st.shared == s.shared + delta,
                oct_shift(s, delta as int).ok,
                s.cur < 0,
                forall|j: int| 0 <= j < i ==> st.chans@[j] == s.chans[j] + delta,
                forall|j: int| i <= j < st.chans@.len() ==> st.chans@[j] == s.chans[j],
            decreases st.chans@.len() - i,
        {
            assert(i32::MIN <= s.chans[i as int] + delta <= i32::MAX);
            let v = st.chans[i] + delta;
            st.chans.set(i, v);
            i += 1;
        }
        assert(st.chans@ =~= oct_shift(s, delta as int).chans);
    } else if (st.cur as usize) < st.chans.len() {
        let c = st.cur as usize;
        let v = st.chans[c] + delta;
        st.chans.set(c, v);
    }
}

fn apply_set(st: &mut ScanState, v: i32, Ghost(s): Ghost<OctScan>)
    requires
        state_matches(old(st), s),
    ensures
        state_matches(final(st), oct_set(s, v)),
{
    if st.cur < 0 {
        st.shared = v;
        let mut i: usize = 0;
        while i < st.chans.len()
            invariant
                i <= st.chans@.len(),
                st.chans@.len() == s.chans.len(),
                st.depth == old(st).depth,
                st.branch == old(st).branch,
                st.cur == old(st).cur,
                st.shared == v,
                s.cur < 0,
                forall|j: int| 0 <= j < i ==> st.chans@[j] == v,
                forall|j: int| i <= j < st.chans@.len() ==> st.chans@[j] == s.chans[j],
            decreases st.chans@.len() - i,
        {
            st.chans.set(i, v);
            i += 1;
        }
        assert(st.chans@ =~= oct_set(s, v).chans);
    } else if (st.cur as usize) < st.chans.len() {
        let c = st.cur as usize;
        st.chans.set(c, v);
    }
}

/// Parse a leading run of ASCII digits in `bytes[start..end]` as an
/// `i32`: `(value, length)`, or `None` when there is no digit or the
/// value overflows.
fn parse_leading_digits(bytes: &[u8], start: usize, end: usize) -> (r: Option<(i32, usize)>)
    requires
        1 <= start <= end <= bytes@.len(),
    ensures
        match octave_number(bytes@, end as int, start - 1) {
            Some((v, len)) => r matches Some((rv, rl)) && rv == v && rl as int == len,
            None => r is None,
        },
        r matches Some((_, l)) ==> 1 <= l && start + l <= end,
{
    let ghost sub = bytes@.subrange(0, end as int);
    let mut e = start;
    while e < end && crate::strings::digit_byte(bytes[e])
        invariant
            start <= e <= end <= bytes@.len(),
            sub == bytes@.subrange(0, end as int),
            digit_run_end(sub, start as int) == digit_run_end(sub, e as int),
        decreases end - e,
    {
        assert(sub[e as int] == bytes@[e as int]);
        e += 1;
    }
    if e < end {
        assert(sub[e as int] == bytes@[e as int]);
    }
    proof {
        lemma_digit_run_end(sub, start as int);
        assert(sub.subrange(start as int, e as int) =~= bytes@.subrange(start as int, e as int));
    }
    if e == start {
        return None;
    }
    match parse_digits_u32(bytes, start, e) {
        Some(v) => {
            if v > 2147483647u32 {
                None
            } else {
                Some((v as i32, e - start))
            }
        },
        None => None,
    }
}

fn shift_fits_exec(st: &ScanState, delta: i32, Ghost(s): Ghost<OctScan>) -> (r: bool)
    requires
        state_matches(st, s),
    ensures
        r == oct_shift(s, delta as int).ok,
{
    if st.cur < 0 {
        let d = delta as i64;
        if (st.shared as i64) + d < i32::MIN as i64 || (st.shared as i64) + d > i32::MAX as i64 {
            return false;
        }
        let mut i: usize = 0;
        while i < st.chans.len()
            invariant
                i <= st.chans@.len(),
                state_matches(st, s),
                s.cur < 0,
                d == delta,
                forall|j: int| 0 <= j < i ==> i32::MIN <= #[trigger] s.chans[j] + delta <= i32::MAX,
            decreases st.chans@.len() - i,
        {
            let v = (st.chans[i] as i64) + d;
            if v < i32::MIN as i64 || v > i32::MAX as i64 {
                return false;
            }
            i += 1;
        }
        true
    } else if (st.cur as usize) < st.chans.len() {
        let v = (st.chans[st.cur as usize] as i64) + (delta as i64);
        !(v < i32::MIN as i64 || v > i32::MAX as i64)
    } else {
        true
    }
}

/// Scans one line, applying its octave commands to `st`; `false` (with
/// `st` left partly updated) when a step would overflow.
fn scan_line(bytes: &[u8], eff_end: usize, num_channels: usize, st: &mut ScanState, Ghost(s): Ghost<OctScan>) -> (r: bool)
    requires
        eff_end <= bytes@.len(),
        state_matches(old(st), s),
    ensures
        r == line_scan(bytes@, eff_end as int, 0, false, false, s, num_channels as int).ok,
        r ==> state_matches(final(st), line_scan(bytes@, eff_end as int, 0, false, false, s, num_channels as int)),
{
    let ghost b = bytes@;
    let ghost n = num_channels as int;
    let ghost target = line_scan(b, eff_end as int, 0, false, false, s, n);
    let ghost mut cur_s = s;
    let mut in_double = false;
    let mut in_single = false;
    let mut i: usize = 0;
    while i < eff_end
        invariant
            b == bytes@,
            eff_end <= b.len(),
            i <= eff_end,
            n == num_channels as int,
            target == line_scan(b, eff_end as int, i as int, in_double, in_single, cur_s, n),
            target == line_scan(bytes@, eff_end as int, 0, false, false, s, num_channels as int),
            state_matches(st, cur_s),
        decreases eff_end - i,
    {
        let ch = bytes[i];
        if ch == 0x22u8 && !in_single {
            in_double = !in_double;
            i += 1;
            continue;
        }
        if ch == 0x27u8 && !in_double {
            in_single = !in_single;
            i += 1;
            continue;
        }
        if in_double || in_single {
            i += 1;
            continue;
        }
        if ch == 0x5Fu8 && i + 1 < eff_end && bytes[i + 1] == 0x7Bu8 {
            let close = find_byte(bytes, 0x7Du8, i + 2, eff_end);
            proof {
                let sub = b.subrange(0, eff_end as int);
                assert(b.subrange(i + 2, eff_end as int) =~= sub.subrange(i + 2, sub.len() as int));
                lemma_byte_find_suffix(sub, 0x7Du8, i + 2, 0);
                lemma_byte_find(sub, 0x7Du8, i + 2);
            }
            if close < eff_end {
                i = close + 1;
                continue;
            }
        }
        if ch == 0x6Fu8 || ch == 0x4Fu8 {
            if let Some((oct, len)) = parse_leading_digits(bytes, i + 1, eff_end) {
                proof {
                    assert(octave_number(b, eff_end as int, i as int) == Some((oct, len as int)));
                    assert(line_scan(b, eff_end as int, i as int, in_double, in_single, cur_s, n)
                        == line_scan(b, eff_end as int, i + 1 + len, in_double, in_single, oct_set(cur_s, oct), n));
                }
                apply_set(st, oct, Ghost(cur_s));
                proof {
                    cur_s = oct_set(cur_s, oct);
                }
                i += 1 + len;
                continue;
            }
        }
        if ch == 0x3Eu8 {
            proof {
                lemma_line_scan_ok(b, eff_end as int, i + 1, in_double, in_single, oct_shift(cur_s, 1), n);
            }
            assert(target == line_scan(b, eff_end as int, i + 1, in_double, in_single, oct_shift(cur_s, 1), n));
            if !shift_fits_exec(st, 1, Ghost(cur_s)) {
                return false;
            }
            apply_shift(st, 1, Ghost(cur_s));
            proof {
                cur_s = oct_shift(cur_s, 1);
            }
            i += 1;
            continue;
        }
        if ch == 0x3Cu8 {
            proof {
                lemma_line_scan_ok(b, eff_end as int, i + 1, in_double, in_single, oct_shift(cur_s, -1), n);
            }
            assert(target == line_scan(b, eff_end as int, i + 1, in_double, in_single, oct_shift(cur_s, -1), n));
            if !shift_fits_exec(st, -1, Ghost(cur_s)) {
                return false;
            }
            apply_shift(st, -1, Ghost(cur_s));
            proof {
                cur_s = oct_shift(cur_s, -1);
            }
            i += 1;
            continue;
        }
        if ch == 0x7Bu8 {
            proof {
                lemma_line_scan_ok(b, eff_end as int, i + 1, in_double, in_single, oct_open(cur_s, n), n);
            }
            if st.depth == u32::MAX {
                return false;
            }
            st.depth = st.depth + 1;
            st.branch = 0;
            st.cur = if num_channels > 1 { 0 } else { -1 };
            proof {
                cur_s = oct_open(cur_s, n);
            }
            i += 1;
            continue;
        }
        if ch == 0x2Fu8 && st.depth > 0 {
            proof {
                lemma_line_scan_ok(b, eff_end as int, i + 1, in_double, in_single, oct_slash(cur_s, n), n);
            }
            if st.branch == usize::MAX {
                return false;
            }
            st.branch = st.branch + 1;
            if num_channels > 1 && st.branch < num_channels {
                st.cur = #[verifier::truncate] (st.branch as i32);
            }
            proof {
                cur_s = oct_slash(cur_s, n);
            }
            i += 1;
            continue;
        }
        if ch == 0x7Du8 && st.depth > 0 {
            st.depth = st.depth - 1;
            if st.depth == 0 {
                st.cur = -1;
            }
            proof {
                cur_s = oct_close(cur_s);
            }
            i += 1;
            continue;
        }
        i += 1;
    }
    true
}

/// Compute each channel's effective octave at `(line_number, column)` by
/// walking forward from the enclosing track selector (or from
/// `track_line` when the caller already knows it).
pub fn scan_channel_context_at<R: LineReader>(
    model: &R,
    line_number: u32,
    column: u32,
    num_channels: usize,
    track_line: Option<u32>,
) -> (r: ChannelContext)
    requires
        track_line is Some || line_number >= 1 || leading_selector(line_bytes(model, line_number)) is Some,
        spec_channel_scan(model, line_number, column, num_channels, track_line).ok,
    ensures
        r.octaves@ == spec_channel_scan(model, line_number, column, num_channels, track_line).chans,
        r.active_channel as int == spec_channel_scan(model, line_number, column, num_channels, track_line).cur,
{
    let (st, _) = walk_to(model, line_number, column, num_channels, track_line);
    ChannelContext { octaves: st.chans, active_channel: st.cur }
}

/// Whether the forward walk of [`scan_channel_context_at`] to `(line_number,
/// column)` runs without overflowing an octave, the block depth or the
/// branch count: the condition that function and its callers require.
pub fn channel_scan_ok<R: LineReader>(
    model: &R,
    line_number: u32,
    column: u32,
    num_channels: usize,
    track_line: Option<u32>,
) -> (r: bool)
    requires
        track_line is Some || line_number >= 1 || leading_selector(line_bytes(model, line_number)) is Some,
    ensures
        r == spec_channel_scan(model, line_number, column, num_channels, track_line).ok,
{
    let (_, ok) = walk_to(model, line_number, column, num_channels, track_line);
    ok
}

/// The brace, branch and per-channel octave state at `(line_number,
/// column)`, from the same forward walk as [`scan_channel_context_at`].
pub fn scan_brace_state_at<R: LineReader>(
    model: &R,
    line_number: u32,
    column: u32,
    num_channels: usize,
    track_line: Option<u32>,
) -> (r: BraceState)
    requires
        track_line is Some || line_number >= 1 || leading_selector(line_bytes(model, line_number)) is Some,
        spec_channel_scan(model, line_number, column, num_channels, track_line).ok,
    ensures
        r.wf(),
        r@ == brace_model_of(spec_channel_scan(model, line_number, column, num_channels, track_line), num_channels),
{
    let (st, _) = walk_to(model, line_number, column, num_channels, track_line);
    proof {
        lemma_channel_scan_width(model, line_number, column, num_channels, track_line);
    }
    let width = if num_channels < 1 { 1 } else { num_channels };
    BraceState::from_parts(st.depth, st.branch, st.cur, st.shared, st.chans, width)
}

/// The [`BraceModel`] of a scanner state over `num_channels` channels.
pub open spec fn brace_model_of(s: OctScan, num_channels: usize) -> BraceModel {
    BraceModel {
        depth: s.depth,
        branch: s.branch,
        cur: s.cur,
        shared: s.shared,
        octaves: s.chans,
        width: if num_channels < 1 { 1 } else { num_channels as int },
    }
}

proof fn lemma_line_scan_width(b: Seq<u8>, end: int, i: int, qd: bool, qs: bool, s: OctScan, n: int)
    ensures
        line_scan(b, end, i, qd, qs, s, n).chans.len() == s.chans.len(),
    decreases end - i,
{
    if i < 0 || i >= end || end > b.len() {
    } else {
        let ch = b[i];
        if ch == 0x22u8 && !qs {
            lemma_line_scan_width(b, end, i + 1, !qd, qs, s, n);
        } else if ch == 0x27u8 && !qd {
            lemma_line_scan_width(b, end, i + 1, qd, !qs, s, n);
        } else if qd || qs {
            lemma_line_scan_width(b, end, i + 1, qd, qs, s, n);
        } else if ch == 0x5Fu8 && i + 1 < end && b[i + 1] == 0x7Bu8
            && byte_find(b.subrange(0, end), 0x7Du8, i + 2) < end {
            lemma_byte_find(b.subrange(0, end), 0x7Du8, i + 2);
            lemma_line_scan_width(b, end, byte_find(b.subrange(0, end), 0x7Du8, i + 2) + 1, qd, qs, s, n);
        } else if (ch == 0x6Fu8 || ch == 0x4Fu8) && octave_number(b, end, i) is Some {
            let (v, len) = octave_number(b, end, i)->0;
            lemma_octave_number(b, end, i);
            lemma_line_scan_width(b, end, i + 1 + len, qd, qs, oct_set(s, v), n);
        } else if ch == 0x3Eu8 {
            lemma_line_scan_width(b, end, i + 1, qd, qs, oct_shift(s, 1), n);
        } else if ch == 0x3Cu8 {
            lemma_line_scan_width(b, end, i + 1, qd, qs, oct_shift(s, -1), n);
        } else if ch == 0x7Bu8 {
            lemma_line_scan_width(b, end, i + 1, qd, qs, oct_open(s, n), n);
        } else if ch == 0x2Fu8 && s.depth > 0 {
            lemma_line_scan_width(b, end, i + 1, qd, qs, oct_slash(s, n), n);
        } else if ch == 0x7Du8 && s.depth > 0 {
            lemma_line_scan_width(b, end, i + 1, qd, qs, oct_close(s), n);
        } else {
            lemma_line_scan_width(b, end, i + 1, qd, qs, s, n);
        }
    }
}

proof fn lemma_lines_scan_width<R: LineReader>(m: &R, line_number: u32, column: u32, n: int, ln: int, s: OctScan)
    ensures
        lines_scan(m, line_number, column, n, ln, s).chans.len() == s.chans.len(),
    decreases line_number + 1 - ln,
{
    if ln > line_number || ln < 0 {
    } else {
        let b = line_bytes(m, ln as u32);
        let s2 = line_scan(b, scan_end(b, ln == line_number, column), 0, false, false, s, n);
        lemma_line_scan_width(b, scan_end(b, ln == line_number, column), 0, false, false, s, n);
        lemma_lines_scan_width(m, line_number, column, n, ln + 1, s2);
    }
}

/// The scanner keeps one octave per channel.
pub proof fn lemma_channel_scan_width<R: LineReader>(m: &R, line_number: u32, column: u32, num_channels: usize, track_line: Option<u32>)
    ensures
        spec_channel_scan(m, line_number, column, num_channels, track_line).chans.len()
            == (if num_channels < 1 { 1 } else { num_channels as int }),
{
    lemma_lines_scan_width(m, line_number, column, num_channels as int, start_line(m, line_number, track_line), initial_scan(num_channels));
}

fn walk_to<R: LineReader>(
    model: &R,
    line_number: u32,
    column: u32,
    num_channels: usize,
    track_line: Option<u32>,
) -> (r: (ScanState, bool))
    requires
        track_line is Some || line_number >= 1 || leading_selector(line_bytes(model, line_number)) is Some,
    ensures
        r.1 == spec_channel_scan(model, line_number, column, num_channels, track_line).ok,
        r.1 ==> state_matches(&r.0, spec_channel_scan(model, line_number, column, num_channels, track_line)),
{
    let ghost old_track_line = track_line;
    let track_line = match track_line {
        Some(t) => t,
        None => match find_enclosing_track_selector_at(model, line_number) {
            Some((_, ln)) => ln,
            None => 1,
        },
    };
    let ghost n = num_channels as int;
    let ghost total = lines_scan(model, line_number, column, n, track_line as int, initial_scan(num_channels));
    assert(total == spec_channel_scan(model, line_number, column, num_channels, old_track_line));
    let width = if num_channels < 1 { 1 } else { num_channels };
    let mut chans: Vec<i32> = Vec::new();
    let mut k: usize = 0;
    while k < width
        invariant
            k <= width,
            chans@ == Seq::new(k as nat, |j: int| 6i32),
        decreases width - k,
    {
        chans.push(6);
        assert(chans@ =~= Seq::new((k + 1) as nat, |j: int| 6i32));
        k += 1;
    }
    let mut st = ScanState { chans, depth: 0, branch: 0, cur: -1, shared: 6 };
    let ghost mut cur_s = initial_scan(num_channels);
    assert(st.chans@ =~= cur_s.chans);
    if track_line <= line_number {
        let mut ln = track_line;
        let mut done = false;
        let mut ok = true;
        while !done
            invariant
                track_line <= ln <= line_number,
                n == num_channels as int,
                ok ==> state_matches(&st, cur_s),
                !ok ==> done && !total.ok,
                total == spec_channel_scan(model, line_number, column, num_channels, old_track_line),
                !done ==> lines_scan(model, line_number, column, n, ln as int, cur_s) == total,
                done && ok ==> cur_s == total,
            decreases line_number - ln + (if done { 0int } else { 1int }),
        {
            let line = model.get_line_content(ln);
            let bytes = line.as_bytes();
            let ghost b = line.spec_bytes();
            let end_col: usize = if ln == line_number {
                let c: usize = if column == 0 { 0 } else { (column - 1) as usize };
                if c < bytes.len() { c } else { bytes.len() }
            } else {
                bytes.len()
            };
            let eff_end = find_byte(bytes, 0x3Bu8, 0, end_col);
            let ghost s2 = line_scan(b, eff_end as int, 0, false, false, cur_s, n);
            proof {
                assert(b.subrange(0, end_col as int) =~= b.subrange(0, end_col as int).subrange(0, end_col as int));
                assert(eff_end == scan_end(b, ln == line_number, column));
                assert(lines_scan(model, line_number, column, n, ln as int, cur_s) == lines_scan(model, line_number, column, n, ln + 1, s2));
                lemma_lines_scan_ok(model, line_number, column, n, ln + 1, s2);
                lemma_byte_find(b.subrange(0, end_col as int), 0x3Bu8, 0);
            }
            if !scan_line(bytes, eff_end, num_channels, &mut st, Ghost(cur_s)) {
                ok = false;
                done = true;
            } else {
                proof {
                    cur_s = s2;
                }
                if ln == line_number {
                    done = true;
                } else {
                    ln += 1;
                }
            }
        }
        return (st, ok);
    }
    (st, true)
}

} // verus!
