//! PSG volume envelope parser and serializer.
//!
//! Format: `@N psg value[>target][:length] ... [/ ...] [| ...]`
//!
//! Token rules:
//!  - `value`               single volume, played for `default_length` frames
//!  - `value:length`        volume held for `length` frames
//!  - `value>target`        slide; default length = `|target - value| + 1`
//!  - `value>target:length` slide over `length` frames (explicit override)
//!  - `/`                   sustain marker (key-on holds here; release continues after)
//!  - `|`                   loop marker (envelope loops back here)
//!  - `l:N`                 set default frame length for subsequent nodes
//!
//! Numeric tokens are permissive about trailing garbage, since tags split
//! only on whitespace: `15/` parses as `15` (the `/` ignored) and `|0`
//! parses as `|` (the `0` ignored).

use vstd::prelude::*;
use crate::strings::{
    is_unicode_ws, whitespace_char, str_chars, char_digit_run_end, scan_digit_chars,
    parse_u32_chars, parse_u32_slice, ascii_lower, to_ascii_lower, is_digit_char, dec_chars,
    push_decimal,
};

verus! {

/// One node in the envelope sequence.
#[derive(Debug, Clone, PartialEq, Eq)]
pub struct PsgNode {
    /// Starting volume `0..=15` (15 = loudest).
    pub value: u8,
    /// Slide target volume `0..=15`. `None` means "hold at `value`".
    pub target: Option<u8>,
    /// Explicit frame count. `None` means "use the envelope's effective
    /// default"; see [`node_effective_length`].
    pub length: Option<u32>,
}

/// Parsed PSG envelope. `sustain_pos` and `loop_pos` are node indices, not
/// frame offsets.
#[derive(Debug, Clone, PartialEq, Eq)]
pub struct PsgEnvelope {
    /// Instrument number from the `@N` header.
    pub instrument_number: u32,
    /// Ordered envelope nodes.
    pub nodes: Vec<PsgNode>,
    /// Index of the first *release* node. `None` means no sustain.
    pub sustain_pos: Option<usize>,
    /// Index the envelope jumps back to after the last node. `None` means
    /// "play once then end".
    pub loop_pos: Option<usize>,
    /// Default frame count for nodes with no explicit length and no slide
    /// distance.
    pub default_length: u32,
}

/// The mathematical content of a [`PsgEnvelope`].
pub struct PsgModel {
    pub instrument_number: u32,
    pub nodes: Seq<PsgNode>,
    pub sustain_pos: Option<usize>,
    pub loop_pos: Option<usize>,
    pub default_length: u32,
}

impl View for PsgEnvelope {
    type V = PsgModel;

    open spec fn view(&self) -> PsgModel {
        PsgModel {
            instrument_number: self.instrument_number,
            nodes: self.nodes@,
            sustain_pos: self.sustain_pos,
            loop_pos: self.loop_pos,
            default_length: self.default_length,
        }
    }
}

// ---------------------------------------------------------------------------
// Effective length
// ---------------------------------------------------------------------------

/// A node's duration in frames: its explicit length; else, for a slide
/// to a different volume, the distance plus one; else the default.
pub open spec fn effective_length(node: PsgNode, default_length: u32) -> u32 {
    match node.length {
        Some(len) => len,
        None => match node.target {
            Some(t) => if t != node.value {
                ((if t > node.value { t - node.value } else { node.value - t }) + 1) as u32
            } else {
                default_length
            },
            None => default_length,
        },
    }
}

/// A node sliding from `v` to `t` with no explicit length.
pub open spec fn slide_node(v: u8, t: u8) -> PsgNode {
    PsgNode { value: v, target: Some(t), length: None }
}

/// A slide with no explicit length lasts one frame more than the distance
/// it covers, whatever its direction: fading `v` to `t` takes as long as
/// rising `t` to `v`, and longer than the default whenever the distance
/// reaches it.
pub proof fn law_slide_length_follows_distance(v: u8, t: u8, default_length: u32)
    requires
        v != t,
    ensures
        effective_length(slide_node(v, t), default_length)
            == effective_length(slide_node(t, v), default_length),
        effective_length(slide_node(v, t), default_length) as int
            == (if t >= v { t - v } else { v - t }) + 1,
        (if t >= v { t - v } else { v - t }) >= default_length ==>
            effective_length(slide_node(v, t), default_length) > default_length,
{
}

/// Resolve a node's duration in frames:
///
///  1. If `node.length` is set, use it.
///  2. Else if a slide is in effect and `target != value`, use
///     `|target - value| + 1`.
///  3. Else use `default_length`.
pub fn node_effective_length(node: &PsgNode, default_length: u32) -> (r: u32)
    ensures
        r == effective_length(*node, default_length),
{
    if let Some(len) = node.length {
        return len;
    }
    if let Some(target) = node.target {
        if target != node.value {
            let d: u8 = if target > node.value { target - node.value } else { node.value - target };
            return d as u32 + 1;
        }
    }
    default_length
}

// ---------------------------------------------------------------------------
// Parser
// ---------------------------------------------------------------------------

/// A volume clamped to `0..=15`.
pub open spec fn clamp_vol(v: u32) -> u8 {
    if v > 15 { 15 } else { v as u8 }
}

fn clamp_volume(v: u32) -> (r: u8)
    ensures
        r == clamp_vol(v),
{
    if v > 15 { 15 } else { v as u8 }
}

/// The ASCII digits of `t` from index `i`, when there is at least one and
/// their value fits in a `u32`: that value and the number of digits.
pub open spec fn digits_at(t: Seq<char>, i: int) -> Option<(u32, int)> {
    let e = char_digit_run_end(t, i);
    if e == i {
        None
    } else {
        match parse_u32_chars(t.subrange(i, e)) {
            Some(v) => Some((v, e - i)),
            None => None,
        }
    }
}

proof fn lemma_digit_run_bounds(t: Seq<char>, i: int)
    requires
        0 <= i <= t.len(),
    ensures
        i <= char_digit_run_end(t, i) <= t.len(),
    decreases t.len() - i,
{
    if i < t.len() && is_digit_char(t[i]) {
        lemma_digit_run_bounds(t, i + 1);
    }
}

/// Read the run of ASCII digits of `t` starting at `i`.
fn read_leading_digits(t: &[char], i: usize) -> (r: Option<(u32, usize)>)
    requires
        i <= t@.len(),
    ensures
        match digits_at(t@, i as int) {
            None => r is None,
            Some((v, c)) => r matches Some((rv, rc)) && rv == v && rc == c,
        },
        r matches Some((v, c)) ==> i + c <= t@.len(),
{
    let e = scan_digit_chars(t, i);
    if e == i {
        return None;
    }
    match parse_u32_slice(t, i, e) {
        Some(v) => Some((v, e - i)),
        None => None,
    }
}

/// The node written by a data token that starts with the value `v`,
/// `c` digits long.
pub open spec fn node_from(tok: Seq<char>, v: u32, c: int) -> PsgNode {
    let slide = if c < tok.len() && tok[c] == '>' {
        match digits_at(tok, c + 1) {
            Some((t, c2)) => (Some(clamp_vol(t)), c + 1 + c2),
            None => (None::<u8>, c + 1),
        }
    } else {
        (None::<u8>, c)
    };
    let i = slide.1;
    let length = if i < tok.len() && tok[i] == ':' {
        match digits_at(tok, i + 1) {
            Some((l, _)) => if l > 0 { Some(l) } else { None },
            None => None,
        }
    } else {
        None
    };
    PsgNode { value: clamp_vol(v), target: slide.0, length }
}

/// The envelope after one data token (after the `psg` keyword).
pub open spec fn data_step(m: PsgModel, tok: Seq<char>) -> PsgModel {
    if tok.len() == 0 {
        m
    } else if tok[0] == '/' {
        PsgModel { sustain_pos: Some(m.nodes.len() as usize), ..m }
    } else if tok[0] == '|' {
        PsgModel { loop_pos: Some(m.nodes.len() as usize), ..m }
    } else if (tok[0] == 'l' || tok[0] == 'L') && tok.len() > 1 && tok[1] == ':' {
        match digits_at(tok, 2) {
            Some((len, _)) => if len > 0 { PsgModel { default_length: len, ..m } } else { m },
            None => m,
        }
    } else if !is_digit_char(tok[0]) {
        m
    } else {
        match digits_at(tok, 0) {
            Some((v, c)) => PsgModel { nodes: m.nodes.push(node_from(tok, v, c)), ..m },
            None => m,
        }
    }
}

/// The parser's state between tokens.
pub struct PsgParseState {
    /// The `psg` keyword has been seen.
    pub found: bool,
    /// The last `@N` number seen before the keyword.
    pub num: u32,
    pub env: PsgModel,
}

/// `tok` is the word `psg` in any ASCII case.
pub open spec fn is_psg_word(tok: Seq<char>) -> bool {
    tok.len() == 3 && ascii_lower(tok[0]) == 'p' && ascii_lower(tok[1]) == 's' && ascii_lower(tok[2]) == 'g'
}

/// The parser state after one token.
pub open spec fn psg_step(st: PsgParseState, tok: Seq<char>) -> PsgParseState {
    if !st.found {
        if tok.len() > 0 && tok[0] == '@' {
            match digits_at(tok, 1) {
                Some((n, _)) => PsgParseState { num: n, ..st },
                None => st,
            }
        } else if is_psg_word(tok) {
            PsgParseState { found: true, env: PsgModel { instrument_number: st.num, ..st.env }, ..st }
        } else {
            st
        }
    } else {
        PsgParseState { env: data_step(st.env, tok), ..st }
    }
}

/// The parser state before any token.
pub open spec fn initial_parse_state() -> PsgParseState {
    PsgParseState {
        found: false,
        num: 1,
        env: PsgModel {
            instrument_number: 1,
            nodes: Seq::empty(),
            sustain_pos: None,
            loop_pos: None,
            default_length: 1,
        },
    }
}

/// The parser state after the tokens `toks`, in order.
pub open spec fn psg_fold(toks: Seq<Seq<char>>) -> PsgParseState {
    psg_fold_from(initial_parse_state(), toks)
}

/// The parser state after the tokens `toks`, in order, starting from `st`.
pub open spec fn psg_fold_from(st: PsgParseState, toks: Seq<Seq<char>>) -> PsgParseState
    decreases toks.len(),
{
    if toks.len() == 0 {
        st
    } else {
        psg_step(psg_fold_from(st, toks.drop_last()), toks.last())
    }
}

/// Tokenizer state: tokens completed so far, the token being read, and
/// whether the rest of the line is a `;` comment.
pub struct TokScan {
    pub toks: Seq<Seq<char>>,
    pub cur: Seq<char>,
    pub comment: bool,
}

/// `toks` with `cur` appended when it is not empty.
pub open spec fn flush_tok(toks: Seq<Seq<char>>, cur: Seq<char>) -> Seq<Seq<char>> {
    if cur.len() == 0 { toks } else { toks.push(cur) }
}

/// The tokenizer after the first `n` characters of `s`. A token is a
/// maximal run of characters that are neither whitespace nor `;`; a `;`
/// starts a comment that runs to the end of its line.
pub open spec fn tok_scan(s: Seq<char>, n: int) -> TokScan
    decreases n,
{
    if n <= 0 {
        TokScan { toks: Seq::empty(), cur: Seq::empty(), comment: false }
    } else {
        psg_tok_step(tok_scan(s, n - 1), s[n - 1])
    }
}

/// The tokenizer after reading one more character `c`.
pub open spec fn psg_tok_step(st: TokScan, c: char) -> TokScan {
    if c == '\n' {
        TokScan { toks: flush_tok(st.toks, st.cur), cur: Seq::empty(), comment: false }
    } else if st.comment {
        st
    } else if c == ';' {
        TokScan { toks: flush_tok(st.toks, st.cur), cur: Seq::empty(), comment: true }
    } else if is_unicode_ws(c) {
        TokScan { toks: flush_tok(st.toks, st.cur), cur: Seq::empty(), comment: false }
    } else {
        TokScan { cur: st.cur.push(c), ..st }
    }
}

/// The tokens of `s`: each line cut at its first `;`, then split on
/// whitespace.
pub open spec fn psg_tokens(s: Seq<char>) -> Seq<Seq<char>> {
    let st = tok_scan(s, s.len() as int);
    flush_tok(st.toks, st.cur)
}

/// The envelope defined by the text `s`, or `None` when it holds no
/// `psg` keyword.
pub open spec fn spec_parse_psg(s: Seq<char>) -> Option<PsgModel> {
    let st = psg_fold(psg_tokens(s));
    if st.found { Some(st.env) } else { None }
}

/// Exec-side parser state.
struct PsgParser {
    found: bool,
    num: u32,
    env: PsgEnvelope,
}

impl View for PsgParser {
    type V = PsgParseState;

    closed spec fn view(&self) -> PsgParseState {
        PsgParseState { found: self.found, num: self.num, env: self.env@ }
    }
}

fn data_token(env: &mut PsgEnvelope, tok: &[char])
    requires
        tok@.len() > 0,
    ensures
        final(env)@ == data_step(old(env)@, tok@),
{
    let first = tok[0];
    if first == '/' {
        env.sustain_pos = Some(env.nodes.len());
        return;
    }
    if first == '|' {
        env.loop_pos = Some(env.nodes.len());
        return;
    }
    if (first == 'l' || first == 'L') && tok.len() > 1 && tok[1] == ':' {
        if let Some((len, _)) = read_leading_digits(tok, 2) {
            if len > 0 {
                env.default_length = len;
            }
        }
        return;
    }
    if !('0' <= first && first <= '9') {
        return;
    }
    let (v, c) = match read_leading_digits(tok, 0) {
        Some(p) => p,
        None => {
            return;
        },
    };
    let mut i = c;
    let mut target: Option<u8> = None;
    if i < tok.len() && tok[i] == '>' {
        i += 1;
        if let Some((t, c2)) = read_leading_digits(tok, i) {
            target = Some(clamp_volume(t));
            i += c2;
        }
    }
    let mut length: Option<u32> = None;
    if i < tok.len() && tok[i] == ':' {
        if let Some((l, _)) = read_leading_digits(tok, i + 1) {
            if l > 0 {
                length = Some(l);
            }
        }
    }
    let node = PsgNode { value: clamp_volume(v), target, length };
    assert(node == node_from(tok@, v, c as int));
    env.nodes.push(node);
}

impl PsgParser {
    fn feed(&mut self, tok: &[char])
        requires
            tok@.len() > 0,
        ensures
            final(self)@ == psg_step(old(self)@, tok@),
    {
        if !self.found {
            if tok[0] == '@' {
                if let Some((n, _)) = read_leading_digits(tok, 1) {
                    self.num = n;
                }
                return;
            }
            if tok.len() == 3 && to_ascii_lower(tok[0]) == 'p' && to_ascii_lower(tok[1]) == 's'
                && to_ascii_lower(tok[2]) == 'g' {
                self.found = true;
                self.env.instrument_number = self.num;
            }
            return;
        }
        data_token(&mut self.env, tok);
    }
}

/// Parse a ctrmml PSG definition. The input may contain the full
/// `@N psg ...` header or just the data tokens (multi-line blocks are
/// supported). Returns `None` when no `psg` keyword is found.
pub fn parse_psg_mml(text: &str) -> (r: Option<PsgEnvelope>)
    ensures
        match spec_parse_psg(text@) {
            None => r is None,
            Some(m) => r matches Some(e) && e@ == m,
        },
{
    let s = str_chars(text);
    let mut p = PsgParser {
        found: false,
        num: 1,
        env: PsgEnvelope {
            instrument_number: 1,
            nodes: Vec::new(),
            sustain_pos: None,
            loop_pos: None,
            default_length: 1,
        },
    };
    assert(p@.env.nodes =~= Seq::<PsgNode>::empty());
    let mut cur: Vec<char> = Vec::new();
    let mut comment = false;
    let mut i: usize = 0;
    while i < s.len()
        invariant
            i <= s@.len(),
            s@ == text@,
            tok_scan(s@, i as int).cur == cur@,
            tok_scan(s@, i as int).comment == comment,
            psg_fold(tok_scan(s@, i as int).toks) == p@,
        decreases s@.len() - i,
    {
        let c = s[i];
        let ghost prev = tok_scan(s@, i as int);
        if c == '\n' || (!comment && (c == ';' || whitespace_char(c))) {
            if cur.len() > 0 {
                p.feed(cur.as_slice());
                assert(prev.toks.push(prev.cur).drop_last() =~= prev.toks);
            }
            cur = Vec::new();
            if c == '\n' {
                comment = false;
            } else if c == ';' {
                comment = true;
            }
        } else if !comment {
            cur.push(c);
        }
        i += 1;
    }
    if cur.len() > 0 {
        let ghost prev = tok_scan(s@, s@.len() as int);
        p.feed(cur.as_slice());
        assert(prev.toks.push(prev.cur).drop_last() =~= prev.toks);
    }
    if !p.found {
        return None;
    }
    Some(p.env)
}

// ---------------------------------------------------------------------------
// Serializer
// ---------------------------------------------------------------------------

/// The text of one node: `value[>target][:length]`.
pub open spec fn node_text(n: PsgNode) -> Seq<char> {
    dec_chars(n.value as nat) + (match n.target {
        Some(t) => seq!['>'] + dec_chars(t as nat),
        None => Seq::empty(),
    }) + (match n.length {
        Some(l) => seq![':'] + dec_chars(l as nat),
        None => Seq::empty(),
    })
}

/// What the serializer writes for position `i`: a ` |` when the loop
/// starts there, a ` /` when the sustain does, then ` ` and node `i`
/// when there is one.
pub open spec fn parts_at(m: PsgModel, i: int) -> Seq<char> {
    (if m.loop_pos matches Some(p) && p == i { seq![' ', '|'] } else { Seq::empty() })
        + (if m.sustain_pos matches Some(p) && p == i { seq![' ', '/'] } else { Seq::empty() })
        + (if i < m.nodes.len() { seq![' '] + node_text(m.nodes[i]) } else { Seq::empty() })
}

/// The serialized positions `0..k`.
pub open spec fn psg_body(m: PsgModel, k: int) -> Seq<char>
    decreases k,
{
    if k <= 0 {
        Seq::empty()
    } else {
        psg_body(m, k - 1) + parts_at(m, k - 1)
    }
}

/// The single-line definition `@N psg` followed by the space-separated
/// markers and nodes of `m`.
pub open spec fn psg_text(m: PsgModel, instrument_number: u32) -> Seq<char> {
    seq!['@'] + dec_chars(instrument_number as nat) + seq![' ', 'p', 's', 'g'] + psg_body(m, m.nodes.len() as int + 1)
}

fn push_node(out: &mut String, node: &PsgNode)
    ensures
        final(out)@ == old(out)@ + node_text(*node),
{
    push_decimal(out, node.value as u32);
    let ghost a = out@;
    if let Some(t) = node.target {
        out.push('>');
        push_decimal(out, t as u32);
        assert(out@ =~= a + (seq!['>'] + dec_chars(t as nat)));
    } else {
        assert(out@ =~= a + Seq::<char>::empty());
    }
    let ghost b = out@;
    if let Some(l) = node.length {
        out.push(':');
        push_decimal(out, l);
        assert(out@ =~= b + (seq![':'] + dec_chars(l as nat)));
    } else {
        assert(out@ =~= b + Seq::<char>::empty());
    }
    assert(out@ =~= old(out)@ + node_text(*node));
}

fn push_parts(out: &mut String, env: &PsgEnvelope, i: usize)
    requires
        i <= env.nodes@.len(),
    ensures
        final(out)@ == old(out)@ + parts_at(env@, i as int),
{
    let ghost m = env@;
    let ghost o = out@;
    let is_loop = match env.loop_pos {
        Some(p) => p == i,
        None => false,
    };
    if is_loop {
        out.push(' ');
        out.push('|');
    }
    let ghost a = out@;
    assert(a =~= o + (if m.loop_pos matches Some(p) && p == i { seq![' ', '|'] } else { Seq::<char>::empty() }));
    let is_sustain = match env.sustain_pos {
        Some(p) => p == i,
        None => false,
    };
    if is_sustain {
        out.push(' ');
        out.push('/');
    }
    let ghost b = out@;
    assert(b =~= a + (if m.sustain_pos matches Some(p) && p == i { seq![' ', '/'] } else { Seq::<char>::empty() }));
    if i < env.nodes.len() {
        out.push(' ');
        push_node(out, &env.nodes[i]);
        assert(out@ =~= b + (seq![' '] + node_text(m.nodes[i as int])));
    } else {
        assert(out@ =~= b + Seq::<char>::empty());
    }
    assert(out@ =~= o + parts_at(m, i as int));
}

/// Serialize a [`PsgEnvelope`] back to a single-line ctrmml MML
/// definition (e.g. `"@5 psg 15>11:5 / 10>0:20"`). A loop marker comes
/// before a sustain marker at the same position.
pub fn serialize_psg_mml(env: &PsgEnvelope, instrument_number: u32) -> (r: String)
    ensures
        r@ == psg_text(env@, instrument_number),
{
    let mut out = String::new();
    out.push('@');
    push_decimal(&mut out, instrument_number);
    out.push(' ');
    out.push('p');
    out.push('s');
    out.push('g');
    let ghost head = out@;
    assert(head =~= seq!['@'] + dec_chars(instrument_number as nat) + seq![' ', 'p', 's', 'g']);
    let n = env.nodes.len();
    let mut i: usize = 0;
    while i < n
        invariant
            i <= n,
            n == env.nodes@.len(),
            out@ == head + psg_body(env@, i as int),
        decreases n - i,
    {
        push_parts(&mut out, env, i);
        assert(head + psg_body(env@, i + 1) =~= head + psg_body(env@, i as int) + parts_at(env@, i as int));
        i += 1;
    }
    push_parts(&mut out, env, n);
    assert(head + psg_body(env@, n + 1) =~= head + psg_body(env@, n as int) + parts_at(env@, n as int));
    out
}

// ---------------------------------------------------------------------------
// Timeline for visualization
// ---------------------------------------------------------------------------

#[derive(Debug, Clone, Copy, PartialEq, Eq)]
pub struct TimePoint {
    /// Frame offset from envelope start.
    pub frame: u32,
    /// Volume level `0..=15`.
    pub volume: u8,
}

/// Frames taken by the first `k` nodes of `m`.
pub open spec fn frames_before(m: PsgModel, k: int) -> int
    decreases k,
{
    if k <= 0 {
        0
    } else {
        frames_before(m, k - 1) + effective_length(m.nodes[k - 1], m.default_length)
    }
}

/// `frames_before` grows with `k`.
pub proof fn lemma_frames_monotone(m: PsgModel, j: int, k: int)
    requires
        j <= k,
    ensures
        frames_before(m, j) <= frames_before(m, k),
    decreases k - j,
{
    if j < k {
        lemma_frames_monotone(m, j, k - 1);
    }
}

/// A node index at or past the end starts where the envelope ends: its
/// start frame is the total duration.
pub proof fn law_start_past_end_is_total(env: PsgEnvelope, node_index: usize)
    requires
        node_index >= env.nodes@.len(),
    ensures
        frames_before(env@, if node_index < env.nodes@.len() { node_index as int } else { env.nodes@.len() as int })
            == frames_before(env@, env.nodes@.len() as int),
{
}

/// Convert the envelope into a `(frame, volume)` sequence suitable for
/// drawing the envelope graph. Each node contributes two points: the
/// start and end of its segment.
pub fn compute_timeline(env: &PsgEnvelope) -> (pts: Vec<TimePoint>)
    requires
        frames_before(env@, env.nodes@.len() as int) <= u32::MAX,
    ensures
        pts@.len() == 2 * env.nodes@.len(),
        forall|i: int| 0 <= i < env.nodes@.len() ==> #[trigger] pts@[2 * i] == (TimePoint {
            frame: frames_before(env@, i) as u32,
            volume: env.nodes@[i].value,
        }),
        forall|i: int| 0 <= i < env.nodes@.len() ==> #[trigger] pts@[2 * i + 1] == (TimePoint {
            frame: frames_before(env@, i + 1) as u32,
            volume: match env.nodes@[i].target { Some(t) => t, None => env.nodes@[i].value },
        }),
{
    let ghost m = env@;
    let mut pts: Vec<TimePoint> = Vec::new();
    let mut frame: u32 = 0;
    let mut k: usize = 0;
    while k < env.nodes.len()
        invariant
            m == env@,
            k <= m.nodes.len(),
            frames_before(m, m.nodes.len() as int) <= u32::MAX,
            frame as int == frames_before(m, k as int),
            pts@.len() == 2 * k,
            forall|i: int| 0 <= i < k ==> #[trigger] pts@[2 * i] == (TimePoint {
                frame: frames_before(m, i) as u32,
                volume: m.nodes[i].value,
            }),
            forall|i: int| 0 <= i < k ==> #[trigger] pts@[2 * i + 1] == (TimePoint {
                frame: frames_before(m, i + 1) as u32,
                volume: match m.nodes[i].target { Some(t) => t, None => m.nodes[i].value },
            }),
        decreases m.nodes.len() - k,
    {
        let node = &env.nodes[k];
        let len = node_effective_length(node, env.default_length);
        proof {
            lemma_frames_monotone(m, k + 1, m.nodes.len() as int);
        }
        let v0 = node.value;
        let v1 = match node.target {
            Some(t) => t,
            None => node.value,
        };
        pts.push(TimePoint { frame, volume: v0 });
        pts.push(TimePoint { frame: frame + len, volume: v1 });
        frame += len;
        k += 1;
        assert forall|i: int| 0 <= i < k implies #[trigger] pts@[2 * i] == (TimePoint {
            frame: frames_before(m, i) as u32,
            volume: m.nodes[i].value,
        }) by {
            if i == k - 1 {
                assert(pts@[2 * i] == pts@[2 * (k - 1)]);
            }
        }
        assert forall|i: int| 0 <= i < k implies #[trigger] pts@[2 * i + 1] == (TimePoint {
            frame: frames_before(m, i + 1) as u32,
            volume: match m.nodes[i].target { Some(t) => t, None => m.nodes[i].value },
        }) by {
            if i == k - 1 {
                assert(pts@[2 * i + 1] == pts@[2 * (k - 1) + 1]);
            }
        }
    }
    pts
}

fn frames_upto(env: &PsgEnvelope, cap: usize) -> (r: u32)
    requires
        cap <= env.nodes@.len(),
        frames_before(env@, cap as int) <= u32::MAX,
    ensures
        r == frames_before(env@, cap as int),
{
    let ghost m = env@;
    let mut total: u32 = 0;
    let mut k: usize = 0;
    while k < cap
        invariant
            m == env@,
            k <= cap <= m.nodes.len(),
            frames_before(m, cap as int) <= u32::MAX,
            total as int == frames_before(m, k as int),
        decreases cap - k,
    {
        proof {
            lemma_frames_monotone(m, k + 1, cap as int);
        }
        total += node_effective_length(&env.nodes[k], env.default_length);
        k += 1;
    }
    total
}

/// Total envelope duration in frames.
pub fn total_duration(env: &PsgEnvelope) -> (r: u32)
    requires
        frames_before(env@, env.nodes@.len() as int) <= u32::MAX,
    ensures
        r == frames_before(env@, env.nodes@.len() as int),
{
    frames_upto(env, env.nodes.len())
}

/// Frame offset where node `node_index` starts. `node_index` past the
/// end yields the total duration.
pub fn node_start_frame(env: &PsgEnvelope, node_index: usize) -> (r: u32)
    requires
        frames_before(env@, if node_index < env.nodes@.len() { node_index as int } else { env.nodes@.len() as int })
            <= u32::MAX,
    ensures
        r == frames_before(env@, if node_index < env.nodes@.len() { node_index as int } else { env.nodes@.len() as int }),
{
    let cap = if node_index < env.nodes.len() { node_index } else { env.nodes.len() };
    frames_upto(env, cap)
}

// ---------------------------------------------------------------------------
// Round trip: parsing what the serializer writes
// ---------------------------------------------------------------------------

/// The tokenizer before any character.
pub open spec fn init_tok() -> TokScan {
    TokScan { toks: Seq::empty(), cur: Seq::empty(), comment: false }
}

/// The tokenizer after reading all of `b`, starting from `st`.
pub open spec fn tok_from(st: TokScan, b: Seq<char>) -> TokScan
    decreases b.len(),
{
    if b.len() == 0 { st } else { psg_tok_step(tok_from(st, b.drop_last()), b.last()) }
}

proof fn lemma_tok_scan_is_from(s: Seq<char>, n: int)
    requires
        0 <= n <= s.len(),
    ensures
        tok_scan(s, n) == tok_from(init_tok(), s.subrange(0, n)),
    decreases n,
{
    if n > 0 {
        lemma_tok_scan_is_from(s, n - 1);
        assert(s.subrange(0, n).drop_last() =~= s.subrange(0, n - 1));
    }
}

proof fn lemma_tok_from_concat(st: TokScan, a: Seq<char>, b: Seq<char>)
    ensures
        tok_from(st, a + b) == tok_from(tok_from(st, a), b),
    decreases b.len(),
{
    if b.len() == 0 {
        assert(a + b =~= a);
    } else {
        lemma_tok_from_concat(st, a, b.drop_last());
        assert((a + b).drop_last() =~= a + b.drop_last());
        assert((a + b).last() == b.last());
    }
}

/// A character that can be part of a token.
pub open spec fn word_char(c: char) -> bool {
    c != '\n' && c != ';' && !is_unicode_ws(c)
}

/// A non-empty run of token characters.
pub open spec fn is_word(w: Seq<char>) -> bool {
    w.len() > 0 && forall|i: int| 0 <= i < w.len() ==> word_char(#[trigger] w[i])
}

proof fn lemma_tok_word_chars(st: TokScan, w: Seq<char>)
    requires
        !st.comment,
        forall|i: int| 0 <= i < w.len() ==> word_char(#[trigger] w[i]),
    ensures
        tok_from(st, w) == (TokScan { cur: st.cur + w, ..st }),
    decreases w.len(),
{
    if w.len() == 0 {
        assert(st.cur + w =~= st.cur);
    } else {
        lemma_tok_word_chars(st, w.drop_last());
        assert(word_char(w[w.len() - 1]));
        assert((st.cur + w.drop_last()).push(w.last()) =~= st.cur + w);
    }
}

proof fn lemma_words_text_single(w: Seq<char>)
    ensures
        words_text(seq![w]) == seq![' '] + w,
{
    assert(seq![w].drop_last() =~= Seq::<Seq<char>>::empty());
    assert(words_text(Seq::<Seq<char>>::empty()) == Seq::<char>::empty());
    assert(Seq::<char>::empty() + seq![' '] + w =~= seq![' '] + w);
}

/// ` w1 w2 ...`: every word preceded by one space.
pub open spec fn words_text(ws: Seq<Seq<char>>) -> Seq<char>
    decreases ws.len(),
{
    if ws.len() == 0 { Seq::empty() } else { words_text(ws.drop_last()) + seq![' '] + ws.last() }
}

proof fn lemma_words_text_concat(a: Seq<Seq<char>>, b: Seq<Seq<char>>)
    ensures
        words_text(a + b) == words_text(a) + words_text(b),
    decreases b.len(),
{
    if b.len() == 0 {
        assert(a + b =~= a);
        assert(words_text(a) + words_text(b) =~= words_text(a));
    } else {
        lemma_words_text_concat(a, b.drop_last());
        assert((a + b).drop_last() =~= a + b.drop_last());
        assert(words_text(a + b) =~= words_text(a) + words_text(b));
    }
}

proof fn lemma_tok_words(st: TokScan, ws: Seq<Seq<char>>)
    requires
        !st.comment,
        st.cur.len() > 0,
        ws.len() > 0,
        forall|k: int| 0 <= k < ws.len() ==> is_word(#[trigger] ws[k]),
    ensures
        tok_from(st, words_text(ws)) == (TokScan {
            toks: st.toks.push(st.cur) + ws.drop_last(),
            cur: ws.last(),
            comment: false,
        }),
    decreases ws.len(),
{
    let w = ws.last();
    let init = ws.drop_last();
    assert(is_word(ws[ws.len() - 1]));
    assert(words_text(ws) == words_text(init) + seq![' '] + w);
    assert(words_text(init) + seq![' '] + w =~= words_text(init) + (seq![' '] + w));
    lemma_tok_from_concat(st, words_text(init), seq![' '] + w);
    let mid = tok_from(st, words_text(init));
    if init.len() == 0 {
        assert(mid == st);
    } else {
        assert forall|k: int| 0 <= k < init.len() implies is_word(#[trigger] init[k]) by {
            assert(init[k] == ws[k]);
        }
        lemma_tok_words(st, init);
    }
    assert(!mid.comment && mid.cur.len() > 0);
    lemma_tok_from_concat(mid, seq![' '], w);
    assert(seq![' '].drop_last() =~= Seq::<char>::empty());
    assert(tok_from(mid, seq![' '].drop_last()) == mid);
    assert(seq![' '].last() == ' ');
    assert(is_unicode_ws(' '));
    let after_space = tok_from(mid, seq![' ']);
    assert(after_space == (TokScan { toks: mid.toks.push(mid.cur), cur: Seq::empty(), comment: false }));
    lemma_tok_word_chars(after_space, w);
    assert(Seq::<char>::empty() + w =~= w);
    if init.len() == 0 {
        assert(st.toks.push(st.cur) + ws.drop_last() =~= st.toks.push(st.cur));
    } else {
        assert((st.toks.push(st.cur) + init.drop_last()).push(init.last()) =~= st.toks.push(st.cur) + init);
    }
}

proof fn lemma_fold_concat(st: PsgParseState, a: Seq<Seq<char>>, b: Seq<Seq<char>>)
    ensures
        psg_fold_from(st, a + b) == psg_fold_from(psg_fold_from(st, a), b),
    decreases b.len(),
{
    if b.len() == 0 {
        assert(a + b =~= a);
    } else {
        lemma_fold_concat(st, a, b.drop_last());
        assert((a + b).drop_last() =~= a + b.drop_last());
        assert((a + b).last() == b.last());
    }
}

proof fn lemma_dec_chars(n: nat)
    ensures
        dec_chars(n).len() >= 1,
        forall|i: int| 0 <= i < dec_chars(n).len() ==> is_digit_char(#[trigger] dec_chars(n)[i]),
        crate::strings::char_digits_value(dec_chars(n)) == n,
    decreases n,
{
    if n < 10 {
        let c = crate::strings::digit_char(n);
        assert(dec_chars(n) == seq![c]);
        assert(seq![c].drop_last() =~= Seq::<char>::empty());
        assert(crate::strings::char_digits_value(Seq::<char>::empty()) == 0);
        assert((c as u32) == n + 48);
        assert(crate::strings::char_digits_value(seq![c]) == crate::strings::char_digits_value(seq![c].drop_last()) * 10
            + (seq![c].last() as u32 - 48) as nat);
    } else {
        lemma_dec_chars(n / 10);
        let d = n % 10;
        let c = crate::strings::digit_char(d);
        assert((c as u32) == d + 48);
        assert(dec_chars(n).drop_last() =~= dec_chars(n / 10));
        assert(dec_chars(n).last() == c);
        assert(n == (n / 10) * 10 + n % 10);
        assert(crate::strings::char_digits_value(dec_chars(n)) == crate::strings::char_digits_value(dec_chars(n / 10)) * 10 + d);
    }
}

proof fn lemma_run_end(t: Seq<char>, i: int, e: int, j: int)
    requires
        0 <= i <= j <= e <= t.len(),
        forall|k: int| i <= k < e ==> is_digit_char(#[trigger] t[k]),
        e == t.len() || !is_digit_char(t[e]),
    ensures
        char_digit_run_end(t, j) == e,
    decreases e - j,
{
    if j < e {
        lemma_run_end(t, i, e, j + 1);
    }
}

/// The digits of `v` at `t[i..]`, followed by the end of `t` or a
/// non-digit, read back as `v`.
proof fn lemma_digits_at_dec(t: Seq<char>, i: int, v: u32)
    requires
        0 <= i,
        i + dec_chars(v as nat).len() <= t.len(),
        t.subrange(i, i + dec_chars(v as nat).len()) == dec_chars(v as nat),
        i + dec_chars(v as nat).len() == t.len() || !is_digit_char(t[i + dec_chars(v as nat).len()]),
    ensures
        digits_at(t, i) == Some((v, dec_chars(v as nat).len() as int)),
{
    let d = dec_chars(v as nat);
    let e = i + d.len();
    lemma_dec_chars(v as nat);
    assert forall|k: int| i <= k < e implies is_digit_char(#[trigger] t[k]) by {
        assert(t[k] == t.subrange(i, e)[k - i]);
    }
    lemma_run_end(t, i, e, i);
    assert(d[0] != '+');
    assert(crate::strings::strip_plus(d) == d);
    assert(crate::strings::all_digit_chars(d));
}

/// A node the serializer writes and the parser reads back unchanged:
/// volumes within `0..=15` and, when set, a positive length.
pub open spec fn node_round_trips(n: PsgNode) -> bool {
    &&& n.value <= 15
    &&& (n.target matches Some(t) ==> t <= 15)
    &&& (n.length matches Some(l) ==> l > 0)
}

proof fn lemma_node_text_parses(m: PsgModel, n: PsgNode)
    requires
        node_round_trips(n),
    ensures
        data_step(m, node_text(n)) == (PsgModel { nodes: m.nodes.push(n), ..m }),
        is_word(node_text(n)),
{
    let dv = dec_chars(n.value as nat);
    let tpart: Seq<char> = match n.target { Some(t) => seq!['>'] + dec_chars(t as nat), None => Seq::empty() };
    let lpart: Seq<char> = match n.length { Some(l) => seq![':'] + dec_chars(l as nat), None => Seq::empty() };
    let tok = node_text(n);
    assert(tok == dv + tpart + lpart);
    lemma_dec_chars(n.value as nat);
    let c = dv.len() as int;
    assert(tok.subrange(0, c) =~= dv);
    assert(tok[0] == dv[0]);
    assert(is_digit_char(tok[0]));
    if c < tok.len() {
        assert(tok[c] == '>' || tok[c] == ':');
    }
    lemma_digits_at_dec(tok, 0, n.value as u32);
    assert((n.value as u32) as u8 == n.value);
    let i = match n.target {
        Some(t) => {
            lemma_dec_chars(t as nat);
            let dt = dec_chars(t as nat);
            assert(tok[c] == '>');
            assert(tok.subrange(c + 1, c + 1 + dt.len()) =~= dt);
            if c + 1 + dt.len() < tok.len() {
                assert(tok[c + 1 + dt.len()] == ':');
            }
            lemma_digits_at_dec(tok, c + 1, t as u32);
            assert(clamp_vol(t as u32) == t);
            c + 1 + dt.len()
        },
        None => c,
    };
    assert(i == dv.len() + tpart.len());
    match n.length {
        Some(l) => {
            lemma_dec_chars(l as nat);
            let dl = dec_chars(l as nat);
            assert(tok[i] == ':');
            assert(tok.subrange(i + 1, i + 1 + dl.len()) =~= dl);
            lemma_digits_at_dec(tok, i + 1, l);
        },
        None => {
            assert(i == tok.len());
        },
    }
    assert(node_from(tok, n.value as u32, c) == n);
    assert forall|k: int| 0 <= k < tok.len() implies word_char(#[trigger] tok[k]) by {
        if k < c {
            assert(tok[k] == dv[k]);
        } else if k < i {
            match n.target {
                Some(t) => {
                    lemma_dec_chars(t as nat);
                    if k > c {
                        assert(tok[k] == dec_chars(t as nat)[k - c - 1]);
                    }
                },
                None => {},
            }
        } else {
            match n.length {
                Some(l) => {
                    lemma_dec_chars(l as nat);
                    if k > i {
                        assert(tok[k] == dec_chars(l as nat)[k - i - 1]);
                    }
                },
                None => {},
            }
        }
    }
}

/// The words the serializer writes for position `i`.
pub open spec fn part_words(m: PsgModel, i: int) -> Seq<Seq<char>> {
    (if m.loop_pos matches Some(p) && p == i { seq![seq!['|']] } else { Seq::empty() })
        + (if m.sustain_pos matches Some(p) && p == i { seq![seq!['/']] } else { Seq::empty() })
        + (if i < m.nodes.len() { seq![node_text(m.nodes[i])] } else { Seq::empty() })
}

/// The words of positions `0..k`.
pub open spec fn words_upto(m: PsgModel, k: int) -> Seq<Seq<char>>
    decreases k,
{
    if k <= 0 { Seq::empty() } else { words_upto(m, k - 1) + part_words(m, k - 1) }
}

/// Envelopes the serializer can express: default length 1, nodes that
/// round-trip, markers within the node list.
pub open spec fn round_trippable(m: PsgModel) -> bool {
    &&& m.default_length == 1
    &&& forall|i: int| 0 <= i < m.nodes.len() ==> node_round_trips(#[trigger] m.nodes[i])
    &&& (m.sustain_pos matches Some(p) ==> p <= m.nodes.len())
    &&& (m.loop_pos matches Some(p) ==> p <= m.nodes.len())
}

proof fn lemma_body_words(m: PsgModel, k: int)
    requires
        round_trippable(m),
        0 <= k,
    ensures
        psg_body(m, k) == words_text(words_upto(m, k)),
        forall|j: int| 0 <= j < words_upto(m, k).len() ==> is_word(#[trigger] words_upto(m, k)[j]),
    decreases k,
{
    if k > 0 {
        lemma_body_words(m, k - 1);
        let a = if m.loop_pos matches Some(p) && p == k - 1 { seq![seq!['|']] } else { Seq::<Seq<char>>::empty() };
        let b = if m.sustain_pos matches Some(p) && p == k - 1 { seq![seq!['/']] } else { Seq::<Seq<char>>::empty() };
        let c = if k - 1 < m.nodes.len() { seq![node_text(m.nodes[k - 1])] } else { Seq::<Seq<char>>::empty() };
        lemma_words_text_concat(a, b);
        lemma_words_text_concat(a + b, c);
        lemma_words_text_single(seq!['|']);
        lemma_words_text_single(seq!['/']);
        assert(seq![' '] + seq!['|'] =~= seq![' ', '|']);
        assert(seq![' '] + seq!['/'] =~= seq![' ', '/']);
        if k - 1 < m.nodes.len() {
            lemma_words_text_single(node_text(m.nodes[k - 1]));
            lemma_node_text_parses(m, m.nodes[k - 1]);
        }
        assert(words_text(Seq::<Seq<char>>::empty()) =~= Seq::<char>::empty());
        assert(parts_at(m, k - 1) =~= words_text(part_words(m, k - 1)));
        lemma_words_text_concat(words_upto(m, k - 1), part_words(m, k - 1));
        assert forall|j: int| 0 <= j < words_upto(m, k).len() implies is_word(#[trigger] words_upto(m, k)[j]) by {
            let w0 = words_upto(m, k - 1);
            if j >= w0.len() {
                let pw = part_words(m, k - 1);
                assert(words_upto(m, k)[j] == pw[j - w0.len()]);
                if k - 1 < m.nodes.len() {
                    lemma_node_text_parses(m, m.nodes[k - 1]);
                }
                assert(is_word(seq!['|']));
                assert(is_word(seq!['/']));
            }
        }
    }
}

/// The envelope after parsing positions `0..k` of `m`.
pub open spec fn partial_env(m: PsgModel, k: int) -> PsgModel {
    PsgModel {
        instrument_number: m.instrument_number,
        nodes: m.nodes.subrange(0, if k < m.nodes.len() { k } else { m.nodes.len() as int }),
        sustain_pos: if m.sustain_pos matches Some(p) && p < k { m.sustain_pos } else { None },
        loop_pos: if m.loop_pos matches Some(p) && p < k { m.loop_pos } else { None },
        default_length: 1,
    }
}

proof fn lemma_fold_parts(m: PsgModel, k: int)
    requires
        round_trippable(m),
        0 <= k <= m.nodes.len() + 1,
    ensures
        psg_fold_from(PsgParseState { found: true, num: m.instrument_number, env: partial_env(m, 0) }, words_upto(m, k))
            == (PsgParseState { found: true, num: m.instrument_number, env: partial_env(m, k) }),
    decreases k,
{
    let st0 = PsgParseState { found: true, num: m.instrument_number, env: partial_env(m, 0) };
    if k > 0 {
        lemma_fold_parts(m, k - 1);
        lemma_fold_concat(st0, words_upto(m, k - 1), part_words(m, k - 1));
        let i = k - 1;
        let e0 = partial_env(m, i);
        assert(e0.nodes.len() == i);
        let a = if m.loop_pos matches Some(p) && p == i { seq![seq!['|']] } else { Seq::<Seq<char>>::empty() };
        let b = if m.sustain_pos matches Some(p) && p == i { seq![seq!['/']] } else { Seq::<Seq<char>>::empty() };
        let c = if i < m.nodes.len() { seq![node_text(m.nodes[i])] } else { Seq::<Seq<char>>::empty() };
        let s0 = PsgParseState { found: true, num: m.instrument_number, env: e0 };
        lemma_fold_concat(s0, a + b, c);
        lemma_fold_concat(s0, a, b);
        let e1 = if m.loop_pos matches Some(p) && p == i { PsgModel { loop_pos: Some(i as usize), ..e0 } } else { e0 };
        assert(psg_fold_from(s0, a) == PsgParseState { env: e1, ..s0 }) by {
            if m.loop_pos matches Some(p) && p == i {
                assert(a.drop_last() =~= Seq::<Seq<char>>::empty());
                assert(psg_fold_from(s0, a.drop_last()) == s0);
                assert(a.last() == seq!['|']);
                assert(seq!['|'][0] == '|');
                assert(data_step(e0, seq!['|']) == e1);
            } else {
                assert(a =~= Seq::<Seq<char>>::empty());
            }
        }
        let s1 = PsgParseState { env: e1, ..s0 };
        let e2 = if m.sustain_pos matches Some(p) && p == i { PsgModel { sustain_pos: Some(i as usize), ..e1 } } else { e1 };
        assert(psg_fold_from(s1, b) == PsgParseState { env: e2, ..s0 }) by {
            if m.sustain_pos matches Some(p) && p == i {
                assert(b.drop_last() =~= Seq::<Seq<char>>::empty());
                assert(psg_fold_from(s1, b.drop_last()) == s1);
                assert(b.last() == seq!['/']);
                assert(seq!['/'][0] == '/');
                assert(seq!['/'][0] != '|');
                assert(data_step(e1, seq!['/']) == e2);
            } else {
                assert(b =~= Seq::<Seq<char>>::empty());
            }
        }
        let s2 = PsgParseState { env: e2, ..s0 };
        if i < m.nodes.len() {
            lemma_node_text_parses(e2, m.nodes[i]);
            assert(c.drop_last() =~= Seq::<Seq<char>>::empty());
            assert(psg_fold_from(s2, c.drop_last()) == s2);
            assert(c.last() == node_text(m.nodes[i]));
            assert(psg_fold_from(s2, c) == psg_step(s2, node_text(m.nodes[i])));
            assert(e2.nodes.push(m.nodes[i]) =~= m.nodes.subrange(0, i + 1));
        } else {
            assert(c =~= Seq::<Seq<char>>::empty());
            assert(psg_fold_from(s2, c) == s2);
        }
        let e3 = psg_fold_from(s2, c).env;
        assert(e3.nodes =~= partial_env(m, k).nodes);
        assert(psg_fold_from(s2, c) == PsgParseState { found: true, num: m.instrument_number, env: partial_env(m, k) });
    }
}

/// Parsing what `serialize_psg_mml` writes for an envelope it can express
/// (default length 1, volumes within `0..=15`, positive explicit lengths,
/// markers within the node list), under the envelope's own instrument
/// number, gives back the same envelope.
pub proof fn law_parse_serialize_roundtrip(m: PsgModel)
    requires
        round_trippable(m),
    ensures
        spec_parse_psg(psg_text(m, m.instrument_number)) == Some(m),
{
    let n = m.instrument_number;
    let head = seq!['@'] + dec_chars(n as nat);
    let ws = seq![seq!['p', 's', 'g']] + words_upto(m, m.nodes.len() as int + 1);
    lemma_body_words(m, m.nodes.len() as int + 1);
    lemma_dec_chars(n as nat);
    // The text is the header word followed by ` psg` and the body words.
    lemma_words_text_concat(seq![seq!['p', 's', 'g']], words_upto(m, m.nodes.len() as int + 1));
    lemma_words_text_single(seq!['p', 's', 'g']);
    assert(seq![' '] + seq!['p', 's', 'g'] =~= seq![' ', 'p', 's', 'g']);
    let text = psg_text(m, n);
    assert(text =~= head + words_text(ws));
    assert forall|k: int| 0 <= k < ws.len() implies is_word(#[trigger] ws[k]) by {
        if k > 0 {
            assert(ws[k] == words_upto(m, m.nodes.len() as int + 1)[k - 1]);
        } else {
            assert(ws[0] == seq!['p', 's', 'g']);
        }
    }
    // Tokens.
    lemma_tok_scan_is_from(text, text.len() as int);
    assert(text.subrange(0, text.len() as int) =~= text);
    lemma_tok_from_concat(init_tok(), head, words_text(ws));
    assert forall|i: int| 0 <= i < head.len() implies word_char(#[trigger] head[i]) by {
        if i > 0 {
            assert(head[i] == dec_chars(n as nat)[i - 1]);
        }
    }
    lemma_tok_word_chars(init_tok(), head);
    assert(Seq::<char>::empty() + head =~= head);
    lemma_tok_words(tok_from(init_tok(), head), ws);
    let toks = psg_tokens(text);
    assert(toks =~= seq![head] + ws);
    // Header tokens.
    lemma_fold_concat(initial_parse_state(), seq![head, seq!['p', 's', 'g']], words_upto(m, m.nodes.len() as int + 1));
    assert(seq![head] + ws =~= seq![head, seq!['p', 's', 'g']] + words_upto(m, m.nodes.len() as int + 1));
    assert(head.subrange(1, head.len() as int) =~= dec_chars(n as nat));
    lemma_digits_at_dec(head, 1, n);
    let after_head = psg_step(initial_parse_state(), head);
    assert(head[0] == '@');
    assert(after_head == PsgParseState { num: n, ..initial_parse_state() });
    assert(seq![head, seq!['p', 's', 'g']].drop_last() =~= seq![head]);
    assert(seq![head].drop_last() =~= Seq::<Seq<char>>::empty());
    assert(psg_fold_from(initial_parse_state(), seq![head].drop_last()) == initial_parse_state());
    assert(psg_fold_from(initial_parse_state(), seq![head]) == after_head);
    let after_kw = psg_fold_from(initial_parse_state(), seq![head, seq!['p', 's', 'g']]);
    assert(is_psg_word(seq!['p', 's', 'g']));
    assert(seq!['p', 's', 'g'][0] != '@');
    assert(after_kw == psg_step(after_head, seq!['p', 's', 'g']));
    assert(after_kw == PsgParseState { found: true, num: n, env: partial_env(m, 0) }) by {
        assert(partial_env(m, 0).nodes =~= Seq::<PsgNode>::empty());
    }
    lemma_fold_parts(m, m.nodes.len() as int + 1);
    assert(partial_env(m, m.nodes.len() as int + 1).nodes =~= m.nodes);
    assert(partial_env(m, m.nodes.len() as int + 1) == m);
}

} // verus!

