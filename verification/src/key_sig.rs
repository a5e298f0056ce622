//! Key signatures.
//!
//! - A scale name (e.g. `C`, `G`, `D`, `F`, `B-`, `c+`) resets the whole
//!   signature.
//! - A modifier expression (starting with `+`, `-` or `=`) adjusts single
//!   note letters on top of the current signature: `+cfg` sharpens C/F/G,
//!   `-b` flats B, `=f` naturalises F.

use vstd::prelude::*;
use vstd::string::StringSliceAdditionalSpecFns;
use vstd::utf8::{decode_utf8, encode_utf8, valid_utf8};
use crate::strings::{str_chars, byte_find, lemma_byte_find, find_byte, lemma_byte_find_suffix};
use crate::text_scan::{at_boundary, sub_str, lemma_ascii_then_boundary};
use crate::track_selector::{LineReader, line_bytes, leading_selector, parse_leading_track_selector};

verus! {

/// Accidental offset (in semitones) per natural letter `'a'..='g'`; an
/// absent entry reads as `0` through [`KeySig::get_or_zero`].
#[derive(Debug, Default, Clone, Copy, PartialEq, Eq)]
pub struct KeySig {
    /// Indexed by `letter - 'a'`.
    offsets: [Option<i8>; 7],
}

/// Index of a natural letter `'a'..='g'`.
pub open spec fn letter_slot(letter: char) -> Option<int> {
    if 'a' <= letter <= 'g' { Some(letter as int - 97) } else { None }
}

impl View for KeySig {
    type V = Seq<Option<i8>>;

    closed spec fn view(&self) -> Seq<Option<i8>> {
        self.offsets@
    }
}

/// The entry for `letter` in a signature view.
pub open spec fn sig_get(sig: Seq<Option<i8>>, letter: char) -> Option<i8> {
    match letter_slot(letter) {
        Some(i) => sig[i],
        None => None,
    }
}

/// The accidental for `letter`, `0` when unset.
pub open spec fn sig_get_or_zero(sig: Seq<Option<i8>>, letter: char) -> i8 {
    match sig_get(sig, letter) {
        Some(v) => v,
        None => 0,
    }
}

/// `sig` with `letter` set to `acc`; other letters are ignored.
pub open spec fn sig_set(sig: Seq<Option<i8>>, letter: char, acc: i8) -> Seq<Option<i8>> {
    match letter_slot(letter) {
        Some(i) => sig.update(i, Some(acc)),
        None => sig,
    }
}

impl KeySig {
    /// Empty key signature: every letter implicitly zero.
    pub fn new() -> (r: Self)
        ensures
            r@ == Seq::new(7, |i: int| None::<i8>),
    {
        let r = Self { offsets: [None; 7] };
        assert(r@ =~= Seq::new(7, |i: int| None::<i8>));
        r
    }

    fn index(letter: char) -> (r: Option<usize>)
        ensures
            match letter_slot(letter) {
                Some(i) => r == Some(i as usize),
                None => r is None,
            },
    {
        if 'a' <= letter && letter <= 'g' {
            Some((letter as u32 - 97) as usize)
        } else {
            None
        }
    }

    /// The explicit accidental for `letter` (`'a'..='g'`), if set.
    pub fn get(&self, letter: char) -> (r: Option<i8>)
        ensures
            r == sig_get(self@, letter),
    {
        match Self::index(letter) {
            Some(i) => self.offsets[i],
            None => None,
        }
    }

    /// The accidental for `letter`, defaulting to `0` when unset.
    pub fn get_or_zero(&self, letter: char) -> (r: i8)
        ensures
            r == sig_get_or_zero(self@, letter),
    {
        match self.get(letter) {
            Some(v) => v,
            None => 0,
        }
    }

    /// Set the accidental for `letter`; non-natural letters are ignored.
    pub fn set(&mut self, letter: char, acc: i8)
        ensures
            final(self)@ == sig_set(old(self)@, letter, acc),
    {
        if let Some(i) = Self::index(letter) {
            self.offsets[i] = Some(acc);
        }
    }

    /// Builder-style setter.
    pub fn with(self, letter: char, acc: i8) -> (r: Self)
        ensures
            r@ == sig_set(self@, letter, acc),
    {
        let mut s = self;
        s.set(letter, acc);
        s
    }

    /// The `(letter, accidental)` pairs of letters with an explicit
    /// entry, in `'a'..='g'` order.
    pub fn iter(&self) -> (r: Vec<(char, i8)>)
        ensures
            r@ == sig_entries(self@, 7),
    {
        let mut out: Vec<(char, i8)> = Vec::new();
        let mut i: usize = 0;
        while i < 7
            invariant
                i <= 7,
                self@.len() == 7,
                out@ == sig_entries(self@, i as int),
            decreases 7 - i,
        {
            if let Some(v) = self.offsets[i] {
                out.push((((i as u8) + 97u8) as char, v));
            }
            i += 1;
        }
        out
    }
}

/// Explicit entries among the first `n` letters, in letter order.
pub open spec fn sig_entries(sig: Seq<Option<i8>>, n: int) -> Seq<(char, i8)>
    decreases n,
{
    if n <= 0 {
        Seq::empty()
    } else {
        let prev = sig_entries(sig, n - 1);
        match sig[n - 1] {
            Some(v) => prev.push(((((n - 1) as u8) + 97u8) as u8 as char, v)),
            None => prev,
        }
    }
}

/// Every natural letter explicitly set to `v`.
pub open spec fn uniform_sig(v: i8) -> Seq<Option<i8>> {
    Seq::new(7, |i: int| Some(v))
}

/// The signature with every natural letter explicitly set to zero.
pub fn default_key_sig() -> (r: KeySig)
    ensures
        r@ == uniform_sig(0),
{
    let r = KeySig { offsets: [Some(0i8); 7] };
    assert(r@ =~= uniform_sig(0));
    r
}

/// Position of letter slot `i` (`a` = 0) in the order sharps are added:
/// f c g d a e b. Flats are added in the reverse order.
pub open spec fn sharp_order(i: int) -> int {
    if i == 5 { 0 } else if i == 2 { 1 } else if i == 6 { 2 } else if i == 3 { 3 }
    else if i == 0 { 4 } else if i == 4 { 5 } else { 6 }
}

/// A scale with `count` sharps (`sign == 1`) or flats (`sign == -1`): the
/// first `count` letters in the sharp (resp. flat) order carry `sign`,
/// every other letter is an explicit natural.
pub open spec fn scale_sig(count: int, sign: i8) -> Seq<Option<i8>> {
    Seq::new(7, |i: int| {
        let pos = if sign > 0 { sharp_order(i) } else { 6 - sharp_order(i) };
        Some(if pos < count { sign } else { 0i8 })
    })
}

/// `(count, sign)` of the scale named `name`, per the ctrmml scale table
/// (major keys and their relative minors).
pub open spec fn scale_shape(name: Seq<char>) -> Option<(int, i8)> {
    if name == seq!['C'] || name == seq!['a'] { Some((0, 1)) }
    else if name == seq!['G'] || name == seq!['e'] { Some((1, 1)) }
    else if name == seq!['D'] || name == seq!['b'] { Some((2, 1)) }
    else if name == seq!['A'] || name == seq!['f', '+'] { Some((3, 1)) }
    else if name == seq!['E'] || name == seq!['c', '+'] { Some((4, 1)) }
    else if name == seq!['B'] || name == seq!['g', '+'] { Some((5, 1)) }
    else if name == seq!['F', '+'] || name == seq!['d', '+'] { Some((6, 1)) }
    else if name == seq!['C', '+'] || name == seq!['a', '+'] { Some((7, 1)) }
    else if name == seq!['F'] || name == seq!['d'] { Some((1, -1i8)) }
    else if name == seq!['B', '-'] || name == seq!['g'] { Some((2, -1i8)) }
    else if name == seq!['E', '-'] || name == seq!['c'] { Some((3, -1i8)) }
    else if name == seq!['A', '-'] || name == seq!['f'] { Some((4, -1i8)) }
    else if name == seq!['D', '-'] || name == seq!['b', '-'] { Some((5, -1i8)) }
    else if name == seq!['G', '-'] || name == seq!['e', '-'] { Some((6, -1i8)) }
    else if name == seq!['C', '-'] || name == seq!['a', '-'] { Some((7, -1i8)) }
    else { None }
}

/// The signature of the scale named `name`, if it is a known scale.
pub open spec fn spec_scale_for_name(name: Seq<char>) -> Option<Seq<Option<i8>>> {
    match scale_shape(name) {
        Some((count, sign)) => Some(scale_sig(count, sign)),
        None => None,
    }
}

fn is_name(s: &[char], a: char, b: Option<char>) -> (r: bool)
    ensures
        r == (match b {
            Some(bc) => s@ == seq![a, bc],
            None => s@ == seq![a],
        }),
{
    match b {
        Some(bc) => {
            let r = s.len() == 2 && s[0] == a && s[1] == bc;
            if s.len() == 2 {
                assert(s@ == seq![a, bc] <==> (s@[0] == a && s@[1] == bc)) by {
                    if s@[0] == a && s@[1] == bc {
                        assert(s@ =~= seq![a, bc]);
                    }
                }
            }
            r
        },
        None => {
            let r = s.len() == 1 && s[0] == a;
            if s.len() == 1 {
                assert(s@ == seq![a] <==> s@[0] == a) by {
                    if s@[0] == a {
                        assert(s@ =~= seq![a]);
                    }
                }
            }
            r
        },
    }
}

fn scale_shape_of(s: &[char]) -> (r: Option<(u8, i8)>)
    ensures
        match scale_shape(s@) {
            Some((c, sg)) => r == Some((c as u8, sg)),
            None => r is None,
        },
{
    if is_name(s, 'C', None) || is_name(s, 'a', None) { Some((0, 1)) }
    else if is_name(s, 'G', None) || is_name(s, 'e', None) { Some((1, 1)) }
    else if is_name(s, 'D', None) || is_name(s, 'b', None) { Some((2, 1)) }
    else if is_name(s, 'A', None) || is_name(s, 'f', Some('+')) { Some((3, 1)) }
    else if is_name(s, 'E', None) || is_name(s, 'c', Some('+')) { Some((4, 1)) }
    else if is_name(s, 'B', None) || is_name(s, 'g', Some('+')) { Some((5, 1)) }
    else if is_name(s, 'F', Some('+')) || is_name(s, 'd', Some('+')) { Some((6, 1)) }
    else if is_name(s, 'C', Some('+')) || is_name(s, 'a', Some('+')) { Some((7, 1)) }
    else if is_name(s, 'F', None) || is_name(s, 'd', None) { Some((1, -1i8)) }
    else if is_name(s, 'B', Some('-')) || is_name(s, 'g', None) { Some((2, -1i8)) }
    else if is_name(s, 'E', Some('-')) || is_name(s, 'c', None) { Some((3, -1i8)) }
    else if is_name(s, 'A', Some('-')) || is_name(s, 'f', None) { Some((4, -1i8)) }
    else if is_name(s, 'D', Some('-')) || is_name(s, 'b', Some('-')) { Some((5, -1i8)) }
    else if is_name(s, 'G', Some('-')) || is_name(s, 'e', Some('-')) { Some((6, -1i8)) }
    else if is_name(s, 'C', Some('-')) || is_name(s, 'a', Some('-')) { Some((7, -1i8)) }
    else { None }
}

fn scale_for_chars(s: &[char]) -> (r: Option<KeySig>)
    ensures
        match spec_scale_for_name(s@) {
            Some(v) => r matches Some(k) && k@ == v,
            None => r is None,
        },
{
    let (count, sign) = match scale_shape_of(s) {
        Some(p) => p,
        None => {
            return None;
        },
    };
    let order: [u8; 7] = [4, 6, 1, 3, 5, 0, 2];
    let mut offsets: [Option<i8>; 7] = [None; 7];
    let mut i: usize = 0;
    while i < 7
        invariant
            i <= 7,
            offsets@.len() == 7,
            sign == 1 || sign == -1,
            forall|m: int| 0 <= m < 7 ==> order@[m] as int == sharp_order(m),
            forall|m: int| 0 <= m < i ==> offsets@[m] == scale_sig(count as int, sign)[m],
        decreases 7 - i,
    {
        assert(order@[i as int] as int == sharp_order(i as int));
        let pos: u8 = if sign > 0 { order[i] } else { 6 - order[i] };
        offsets[i] = Some(if pos < count { sign } else { 0 });
        i += 1;
    }
    let k = KeySig { offsets };
    assert(k@ =~= scale_sig(count as int, sign));
    Some(k)
}

/// The key signature of the named scale, or `None` if the name is not a
/// known scale. Every natural is explicitly set in the result.
pub fn scale_for_name(name: &str) -> (r: Option<KeySig>)
    ensures
        match spec_scale_for_name(name@) {
            Some(v) => r matches Some(k) && k@ == v,
            None => r is None,
        },
{
    let chars = str_chars(name);
    scale_for_chars(chars.as_slice())
}

/// ASCII lowercase of `c`.
pub open spec fn lower_char(c: char) -> char {
    if 'A' <= c <= 'Z' { ((c as u8) + 32u8) as char } else { c }
}

/// Applying a modifier expression: `+`, `-`, `=` select the accidental
/// for the letters that follow; natural letters (any case) take it.
pub open spec fn modifier_state(sig: Seq<Option<i8>>, s: Seq<char>, n: int) -> (Seq<Option<i8>>, i8)
    decreases n,
{
    if n <= 0 {
        (sig, 0)
    } else {
        let prev = modifier_state(sig, s, n - 1);
        let ch = s[n - 1];
        if ch == '+' {
            (prev.0, 1)
        } else if ch == '-' {
            (prev.0, -1i8)
        } else if ch == '=' {
            (prev.0, 0)
        } else if 'a' <= lower_char(ch) <= 'g' {
            (sig_set(prev.0, lower_char(ch), prev.1), prev.1)
        } else {
            prev
        }
    }
}

/// The signature after a `_{content}` block on top of `current`: a scale
/// name resets it; a modifier expression adjusts it; anything else leaves
/// it unchanged.
pub open spec fn spec_parse_key_sig(content: Seq<char>, current: Seq<Option<i8>>) -> Seq<Option<i8>> {
    match spec_scale_for_name(content) {
        Some(v) => v,
        None => if content.len() == 0 || !(content[0] == '+' || content[0] == '-' || content[0] == '=') {
            current
        } else {
            modifier_state(current, content, content.len() as int).0
        },
    }
}

/// Setting a natural letter's accidental makes `get` return it, and
/// leaves every other letter as it was.
pub proof fn law_set_then_get(sig: KeySig, letter: char, acc: i8, other: char)
    ensures
        sig_get(sig_set(sig@, letter, acc), other) == (if other == letter && letter_slot(letter) is Some {
            Some(acc)
        } else {
            sig_get(sig@, other)
        }),
{
}

/// The empty signature and the all-natural default both read `0` for every
/// letter through `get_or_zero`, so either can stand for "no key".
pub proof fn law_empty_and_default_read_zero(letter: char)
    ensures
        sig_get_or_zero(Seq::new(7, |i: int| None::<i8>), letter) == 0,
        sig_get_or_zero(uniform_sig(0), letter) == 0,
{
}

/// A known scale's signature sets all seven natural letters explicitly.
pub proof fn law_scale_sets_every_letter(name: Seq<char>, letter: char)
    requires
        spec_scale_for_name(name) is Some,
        letter_slot(letter) is Some,
    ensures
        sig_get(spec_scale_for_name(name).unwrap(), letter) is Some,
{
}

/// A scale name resets the signature: the result does not depend on the
/// signature it is applied to.
pub proof fn law_scale_name_resets(content: Seq<char>, a: Seq<Option<i8>>, b: Seq<Option<i8>>)
    requires
        spec_scale_for_name(content) is Some,
    ensures
        spec_parse_key_sig(content, a) == spec_parse_key_sig(content, b),
{
}

/// Pitch class (C = 0) of the natural letter in slot `i` (`a` = 0).
pub open spec fn natural_pitch_class(i: int) -> int {
    if i == 0 { 9 } else if i == 1 { 11 } else if i == 2 { 0 } else if i == 3 { 2 }
    else if i == 4 { 4 } else if i == 5 { 5 } else { 7 }
}

/// Semitones above the tonic of degree `k` (0-based) of a major scale.
pub open spec fn major_degree(k: int) -> int {
    if k == 0 { 0 } else if k == 1 { 2 } else if k == 2 { 4 } else if k == 3 { 5 }
    else if k == 4 { 7 } else if k == 5 { 9 } else { 11 }
}

/// Semitones that a `+` / `-` after a scale letter adds.
pub open spec fn name_accidental(name: Seq<char>) -> int {
    if name.len() > 1 && name[1] == '+' { 1 } else if name.len() > 1 && name[1] == '-' { -1 } else { 0 }
}

/// Whether a scale name is a minor key (its letter is lower case).
pub open spec fn names_minor(name: Seq<char>) -> bool {
    'a' <= name[0] <= 'g'
}

/// Letter slot of the first character of a scale name, in either case.
pub open spec fn name_letter_slot(name: Seq<char>) -> int {
    if names_minor(name) { name[0] as int - 97 } else { name[0] as int - 65 }
}

/// Letter slot of the major tonic whose scale the name's signature
/// spells: the named letter for a major key, two letters up (the
/// relative major) for a minor one.
pub open spec fn major_tonic_slot(name: Seq<char>) -> int {
    if names_minor(name) { (name_letter_slot(name) + 2) % 7 } else { name_letter_slot(name) }
}

/// Pitch class of that major tonic: the named note, three semitones up
/// for a minor key.
pub open spec fn major_tonic_pitch(name: Seq<char>) -> int {
    let named = natural_pitch_class(name_letter_slot(name)) + name_accidental(name);
    if names_minor(name) { named + 3 } else { named }
}

/// A known scale's signature makes its seven letters sound the major
/// scale on the (relative major) tonic: the letter `k` steps above the
/// tonic letter, with its accidental, sounds `major_degree(k)` semitones
/// above the tonic, modulo the octave.
pub proof fn law_scale_spells_major_scale(name: Seq<char>, slot: int)
    requires
        spec_scale_for_name(name) is Some,
        0 <= slot < 7,
    ensures
        (natural_pitch_class(slot) + spec_scale_for_name(name).unwrap()[slot]->Some_0) % 12
            == (major_tonic_pitch(name) + major_degree((slot - major_tonic_slot(name)) % 7)) % 12,
{
}

/// Two known scales built on the same major tonic (same letter, same
/// pitch class) have the same signature; in particular a minor name gives
/// the signature of its relative major.
pub proof fn law_same_major_tonic_same_signature(a: Seq<char>, b: Seq<char>)
    requires
        spec_scale_for_name(a) is Some,
        spec_scale_for_name(b) is Some,
        major_tonic_slot(a) == major_tonic_slot(b),
        major_tonic_pitch(a) % 12 == major_tonic_pitch(b) % 12,
    ensures
        spec_scale_for_name(a) == spec_scale_for_name(b),
{
    let sa = spec_scale_for_name(a).unwrap();
    let sb = spec_scale_for_name(b).unwrap();
    assert forall|slot: int| 0 <= slot < 7 implies sa[slot] == sb[slot] by {
        law_scale_spells_major_scale(a, slot);
        law_scale_spells_major_scale(b, slot);
        let k = (slot - major_tonic_slot(a)) % 7;
        let x = natural_pitch_class(slot);
        let u = sa[slot]->Some_0 as int;
        let v = sb[slot]->Some_0 as int;
        assert(-1 <= u <= 1 && -1 <= v <= 1);
        assert((x + u) % 12 == (x + v) % 12) by {
            vstd::arithmetic::div_mod::lemma_add_mod_noop(major_tonic_pitch(a), major_degree(k), 12);
            vstd::arithmetic::div_mod::lemma_add_mod_noop(major_tonic_pitch(b), major_degree(k), 12);
        }
    }
    assert(sa =~= sb);
}

/// A note letter, in either case, optionally followed by `+` or `-`.
pub open spec fn key_name_shaped(name: Seq<char>) -> bool {
    &&& ('A' <= name[0] <= 'G' || 'a' <= name[0] <= 'g')
    &&& (name.len() == 1 || (name.len() == 2 && (name[1] == '+' || name[1] == '-')))
}

/// The accidental (in `-6..=5`) that the letter in `slot` needs to sound
/// its degree of the major scale the name spells.
pub open spec fn needed_accidental(name: Seq<char>, slot: int) -> int {
    let m = (major_tonic_pitch(name) + major_degree((slot - major_tonic_slot(name)) % 7) - natural_pitch_class(slot)) % 12;
    if m >= 6 { m - 12 } else { m }
}

/// Every letter of the name's major scale takes at most one sharp or flat.
pub open spec fn single_accidentals(name: Seq<char>) -> bool {
    forall|slot: int| 0 <= slot < 7 ==> -1 <= #[trigger] needed_accidental(name, slot) <= 1
}

/// Among key names (a letter, optionally sharpened or flattened), the
/// known scales are exactly those whose major scale (the relative major,
/// for a minor name) can be written with single sharps and flats.
pub proof fn law_known_scales_are_the_single_accidental_keys(name: Seq<char>)
    requires
        key_name_shaped(name),
    ensures
        spec_scale_for_name(name) is Some <==> single_accidentals(name),
{
    if spec_scale_for_name(name) is Some {
        lemma_known_scale_single(name);
    } else if name.len() == 1 {
        lemma_letter_names_known(name);
    } else {
        lemma_unknown_pair_not_single(name);
    }
}

proof fn lemma_known_scale_single(name: Seq<char>)
    requires
        spec_scale_for_name(name) is Some,
    ensures
        single_accidentals(name),
{
    assert forall|slot: int| 0 <= slot < 7 implies -1 <= #[trigger] needed_accidental(name, slot) <= 1 by {
        law_scale_spells_major_scale(name, slot);
    }
}

#[verifier::spinoff_prover]
proof fn lemma_letter_names_known(name: Seq<char>)
    requires
        key_name_shaped(name),
        name.len() == 1,
    ensures
        spec_scale_for_name(name) is Some,
{
    let c = name[0];
    assert(name =~= seq![c]);
    if c == 'A' {
        assert(name == seq!['A']);
    } else if c == 'B' {
        assert(name == seq!['B']);
    } else if c == 'C' {
        assert(name == seq!['C']);
    } else if c == 'D' {
        assert(name == seq!['D']);
    } else if c == 'E' {
        assert(name == seq!['E']);
    } else if c == 'F' {
        assert(name == seq!['F']);
    } else if c == 'G' {
        assert(name == seq!['G']);
    } else if c == 'a' {
        assert(name == seq!['a']);
    } else if c == 'b' {
        assert(name == seq!['b']);
    } else if c == 'c' {
        assert(name == seq!['c']);
    } else if c == 'd' {
        assert(name == seq!['d']);
    } else if c == 'e' {
        assert(name == seq!['e']);
    } else if c == 'f' {
        assert(name == seq!['f']);
    } else if c == 'g' {
        assert(name == seq!['g']);
    }
}

#[verifier::spinoff_prover]
proof fn lemma_unknown_pair_not_single(name: Seq<char>)
    requires
        key_name_shaped(name),
        name.len() == 2,
        spec_scale_for_name(name) is None,
    ensures
        !single_accidentals(name),
{
    let c = name[0];
    let x = name[1];
    assert(name =~= seq![c, x]);
    if c == 'A' && x == '+' {
        assert(!(-1 <= needed_accidental(name, 2) <= 1));
    } else if c == 'A' && x == '-' {
        assert(name == seq!['A', '-']);
    } else if c == 'B' && x == '+' {
        assert(!(-1 <= needed_accidental(name, 0) <= 1));
    } else if c == 'B' && x == '-' {
        assert(name == seq!['B', '-']);
    } else if c == 'C' && x == '+' {
        assert(name == seq!['C', '+']);
    } else if c == 'C' && x == '-' {
        assert(name == seq!['C', '-']);
    } else if c == 'D' && x == '+' {
        assert(!(-1 <= needed_accidental(name, 2) <= 1));
    } else if c == 'D' && x == '-' {
        assert(name == seq!['D', '-']);
    } else if c == 'E' && x == '+' {
        assert(!(-1 <= needed_accidental(name, 2) <= 1));
    } else if c == 'E' && x == '-' {
        assert(name == seq!['E', '-']);
    } else if c == 'F' && x == '+' {
        assert(name == seq!['F', '+']);
    } else if c == 'F' && x == '-' {
        assert(!(-1 <= needed_accidental(name, 1) <= 1));
    } else if c == 'G' && x == '+' {
        assert(!(-1 <= needed_accidental(name, 5) <= 1));
    } else if c == 'G' && x == '-' {
        assert(name == seq!['G', '-']);
    } else if c == 'a' && x == '+' {
        assert(name == seq!['a', '+']);
    } else if c == 'a' && x == '-' {
        assert(name == seq!['a', '-']);
    } else if c == 'b' && x == '+' {
        assert(!(-1 <= needed_accidental(name, 2) <= 1));
    } else if c == 'b' && x == '-' {
        assert(name == seq!['b', '-']);
    } else if c == 'c' && x == '+' {
        assert(name == seq!['c', '+']);
    } else if c == 'c' && x == '-' {
        assert(!(-1 <= needed_accidental(name, 0) <= 1));
    } else if c == 'd' && x == '+' {
        assert(name == seq!['d', '+']);
    } else if c == 'd' && x == '-' {
        assert(!(-1 <= needed_accidental(name, 1) <= 1));
    } else if c == 'e' && x == '+' {
        assert(!(-1 <= needed_accidental(name, 5) <= 1));
    } else if c == 'e' && x == '-' {
        assert(name == seq!['e', '-']);
    } else if c == 'f' && x == '+' {
        assert(name == seq!['f', '+']);
    } else if c == 'f' && x == '-' {
        assert(!(-1 <= needed_accidental(name, 0) <= 1));
    } else if c == 'g' && x == '+' {
        assert(name == seq!['g', '+']);
    } else if c == 'g' && x == '-' {
        assert(!(-1 <= needed_accidental(name, 1) <= 1));
    }
}

/// `letter` does not occur in `s[..n]` in either case.
pub open spec fn letter_absent(s: Seq<char>, n: int, letter: char) -> bool {
    forall|i: int| 0 <= i < n && i < s.len() ==> lower_char(#[trigger] s[i]) != letter
}

proof fn lemma_modifier_keeps_absent(sig: Seq<Option<i8>>, s: Seq<char>, n: int, letter: char)
    requires
        n <= s.len(),
        sig.len() == 7,
        letter_absent(s, n, letter),
    ensures
        sig_get(modifier_state(sig, s, n).0, letter) == sig_get(sig, letter),
        modifier_state(sig, s, n).0.len() == 7,
    decreases n,
{
    if n > 0 {
        lemma_modifier_keeps_absent(sig, s, n - 1, letter);
        assert(lower_char(s[n - 1]) != letter);
    }
}

/// A modifier expression changes only the letters it names: any letter
/// that does not occur in `content` keeps its accidental.
pub proof fn law_modifier_keeps_unnamed_letters(content: Seq<char>, current: KeySig, letter: char)
    requires
        letter_absent(content, content.len() as int, letter),
    ensures
        spec_scale_for_name(content) is None ==> sig_get(spec_parse_key_sig(content, current@), letter) == sig_get(current@, letter),
{
    lemma_modifier_keeps_absent(current@, content, content.len() as int, letter);
}

fn to_lower(c: char) -> (r: char)
    ensures
        r == lower_char(c),
{
    if 'A' <= c && c <= 'Z' {
        ((c as u8) + 32u8) as char
    } else {
        c
    }
}

fn parse_key_sig_chars(content: &[char], current: &KeySig) -> (r: KeySig)
    ensures
        r@ == spec_parse_key_sig(content@, current@),
{
    if let Some(scale) = scale_for_chars(content) {
        return scale;
    }
    if content.len() == 0 {
        return *current;
    }
    let first = content[0];
    if first != '+' && first != '-' && first != '=' {
        return *current;
    }
    let mut result = *current;
    let mut modifier: i8 = 0;
    let mut i: usize = 0;
    while i < content.len()
        invariant
            i <= content@.len(),
            (result@, modifier) == modifier_state(current@, content@, i as int),
        decreases content@.len() - i,
    {
        let ch = content[i];
        if ch == '+' {
            modifier = 1;
        } else if ch == '-' {
            modifier = -1;
        } else if ch == '=' {
            modifier = 0;
        } else {
            let lower = to_lower(ch);
            if 'a' <= lower && lower <= 'g' {
                result.set(lower, modifier);
            }
        }
        i += 1;
    }
    result
}

/// Apply the contents of a single `_{...}` block on top of `current`.
pub fn parse_key_sig(content: &str, current: &KeySig) -> (r: KeySig)
    ensures
        r@ == spec_parse_key_sig(content@, current@),
{
    let chars = str_chars(content);
    parse_key_sig_chars(chars.as_slice(), current)
}


/// The contents of every `_{...}` block in `b` from index `i` on, in
/// order; an unterminated block ends the search.
pub open spec fn keysig_blocks_from(b: Seq<u8>, i: int) -> Seq<Seq<u8>>
    decreases b.len() - i,
{
    if i < 0 || i + 1 >= b.len() {
        Seq::empty()
    } else if b[i] == 0x5Fu8 && b[i + 1] == 0x7Bu8 {
        let close = byte_find(b, 0x7Du8, i + 2);
        if close >= b.len() {
            Seq::empty()
        } else {
            proof {
                lemma_byte_find(b, 0x7Du8, i + 2);
            }
            seq![b.subrange(i + 2, close)] + keysig_blocks_from(b, close + 1)
        }
    } else {
        keysig_blocks_from(b, i + 1)
    }
}

/// The UTF-8 bytes of each string.
pub open spec fn strings_bytes(v: Seq<String>) -> Seq<Seq<u8>> {
    v.map_values(|s: String| encode_utf8(s@))
}

/// Extract every `_{...}` block's inner contents from `segment`, in
/// order.
pub fn collect_keysig_blocks(segment: &str) -> (r: Vec<String>)
    ensures
        strings_bytes(r@) == keysig_blocks_from(segment.spec_bytes(), 0),
{
    let bytes = segment.as_bytes();
    let ghost b = segment.spec_bytes();
    proof {
        vstd::utf8::encode_utf8_valid_utf8(segment@);
    }
    let mut out: Vec<String> = Vec::new();
    let mut i: usize = 0;
    let mut stop = false;
    while !stop && i < bytes.len() && i + 1 < bytes.len()
        invariant
            b == bytes@,
            b == segment.spec_bytes(),
            valid_utf8(b),
            i <= b.len(),
            keysig_blocks_from(b, 0) == strings_bytes(out@) + keysig_blocks_from(b, i as int),
            stop ==> keysig_blocks_from(b, i as int) == Seq::<Seq<u8>>::empty(),
        decreases b.len() - i + (if stop { 0int } else { 1int }),
    {
        if bytes[i] == 0x5Fu8 && bytes[i + 1] == 0x7Bu8 {
            let inner_start = i + 2;
            let close = find_byte(bytes, 0x7Du8, inner_start, bytes.len());
            proof {
                lemma_byte_find_suffix(b, 0x7Du8, inner_start as int, 0);
                lemma_byte_find(b, 0x7Du8, inner_start as int);
            }
            if close < bytes.len() {
                proof {
                    lemma_ascii_then_boundary(b, i + 1);
                    if close + 1 < b.len() {
                        lemma_ascii_then_boundary(b, close as int);
                    }
                    if inner_start == b.len() {
                    }
                }
                let content = sub_str(segment, inner_start, close);
                let ghost prev = out@;
                out.push(content.to_owned());
                proof {
                    assert(strings_bytes(out@) =~= strings_bytes(prev).push(b.subrange(inner_start as int, close as int)));
                    assert(keysig_blocks_from(b, i as int) == seq![b.subrange(inner_start as int, close as int)] + keysig_blocks_from(b, close + 1));
                    assert(strings_bytes(prev) + (seq![b.subrange(inner_start as int, close as int)] + keysig_blocks_from(b, close + 1))
                        =~= strings_bytes(out@) + keysig_blocks_from(b, close + 1));
                }
                i = close + 1;
                continue;
            }
            stop = true;
        } else {
            i += 1;
        }
    }
    assert(keysig_blocks_from(b, i as int) == Seq::<Seq<u8>>::empty());
    assert(strings_bytes(out@) + Seq::<Seq<u8>>::empty() =~= strings_bytes(out@));
    out
}


/// A block whose contents name a known scale: a scale-name reset.
pub open spec fn is_reset_block(c: Seq<u8>) -> bool {
    spec_scale_for_name(decode_utf8(c)) is Some
}

/// Index of the last reset block among `blocks[..n]`, or `-1`.
pub open spec fn last_reset(blocks: Seq<Seq<u8>>, n: int) -> int
    decreases n,
{
    if n <= 0 {
        -1
    } else if is_reset_block(blocks[n - 1]) {
        n - 1
    } else {
        last_reset(blocks, n - 1)
    }
}

/// Where the scanned text of line `ln` ends before any comment: the
/// cursor column (1-based `column`, clamped) on the cursor line, the end
/// of the line elsewhere.
pub open spec fn scan_raw_end(b: Seq<u8>, is_cursor_line: bool, column: u32) -> int {
    if is_cursor_line {
        let c = if column == 0 { 0 } else { column - 1 };
        if c < b.len() { c } else { b.len() as int }
    } else {
        b.len() as int
    }
}

/// End of the scanned segment of a line: the first `;` before the raw
/// end, or the raw end.
pub open spec fn segment_end(b: Seq<u8>, raw_end: int) -> int {
    byte_find(b.subrange(0, raw_end), 0x3Bu8, 0)
}

/// The `_{...}` block contents of the scanned segment of line `ln`.
pub open spec fn line_keysig_blocks<R: LineReader>(m: &R, line_number: u32, column: u32, ln: u32) -> Seq<Seq<u8>> {
    let b = line_bytes(m, ln);
    let e = segment_end(b, scan_raw_end(b, ln == line_number, column));
    keysig_blocks_from(b.subrange(0, e), 0)
}

/// The backward scan stops at line `ln`: it holds a scale reset, or a
/// leading track selector.
pub open spec fn keysig_scan_stops<R: LineReader>(m: &R, line_number: u32, column: u32, ln: u32) -> bool {
    let blocks = line_keysig_blocks(m, line_number, column, ln);
    last_reset(blocks, blocks.len() as int) >= 0 || leading_selector(line_bytes(m, ln)) is Some
}

/// The key-signature blocks in effect at line `ln`, oldest first: walking
/// back from `ln`, every block up to and including the most recent scale
/// reset, stopping at a track selector line or line 1.
pub open spec fn keysig_cmds<R: LineReader>(m: &R, line_number: u32, column: u32, ln: u32) -> Seq<Seq<u8>>
    decreases ln,
{
    let blocks = line_keysig_blocks(m, line_number, column, ln);
    let k = last_reset(blocks, blocks.len() as int);
    if k >= 0 {
        blocks.subrange(k, blocks.len() as int)
    } else if leading_selector(line_bytes(m, ln)) is Some || ln <= 1 {
        blocks
    } else {
        keysig_cmds(m, line_number, column, (ln - 1) as u32) + blocks
    }
}

/// The signature after applying the blocks `cmds` in order to the
/// default signature.
pub open spec fn apply_keysig_cmds(cmds: Seq<Seq<u8>>) -> Seq<Option<i8>>
    decreases cmds.len(),
{
    if cmds.len() == 0 {
        uniform_sig(0)
    } else {
        spec_parse_key_sig(decode_utf8(cmds.last()), apply_keysig_cmds(cmds.drop_last()))
    }
}

/// The effective key signature at `(line_number, column)`.
pub open spec fn spec_scan_key_sig<R: LineReader>(m: &R, line_number: u32, column: u32) -> Seq<Option<i8>> {
    apply_keysig_cmds(keysig_cmds(m, line_number, column, line_number))
}

/// Concatenation of the groups of `v`, last group first.
pub open spec fn concat_rev(v: Seq<Seq<Seq<u8>>>) -> Seq<Seq<u8>>
    decreases v.len(),
{
    if v.len() == 0 {
        Seq::empty()
    } else {
        v.last() + concat_rev(v.drop_last())
    }
}

fn is_reset_string(c: &String) -> (r: bool)
    ensures
        r == is_reset_block(encode_utf8(c@)),
{
    proof {
        vstd::utf8::encode_utf8_decode_utf8(c@);
    }
    scale_for_name(c.as_str()).is_some()
}

/// Walk backward from `(line_number, column)` to determine the effective
/// key signature there. Stops at the most recent scale-name reset, at the
/// leading track selector of the current track, or at the start of the
/// file. `column` is 1-based; text at `column - 1` and later on the
/// starting line is ignored, as is anything after a `;`.
pub fn scan_key_sig_at<R: LineReader>(model: &R, line_number: u32, column: u32) -> (r: KeySig)
    requires
        line_number >= 1 || keysig_scan_stops(model, line_number, column, line_number),
        at_boundary(line_bytes(model, line_number), segment_end(line_bytes(model, line_number),
            scan_raw_end(line_bytes(model, line_number), true, column))),
    ensures
        r@ == spec_scan_key_sig(model, line_number, column),
{
    let mut groups: Vec<Vec<String>> = Vec::new();
    let ghost total = keysig_cmds(model, line_number, column, line_number);
    let mut ln = line_number;
    let mut stop = false;
    while !stop
        invariant
            ln <= line_number,
            total == keysig_cmds(model, line_number, column, line_number),
            ln >= 1 || keysig_scan_stops(model, line_number, column, ln),
            ln == line_number ==> at_boundary(line_bytes(model, line_number), segment_end(line_bytes(model, line_number),
                scan_raw_end(line_bytes(model, line_number), true, column))),
            !stop ==> total == keysig_cmds(model, line_number, column, ln) + concat_rev(groups@.map_values(|g: Vec<String>| strings_bytes(g@))),
            stop ==> total == concat_rev(groups@.map_values(|g: Vec<String>| strings_bytes(g@))),
        decreases ln as int * 2 + (if stop { 0int } else { 1int }),
    {
        let ghost gv = groups@.map_values(|g: Vec<String>| strings_bytes(g@));
        let line_text = model.get_line_content(ln);
        let bytes = line_text.as_bytes();
        let ghost b = line_text.spec_bytes();
        let end_raw: usize = if ln == line_number {
            let c: usize = if column == 0 { 0 } else { (column - 1) as usize };
            if c < bytes.len() { c } else { bytes.len() }
        } else {
            bytes.len()
        };
        let end = find_byte(bytes, 0x3Bu8, 0, end_raw);
        proof {
            vstd::utf8::encode_utf8_valid_utf8(line_text@);
            lemma_byte_find(b.subrange(0, end_raw as int), 0x3Bu8, 0);
            if end < end_raw {
                assert(b[end as int] == b.subrange(0, end_raw as int)[end as int]);
                if end + 1 < b.len() {
                    lemma_ascii_then_boundary(b, end as int);
                }
            } else if ln != line_number {
            }
        }
        let segment = sub_str(line_text, 0, end);
        let blocks = collect_keysig_blocks(segment);
        let ghost bv = strings_bytes(blocks@);
        assert(bv == line_keysig_blocks(model, line_number, column, ln));
        // Search for the most recent scale reset on this line.
        let mut k = blocks.len();
        let mut found = false;
        while k > 0 && !found
            invariant
                k <= blocks@.len(),
                bv == strings_bytes(blocks@),
                found ==> k < blocks@.len() && last_reset(bv, bv.len() as int) == k as int,
                !found ==> last_reset(bv, bv.len() as int) == last_reset(bv, k as int),
            decreases k as int * 2 + (if found { 0int } else { 1int }),
        {
            if is_reset_string(&blocks[k - 1]) {
                found = true;
                k = k - 1;
            } else {
                k = k - 1;
            }
        }
        if found {
            let mut selected: Vec<String> = Vec::new();
            let mut j = k;
            while j < blocks.len()
                invariant
                    k <= j <= blocks@.len(),
                    bv == strings_bytes(blocks@),
                    strings_bytes(selected@) == bv.subrange(k as int, j as int),
                decreases blocks@.len() - j,
            {
                let ghost prev = selected@;
                selected.push(blocks[j].clone());
                proof {
                    assert(strings_bytes(selected@) =~= strings_bytes(prev).push(bv[j as int]));
                    assert(bv.subrange(k as int, j + 1) =~= bv.subrange(k as int, j as int).push(bv[j as int]));
                }
                j += 1;
            }
            let ghost sv = strings_bytes(selected@);
            groups.push(selected);
            proof {
                let gv2 = groups@.map_values(|g: Vec<String>| strings_bytes(g@));
                assert(gv2 =~= gv.push(sv));
                assert(gv2.drop_last() =~= gv);
                assert(concat_rev(gv2) == sv + concat_rev(gv));
            }
            stop = true;
        } else {
            let is_track = parse_leading_track_selector(line_text).is_some();
            groups.push(blocks);
            proof {
                assert(last_reset(bv, bv.len() as int) == -1);
                let gv2 = groups@.map_values(|g: Vec<String>| strings_bytes(g@));
                assert(gv2 =~= gv.push(bv));
                assert(gv2.drop_last() =~= gv);
                assert(concat_rev(gv2) == bv + concat_rev(gv));
            }
            if is_track || ln == 1 {
                stop = true;
            } else {
                proof {
                    let gv2 = groups@.map_values(|g: Vec<String>| strings_bytes(g@));
                    assert(keysig_cmds(model, line_number, column, ln) == keysig_cmds(model, line_number, column, (ln - 1) as u32) + bv);
                    assert(keysig_cmds(model, line_number, column, ln) + concat_rev(gv) =~=
                        keysig_cmds(model, line_number, column, (ln - 1) as u32) + concat_rev(gv2));
                }
                ln -= 1;
            }
        }
    }
    // Apply the collected blocks oldest first.
    let ghost gv = groups@.map_values(|g: Vec<String>| strings_bytes(g@));
    let ghost mut applied: Seq<Seq<u8>> = Seq::empty();
    let mut key_sig = default_key_sig();
    let mut g = groups.len();
    proof {
        assert(gv.subrange(0, g as int) =~= gv);
        assert(applied + concat_rev(gv) =~= concat_rev(gv));
    }
    while g > 0
        invariant
            g <= groups@.len(),
            gv == groups@.map_values(|g: Vec<String>| strings_bytes(g@)),
            total == concat_rev(gv),
            applied + concat_rev(gv.subrange(0, g as int)) == concat_rev(gv),
            key_sig@ == apply_keysig_cmds(applied),
        decreases g,
    {
        g -= 1;
        let group = &groups[g];
        proof {
            let sub = gv.subrange(0, g + 1);
            assert(sub.last() == gv[g as int]);
            assert(sub.drop_last() =~= gv.subrange(0, g as int));
            assert(gv[g as int] == strings_bytes(group@));
        }
        let mut j: usize = 0;
        let ghost before = applied;
        while j < group.len()
            invariant
                j <= group@.len(),
                applied == before + strings_bytes(group@).subrange(0, j as int),
                key_sig@ == apply_keysig_cmds(applied),
            decreases group@.len() - j,
        {
            key_sig = parse_key_sig(group[j].as_str(), &key_sig);
            proof {
                vstd::utf8::encode_utf8_decode_utf8(group@[j as int]@);
                let next = applied.push(strings_bytes(group@)[j as int]);
                assert(next.drop_last() =~= applied);
                assert(next[next.len() - 1] == encode_utf8(group@[j as int]@));
                assert(strings_bytes(group@).subrange(0, j + 1) =~= strings_bytes(group@).subrange(0, j as int).push(strings_bytes(group@)[j as int]));
                applied = next;
            }
            j += 1;
        }
        proof {
            assert(strings_bytes(group@).subrange(0, group@.len() as int) =~= strings_bytes(group@));
            assert(applied + concat_rev(gv.subrange(0, g as int)) =~= before + (gv[g as int] + concat_rev(gv.subrange(0, g as int))));
        }
    }
    proof {
        assert(gv.subrange(0, 0) =~= Seq::<Seq<Seq<u8>>>::empty());
        assert(applied + Seq::<Seq<u8>>::empty() =~= applied);
    }
    key_sig
}

} // verus!
