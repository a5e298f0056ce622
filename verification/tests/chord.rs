use ctrmml_lang_core::chord::{
    accidental_char, chords_3, chords_4, render_chord, render_generic_chord,
    render_generic_diatonic_dyad, render_stacked_chord, render_stacked_generic_chord,
    render_stacked_generic_diatonic_dyad, stacked_generic_fits, ChordDef, ChordSize, RootAccidental,
};
use ctrmml_lang_core::key_sig::KeySig;

fn by_name(suffix: &str) -> ChordDef {
    chords_3()
        .into_iter()
        .chain(chords_4())
        .find(|d| d.suffix == suffix)
        .unwrap_or_else(|| panic!("no chord def for {:?}", suffix))
}

fn ks() -> KeySig {
    KeySig::new()
}

#[test]
fn generic_c_triad() {
    assert_eq!(
        render_generic_chord('c', None, ChordSize::Triad).as_deref(),
        Some("c/e/g")
    );
}

#[test]
fn generic_f_triad_uses_plain_letters() {
    assert_eq!(
        render_generic_chord('f', None, ChordSize::Triad).as_deref(),
        Some("f/a/c")
    );
}

#[test]
fn generic_preserves_root_accidental() {
    assert_eq!(
        render_generic_chord('c', Some(RootAccidental::Sharp), ChordSize::Triad).as_deref(),
        Some("c+/e/g")
    );
}

#[test]
fn dyad_c_p5_is_c_over_g() {
    assert_eq!(
        render_generic_diatonic_dyad('c', None, 4).as_deref(),
        Some("c/g")
    );
}

#[test]
fn dyad_b_p5_wraps_to_b_over_f() {
    assert_eq!(
        render_generic_diatonic_dyad('b', None, 4).as_deref(),
        Some("b/f")
    );
}

#[test]
fn dyad_c_2nd_is_c_over_d() {
    assert_eq!(
        render_generic_diatonic_dyad('c', None, 1).as_deref(),
        Some("c/d")
    );
}

#[test]
fn dyad_preserves_root_accidental() {
    assert_eq!(
        render_generic_diatonic_dyad('c', Some(RootAccidental::Sharp), 4).as_deref(),
        Some("c+/g")
    );
}

#[test]
fn dyad_rejects_out_of_range_step() {
    assert!(render_generic_diatonic_dyad('c', None, 0).is_none());
    assert!(render_generic_diatonic_dyad('c', None, 7).is_none());
}

#[test]
fn stacked_dyad_c_p5_at_o4_is_c_over_g() {
    assert_eq!(
        render_stacked_generic_diatonic_dyad('c', None, 4, &ks(), &[4, 4], false).as_deref(),
        Some("c/g")
    );
}

#[test]
fn stacked_dyad_b_p5_at_o4_lifts_upper() {
    assert_eq!(
        render_stacked_generic_diatonic_dyad('b', None, 4, &ks(), &[4, 4], false).as_deref(),
        Some("b/>f")
    );
}

#[test]
fn stacked_dyad_compensates_per_branch() {
    let s = render_stacked_generic_diatonic_dyad('b', None, 4, &ks(), &[4, 4], true).unwrap();
    assert_eq!(s, "b/>f<");
}

#[test]
fn named_c_major() {
    assert_eq!(
        render_chord('c', None, &by_name(""), &ks()).as_deref(),
        Some("c/e/g")
    );
}

#[test]
fn named_c_minor() {
    assert_eq!(
        render_chord('c', None, &by_name("m"), &ks()).as_deref(),
        Some("c/e-/g")
    );
}

#[test]
fn named_c_dim() {
    assert_eq!(
        render_chord('c', None, &by_name("dim"), &ks()).as_deref(),
        Some("c/e-/g-")
    );
}

#[test]
fn named_omits_accidental_when_keysig_provides_it() {
    let key = KeySig::new().with('e', -1);
    assert_eq!(
        render_chord('c', None, &by_name("m"), &key).as_deref(),
        Some("c/e/g")
    );
}

#[test]
fn named_c_sus2() {
    assert_eq!(
        render_chord('c', None, &by_name("sus2"), &ks()).as_deref(),
        Some("c/d/g")
    );
}

#[test]
fn named_c_4th_triad() {
    assert_eq!(
        render_chord('c', None, &by_name("4th"), &ks()).as_deref(),
        Some("c/f/b-")
    );
}

#[test]
fn named_c_dim7() {
    assert_eq!(
        render_chord('c', None, &by_name("dim7"), &ks()).as_deref(),
        Some("c/e-/g-/a")
    );
}

#[test]
fn named_c_add9() {
    let def = chords_4().into_iter().find(|d| d.suffix == "add9").unwrap();
    assert_eq!(
        render_chord('c', None, &def, &ks()).as_deref(),
        Some("c/e/g/d")
    );
}

#[test]
fn named_c_4th_seventh() {
    let def = chords_4().into_iter().find(|d| d.suffix == "4th").unwrap();
    assert_eq!(
        render_chord('c', None, &def, &ks()).as_deref(),
        Some("c/f/b-/e-")
    );
}

#[test]
fn stacked_c_major_o4() {
    let major = &chords_3()[0];
    assert_eq!(
        render_stacked_chord('c', None, major, &ks(), &[4, 4, 4], false).as_deref(),
        Some("c/e/g")
    );
}

#[test]
fn stacked_f_major_lifts_third_tone() {
    let major = &chords_3()[0];
    assert_eq!(
        render_stacked_chord('f', None, major, &ks(), &[4, 4, 4], false).as_deref(),
        Some("f/a/>c")
    );
}

#[test]
fn stacked_f_m7_lifts_both_upper_tones() {
    let m7 = &chords_4()[0];
    assert_eq!(
        render_stacked_chord('f', None, m7, &ks(), &[4, 4, 4, 4], false).as_deref(),
        Some("f/a/>c/>e")
    );
}

#[test]
fn stacked_f_major_compensates() {
    let major = &chords_3()[0];
    assert_eq!(
        render_stacked_chord('f', None, major, &ks(), &[4, 4, 4], true).as_deref(),
        Some("f/a/>c<")
    );
}

#[test]
fn stacked_compensation_is_noop_when_no_branch_changed() {
    let major = &chords_3()[0];
    assert_eq!(
        render_stacked_chord('c', None, major, &ks(), &[4, 4, 4], true).as_deref(),
        Some("c/e/g")
    );
}

#[test]
fn stacked_generic_c_diatonic_triad() {
    assert_eq!(
        render_stacked_generic_chord('c', None, ChordSize::Triad, &ks(), &[4, 4, 4], false)
            .as_deref(),
        Some("c/e/g")
    );
}

#[test]
fn stacked_generic_f_wraps_c_above() {
    assert_eq!(
        render_stacked_generic_chord('f', None, ChordSize::Triad, &ks(), &[4, 4, 4], false)
            .as_deref(),
        Some("f/a/>c")
    );
}

#[test]
fn stacked_generic_g_when_ch3_at_o5() {
    assert_eq!(
        render_stacked_generic_chord('g', None, ChordSize::Triad, &ks(), &[4, 4, 5], false)
            .as_deref(),
        Some("g/b/d")
    );
}

#[test]
fn stacked_generic_c_pulls_elevated_channels_down() {
    assert_eq!(
        render_stacked_generic_chord('c', None, ChordSize::Triad, &ks(), &[4, 5, 5], false)
            .as_deref(),
        Some("c/<e/<g")
    );
}

#[test]
fn stacked_generic_compensates_g() {
    assert_eq!(
        render_stacked_generic_chord('g', None, ChordSize::Triad, &ks(), &[4, 4, 4], true)
            .as_deref(),
        Some("g/b/>d<")
    );
}

#[test]
fn chord_stacked_generic_full_chain() {
    let mut ch = [4_i32, 4, 4];
    let roots = ['c', 'd', 'e', 'f', 'g', 'a', 'b', 'c'];
    let mut got: Vec<String> = Vec::with_capacity(roots.len());
    for &root in &roots {
        let s = render_stacked_generic_chord(
            root,
            None,
            ChordSize::Triad,
            &ks(),
            &ch,
            false,
        )
        .unwrap();
        for (k, branch) in s.split('/').enumerate() {
            let mut shift = 0_i32;
            for c in branch.chars() {
                match c {
                    '>' => shift += 1,
                    '<' => shift -= 1,
                    _ => break,
                }
            }
            ch[k] += shift;
        }
        got.push(s);
    }
    assert_eq!(
        got,
        vec![
            "c/e/g",
            "d/f/a",
            "e/g/b",
            "f/a/>c",
            "g/b/d",
            "a/>c/e",
            "b/d/f",
            "c/<e/<g",
        ]
    );
}

#[test]
fn accidental_char_glyphs() {
    assert_eq!(accidental_char(Some(RootAccidental::Sharp)), "+");
    assert_eq!(accidental_char(Some(RootAccidental::Flat)), "-");
    assert_eq!(accidental_char(Some(RootAccidental::Natural)), "=");
    assert_eq!(accidental_char(None), "");
}

#[test]
fn stacking_works_up_to_the_i32_limit() {
    let high = [100_000_000, 100_000_000, 100_000_000];
    assert!(stacked_generic_fits('c', None, ChordSize::Triad, &ks(), &high, false));
    assert_eq!(
        render_stacked_generic_chord('c', None, ChordSize::Triad, &ks(), &high, false).as_deref(),
        Some("c/e/g")
    );
    let too_high = [180_000_000, 180_000_000, 180_000_000];
    assert!(!stacked_generic_fits('c', None, ChordSize::Triad, &ks(), &too_high, false));
}
