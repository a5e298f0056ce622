use ctrmml_lang_core::key_sig::{
    collect_keysig_blocks, default_key_sig, parse_key_sig, scale_for_name, scan_key_sig_at,
};
use ctrmml_lang_core::string_model::LinesModel;

#[test]
fn c_major_has_no_accidentals() {
    let sig = scale_for_name("C").unwrap();
    for letter in ['c', 'd', 'e', 'f', 'g', 'a', 'b'] {
        assert_eq!(sig.get(letter), Some(0), "letter {letter}");
    }
}

#[test]
fn g_major_sharpens_f() {
    let sig = scale_for_name("G").unwrap();
    assert_eq!(sig.get_or_zero('f'), 1);
    assert_eq!(sig.get_or_zero('c'), 0);
}

#[test]
fn f_major_flats_b() {
    let sig = scale_for_name("F").unwrap();
    assert_eq!(sig.get_or_zero('b'), -1);
    assert_eq!(sig.get_or_zero('f'), 0);
}

#[test]
fn b_flat_major_flats_b_and_e() {
    let sig = scale_for_name("B-").unwrap();
    assert_eq!(sig.get_or_zero('b'), -1);
    assert_eq!(sig.get_or_zero('e'), -1);
    assert_eq!(sig.get_or_zero('a'), 0);
}

#[test]
fn relative_minor_matches_major() {
    let major = scale_for_name("C").unwrap();
    let minor = scale_for_name("a").unwrap();
    assert_eq!(major, minor);
    assert_eq!(scale_for_name("e").unwrap(), scale_for_name("G").unwrap());
    assert_eq!(scale_for_name("d").unwrap(), scale_for_name("F").unwrap());
}

#[test]
fn all_seven_sharps() {
    let sig = scale_for_name("C+").unwrap();
    for letter in ['f', 'c', 'g', 'd', 'a', 'e', 'b'] {
        assert_eq!(sig.get_or_zero(letter), 1, "letter {letter}");
    }
}

#[test]
fn all_seven_flats() {
    let sig = scale_for_name("C-").unwrap();
    for letter in ['b', 'e', 'a', 'd', 'g', 'c', 'f'] {
        assert_eq!(sig.get_or_zero(letter), -1, "letter {letter}");
    }
}

#[test]
fn unknown_scale_name_returns_none() {
    assert!(scale_for_name("xyz").is_none());
    assert!(scale_for_name("").is_none());
}

#[test]
fn parse_scale_name_resets_signature() {
    let prior = scale_for_name("C+").unwrap();
    let after = parse_key_sig("C", &prior);
    for letter in ['c', 'd', 'e', 'f', 'g', 'a', 'b'] {
        assert_eq!(after.get_or_zero(letter), 0);
    }
}

#[test]
fn parse_plus_sharpens_listed_letters() {
    let after = parse_key_sig("+cfg", &default_key_sig());
    assert_eq!(after.get_or_zero('c'), 1);
    assert_eq!(after.get_or_zero('f'), 1);
    assert_eq!(after.get_or_zero('g'), 1);
    assert_eq!(after.get_or_zero('d'), 0);
}

#[test]
fn parse_minus_flats_listed_letters() {
    let after = parse_key_sig("-b", &default_key_sig());
    assert_eq!(after.get_or_zero('b'), -1);
}

#[test]
fn parse_equals_naturalises() {
    let prior = scale_for_name("G").unwrap();
    let after = parse_key_sig("=f", &prior);
    assert_eq!(after.get_or_zero('f'), 0);
}

#[test]
fn parse_modifier_stacks_on_current() {
    let prior = scale_for_name("G").unwrap();
    let after = parse_key_sig("-b", &prior);
    assert_eq!(after.get_or_zero('f'), 1);
    assert_eq!(after.get_or_zero('b'), -1);
}

#[test]
fn parse_modifier_switches_within_string() {
    let after = parse_key_sig("+c-b", &default_key_sig());
    assert_eq!(after.get_or_zero('c'), 1);
    assert_eq!(after.get_or_zero('b'), -1);
}

#[test]
fn parse_empty_returns_current_clone() {
    let prior = scale_for_name("G").unwrap();
    let after = parse_key_sig("", &prior);
    assert_eq!(after, prior);
}

#[test]
fn parse_invalid_no_leading_modifier_returns_current() {
    let prior = scale_for_name("G").unwrap();
    let after = parse_key_sig("xyz", &prior);
    assert_eq!(after, prior);
}

#[test]
fn parse_modifier_ignores_non_natural_letters() {
    let after = parse_key_sig("+ch", &default_key_sig());
    assert_eq!(after.get_or_zero('c'), 1);
}

#[test]
fn scan_finds_keysig_on_current_line_before_cursor() {
    let model = LinesModel(vec!["A _{+c} cdefg".into()]);
    let sig = scan_key_sig_at(&model, 1, 12);
    assert_eq!(sig.get_or_zero('c'), 1);
}

#[test]
fn scan_ignores_keysig_after_cursor() {
    let model = LinesModel(vec!["A _{+c} cdefg".into()]);
    let sig = scan_key_sig_at(&model, 1, 3);
    assert_eq!(sig.get_or_zero('c'), 0);
}

#[test]
fn scan_scale_name_blocks_earlier_modifiers() {
    let model = LinesModel(vec![
        "A _{+c} cdefg".into(),
        "  _{F} cdefg".into(),
    ]);
    let sig = scan_key_sig_at(&model, 2, 20);
    assert_eq!(sig.get_or_zero('c'), 0);
    assert_eq!(sig.get_or_zero('b'), -1);
}

#[test]
fn scan_modifiers_stack_across_lines() {
    let model = LinesModel(vec![
        "A _{+c} cdefg".into(),
        "  _{-b} cdefg".into(),
    ]);
    let sig = scan_key_sig_at(&model, 2, 20);
    assert_eq!(sig.get_or_zero('c'), 1);
    assert_eq!(sig.get_or_zero('b'), -1);
}

#[test]
fn scan_stops_at_track_boundary() {
    let model = LinesModel(vec![
        "A _{+c} cdefg".into(),
        "B cdefg".into(),
    ]);
    let sig = scan_key_sig_at(&model, 2, 8);
    assert_eq!(sig.get_or_zero('c'), 0);
}

#[test]
fn scan_ignores_keysig_in_comment() {
    let model = LinesModel(vec!["A cdefg ; _{+c}".into()]);
    let sig = scan_key_sig_at(&model, 1, 16);
    assert_eq!(sig.get_or_zero('c'), 0);
}

#[test]
fn scan_picks_latest_block_on_a_line() {
    let model = LinesModel(vec!["A _{+c} cd _{-b} ef".into()]);
    let sig = scan_key_sig_at(&model, 1, 20);
    assert_eq!(sig.get_or_zero('c'), 1);
    assert_eq!(sig.get_or_zero('b'), -1);
}

#[test]
fn scan_default_when_no_blocks() {
    let model = LinesModel(vec!["A cdefg".into()]);
    let sig = scan_key_sig_at(&model, 1, 8);
    for letter in ['c', 'd', 'e', 'f', 'g', 'a', 'b'] {
        assert_eq!(sig.get_or_zero(letter), 0);
    }
}

#[test]
fn collect_finds_multiple_blocks() {
    assert_eq!(
        collect_keysig_blocks("A _{+c} cd _{-b} ef"),
        vec!["+c".to_string(), "-b".to_string()]
    );
}

#[test]
fn collect_handles_unterminated_block() {
    assert!(collect_keysig_blocks("_{+c no close").is_empty());
}

#[test]
fn collect_empty_content_block() {
    assert_eq!(collect_keysig_blocks("_{}"), vec![String::new()]);
}

#[test]
fn scan_walks_past_a_block_that_names_no_scale() {
    let model = LinesModel::new(&["A _{+c} _{xyz} c"]);
    let sig = scan_key_sig_at(&model, 1, 17);
    assert_eq!(sig.get_or_zero('c'), 1);
    let model = LinesModel::new(&["A _{+c} _{G} c"]);
    let sig = scan_key_sig_at(&model, 1, 15);
    assert_eq!(sig.get_or_zero('c'), 0);
    assert_eq!(sig.get_or_zero('f'), 1);
}
