use ctrmml_lang_core::beat_fill::{
    generate_measure_rests, is_after_bar_line, measure_remainder_ticks, ticks_to_mml_rest,
};
use ctrmml_lang_core::timesig::{default_time_signature, TimeSignature};

const PPQN: u32 = 48;

#[test]
fn zero_ticks_empty_string() {
    assert_eq!(ticks_to_mml_rest(0, PPQN), "");
}

#[test]
fn whole_note_decomposes_to_r1() {
    assert_eq!(ticks_to_mml_rest(192, PPQN), "r1");
}

#[test]
fn quarter_note_decomposes_to_r4() {
    assert_eq!(ticks_to_mml_rest(PPQN, PPQN), "r4");
}

#[test]
fn dotted_quarter_decomposes_to_r4_dot() {
    assert_eq!(ticks_to_mml_rest(72, PPQN), "r4.");
}

#[test]
fn three_quarters_decomposes_to_dotted() {
    assert_eq!(ticks_to_mml_rest(144, PPQN), "r2.");
}

#[test]
fn non_standard_remainder_uses_colon_form() {
    assert_eq!(ticks_to_mml_rest(2, PPQN), "r:2");
}

#[test]
fn combines_standard_and_smaller_durations() {
    assert_eq!(ticks_to_mml_rest(PPQN + 3, PPQN), "r4r64");
}

#[test]
fn combines_standard_with_non_standard_remainder() {
    assert_eq!(ticks_to_mml_rest(PPQN + 2, PPQN), "r4r:2");
}

#[test]
fn remainder_zero_on_bar_boundary() {
    assert_eq!(
        measure_remainder_ticks(0, PPQN, default_time_signature()),
        0
    );
    let tpm = PPQN * 4;
    assert_eq!(
        measure_remainder_ticks(tpm, PPQN, default_time_signature()),
        0
    );
}

#[test]
fn remainder_partway_into_measure() {
    assert_eq!(
        measure_remainder_ticks(PPQN, PPQN, default_time_signature()),
        PPQN * 3
    );
}

#[test]
fn remainder_uses_compound_meter_correctly() {
    let ts = TimeSignature {
        numerator: 3,
        denominator: 8,
    };
    assert_eq!(measure_remainder_ticks(0, 48, ts), 0);
    assert_eq!(measure_remainder_ticks(36, 48, ts), 36);
    assert_eq!(measure_remainder_ticks(72, 48, ts), 0);
}

#[test]
fn fills_partial_measure() {
    assert_eq!(generate_measure_rests(PPQN, PPQN, None, false), "r2.");
}

#[test]
fn empty_on_bar_boundary_without_after_flag() {
    assert_eq!(generate_measure_rests(0, PPQN, None, false), "");
}

#[test]
fn fills_full_measure_on_boundary_with_after_flag() {
    assert_eq!(generate_measure_rests(0, PPQN, None, true), "r1");
}

#[test]
fn fills_full_measure_compound_meter() {
    let ts = TimeSignature {
        numerator: 3,
        denominator: 8,
    };
    assert_eq!(generate_measure_rests(0, 48, Some(ts), true), "r4.");
}

#[test]
fn detects_bar_line_at_end() {
    assert!(is_after_bar_line("abc |", 6));
}

#[test]
fn detects_bar_line_through_trailing_whitespace() {
    assert!(is_after_bar_line("abc |  ", 8));
}

#[test]
fn rejects_when_no_bar_line() {
    assert!(!is_after_bar_line("abc def", 8));
}

#[test]
fn ignores_text_after_cursor() {
    assert!(!is_after_bar_line("abc |", 4));
}

#[test]
fn column_past_end_treated_as_end() {
    assert!(is_after_bar_line("abc |", 99));
}

#[test]
fn zero_ticks_give_no_rest_for_any_ppqn() {
    assert_eq!(ticks_to_mml_rest(0, u32::MAX), "");
    assert_eq!(ticks_to_mml_rest(0, 48), "");
    assert_eq!(ticks_to_mml_rest(144, 48), "r2.");
}
