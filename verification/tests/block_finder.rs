use ctrmml_lang_core::block_finder::{block_scan_safe, find_fm_block_at, find_psg_block_at, match_bare_at_n, match_header, InstrumentKind};
use ctrmml_lang_core::string_model::LinesModel;

#[test]
fn matches_inline_fm_header() {
    assert_eq!(match_header("@5 fm", InstrumentKind::Fm), Some(5));
}

#[test]
fn matches_fm_with_trailing_data() {
    assert_eq!(match_header("@5 fm 1 1 1 1", InstrumentKind::Fm), Some(5));
}

#[test]
fn rejects_wrong_kind() {
    assert!(match_header("@5 psg", InstrumentKind::Fm).is_none());
}

#[test]
fn rejects_word_boundary_violation() {
    assert!(match_header("@5 fmt", InstrumentKind::Fm).is_none());
}

#[test]
fn case_insensitive() {
    assert_eq!(match_header("@7 FM", InstrumentKind::Fm), Some(7));
    assert_eq!(match_header("@7 Psg", InstrumentKind::Psg), Some(7));
}

#[test]
fn rejects_missing_whitespace() {
    assert!(match_header("@5fm", InstrumentKind::Fm).is_none());
}

#[test]
fn bare_at_n_matches_with_trailing_comment() {
    assert_eq!(match_bare_at_n("@12 ; lead patch"), Some(12));
}

#[test]
fn bare_at_n_matches_just_digits() {
    assert_eq!(match_bare_at_n("@3"), Some(3));
}

#[test]
fn bare_at_n_rejects_with_keyword() {
    assert!(match_bare_at_n("@3 fm").is_none());
}

#[test]
fn finds_simple_fm_block() {
    let model = LinesModel::new(&[
        "@1 fm",
        "\t31,0,12,7,0,28,0,0,5,0",
        "\t31,0,2,6,0,0,0,0,2,0",
        "",
        "A o4 cdefg",
    ]);
    let block = find_fm_block_at(&model, 2).unwrap();
    assert_eq!(block.start_line, 1);
    assert_eq!(block.instrument_number, 1);
    assert_eq!(block.end_line, 3);
}

#[test]
fn finds_block_from_header_line() {
    let model = LinesModel::new(&["@1 fm", "\t31,0,12,7,0,28,0,0,5,0"]);
    let block = find_fm_block_at(&model, 1).unwrap();
    assert_eq!(block.start_line, 1);
    assert_eq!(block.end_line, 2);
}

#[test]
fn multi_line_header_form() {
    let model = LinesModel::new(&[
        "@2",
        "; some comment",
        "fm",
        "\t31,0,12,7,0,28,0,0,5,0",
        "",
        "A c",
    ]);
    let block = find_fm_block_at(&model, 4).unwrap();
    assert_eq!(block.start_line, 1);
    assert_eq!(block.instrument_number, 2);
}

#[test]
fn stops_at_other_instrument_kind() {
    let model = LinesModel::new(&[
        "@9 psg",
        "\t15>10:5",
        "\t31,0,12,7,0,28,0,0,5,0",
    ]);
    assert!(find_fm_block_at(&model, 3).is_none());
}

#[test]
fn stops_at_track_selector() {
    let model = LinesModel::new(&["A o4 cdefg", "\t31,0,12,7,0,28,0,0,5,0"]);
    assert!(find_fm_block_at(&model, 2).is_none());
}

#[test]
fn returns_none_when_cursor_past_block_end() {
    let model = LinesModel::new(&[
        "@1 fm",
        "\t31,0,12,7,0,28,0,0,5,0",
        "",
        "",
        "; well past the block",
    ]);
    assert!(find_fm_block_at(&model, 5).is_none());
}

#[test]
fn trims_trailing_blank_and_comment_lines_from_end() {
    let model = LinesModel::new(&[
        "@1 fm",
        "\t31,0,12,7,0,28,0,0,5,0",
        "; trailing comment",
        "; another comment",
    ]);
    let block = find_fm_block_at(&model, 2).unwrap();
    assert_eq!(block.end_line, 2);
}

#[test]
fn finds_psg_block() {
    let model = LinesModel::new(&["@3 psg", "\t15>0:5", "", "A c"]);
    let block = find_psg_block_at(&model, 2).unwrap();
    assert_eq!(block.start_line, 1);
    assert_eq!(block.instrument_number, 3);
    assert_eq!(block.end_line, 2);
}

#[test]
fn two_consecutive_blanks_end_block() {
    let model = LinesModel::new(&[
        "@1 fm",
        "\t31,0,12,7,0,28,0,0,5,0",
        "",
        "",
        "\t5,5,5,5",
    ]);
    let block = find_fm_block_at(&model, 2).unwrap();
    assert_eq!(block.end_line, 2);
}

#[test]
fn every_line_of_a_block_finds_the_same_block() {
    let model = LinesModel::new(&[
        "A o4 c",
        "@2 fm",
        "\t31,0,12,7,0,28,0,0,5,0",
        "; operator 2",
        "\t31,0,2,6,0,0,0,0,2,0",
        "",
        "",
        "A o4 cdefg",
    ]);
    let block = find_fm_block_at(&model, 3).unwrap();
    assert_eq!((block.start_line, block.end_line, block.instrument_number), (2, 5, 2));
    for line in block.start_line..=block.end_line {
        assert_eq!(find_fm_block_at(&model, line), Some(block));
    }
    assert_eq!(find_fm_block_at(&model, 1), None);
    assert_eq!(find_fm_block_at(&model, 8), None);
}

#[test]
fn block_scans_near_the_top_of_the_line_range_are_safe_without_bare_headers() {
    let model = LinesModel::new(&["A o4 c", "@1 fm", "@2"]);
    assert!(block_scan_safe(&model, 3, InstrumentKind::Fm));
    assert!(block_scan_safe(&model, 2, InstrumentKind::Psg));
    assert!(block_scan_safe(&model, 1, InstrumentKind::Fm));
}
