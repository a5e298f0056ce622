use ctrmml_lang_core::string_model::LinesModel;
use ctrmml_lang_core::track_selector::{
    find_enclosing_track_selector, find_enclosing_track_selector_at, parse_leading_track_selector,
};

#[test]
fn rejects_empty_and_whitespace() {
    assert!(parse_leading_track_selector("").is_none());
    assert!(parse_leading_track_selector(" A").is_none());
    assert!(parse_leading_track_selector("\tA").is_none());
}

#[test]
fn rejects_lines_starting_with_special_chars() {
    assert!(parse_leading_track_selector(";comment").is_none());
    assert!(parse_leading_track_selector("#title foo").is_none());
    assert!(parse_leading_track_selector("@0 ...").is_none());
}

#[test]
fn single_uppercase_letter() {
    let sel = parse_leading_track_selector("A cdefg").unwrap();
    assert_eq!(sel.spans.len(), 1);
    assert_eq!(sel.spans[0].track_id, 0);
    assert_eq!(sel.spans[0].start, 0);
    assert_eq!(sel.spans[0].end, 1);
    assert_eq!(sel.end, 1);
}

#[test]
fn z_maps_to_25() {
    let sel = parse_leading_track_selector("Z ").unwrap();
    assert_eq!(sel.spans[0].track_id, 25);
}

#[test]
fn digit_maps_to_26_plus() {
    let sel = parse_leading_track_selector("0 ").unwrap();
    assert_eq!(sel.spans[0].track_id, 26);
    let sel = parse_leading_track_selector("9 ").unwrap();
    assert_eq!(sel.spans[0].track_id, 35);
}

#[test]
fn star_number_explicit_track() {
    let sel = parse_leading_track_selector("*42 cdefg").unwrap();
    assert_eq!(sel.spans.len(), 1);
    assert_eq!(sel.spans[0].track_id, 42);
    assert_eq!(sel.spans[0].start, 0);
    assert_eq!(sel.spans[0].end, 3);
    assert_eq!(sel.end, 3);
}

#[test]
fn bare_star_without_digits_rejected() {
    assert!(parse_leading_track_selector("* cdefg").is_none());
}

#[test]
fn multiple_spans_packed() {
    let sel = parse_leading_track_selector("ABCD cdefg").unwrap();
    assert_eq!(sel.spans.len(), 4);
    assert_eq!(
        sel.spans.iter().map(|s| s.track_id).collect::<Vec<_>>(),
        vec![0, 1, 2, 3]
    );
    assert_eq!(sel.end, 4);
}

#[test]
fn mixed_letters_digits_stars() {
    let sel = parse_leading_track_selector("A0*5 cdefg").unwrap();
    let ids: Vec<u32> = sel.spans.iter().map(|s| s.track_id).collect();
    assert_eq!(ids, vec![0, 26, 5]);
    assert_eq!(sel.end, 4);
}

#[test]
fn lowercase_letter_rejected() {
    assert!(parse_leading_track_selector("a cdefg").is_none());
}

#[test]
fn star_followed_by_non_digit_rejected() {
    assert!(parse_leading_track_selector("*A").is_none());
}

#[test]
fn end_of_line_terminates() {
    let sel = parse_leading_track_selector("AB").unwrap();
    assert_eq!(sel.spans.len(), 2);
    assert_eq!(sel.end, 2);
}

#[test]
fn finds_selector_on_same_line() {
    let model = LinesModel(vec!["A cdefg".into()]);
    let sel = find_enclosing_track_selector(&model, 1).unwrap();
    assert_eq!(sel.spans[0].track_id, 0);
}

#[test]
fn walks_back_past_non_track_lines() {
    let model = LinesModel(vec![
        "#title \"Song\"".into(),
        "A cdefg".into(),
        "  more notes".into(),
        "  c d e f".into(),
    ]);
    let (sel, ln) = find_enclosing_track_selector_at(&model, 4).unwrap();
    assert_eq!(sel.spans[0].track_id, 0);
    assert_eq!(ln, 2);
}

#[test]
fn returns_none_when_no_selector_exists() {
    let model = LinesModel(vec![
        "#title \"x\"".into(),
        ";comment".into(),
        "@0 fm".into(),
    ]);
    assert!(find_enclosing_track_selector(&model, 3).is_none());
}
