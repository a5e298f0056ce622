use ctrmml_lang_core::string_model::LinesModel;
use ctrmml_lang_core::track_selector::LineReader;

#[test]
fn from_text_splits_on_lf() {
    let m = LinesModel::from_text("a\nb\nc");
    assert_eq!(m.get_line_count(), 3);
    assert_eq!(m.get_line_content(2), "b");
}

#[test]
fn from_text_strips_cr() {
    let m = LinesModel::from_text("a\r\nb\r\nc");
    assert_eq!(m.get_line_content(1), "a");
    assert_eq!(m.get_line_content(2), "b");
}

#[test]
fn out_of_range_line_returns_empty() {
    let m = LinesModel::new(&["a", "b"]);
    assert_eq!(m.get_line_content(99), "");
}
