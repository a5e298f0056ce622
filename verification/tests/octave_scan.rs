use ctrmml_lang_core::octave_scan::{channel_scan_ok, scan_channel_context_at, ChannelContext};
use ctrmml_lang_core::string_model::LinesModel;

fn cursor(text: &str) -> (String, u32, u32) {
    let idx = text.find('|').expect("cursor marker `|` missing");
    let mut stripped = String::with_capacity(text.len() - 1);
    stripped.push_str(&text[..idx]);
    stripped.push_str(&text[idx + 1..]);
    let before = &text[..idx];
    let newlines = before.bytes().filter(|&b| b == b'\n').count() as u32;
    let last_nl = before.rfind('\n');
    let col = match last_nl {
        Some(p) => before.len() - p - 1,
        None => before.len(),
    } as u32
        + 1;
    (stripped, newlines + 1, col)
}

fn scan(input: &str, num_channels: usize) -> Vec<i32> {
    let (text, line, col) = cursor(input);
    let model = LinesModel::new(&text.split('\n').collect::<Vec<&str>>());
    scan_channel_context_at(&model, line, col, num_channels, None).octaves
}

fn ctx(input: &str, num_channels: usize) -> ChannelContext {
    let (text, line, col) = cursor(input);
    let model = LinesModel::new(&text.split('\n').collect::<Vec<&str>>());
    scan_channel_context_at(&model, line, col, num_channels, None)
}

#[test]
fn defaults_to_six_with_no_header_or_o() {
    assert_eq!(scan("|", 3), vec![6, 6, 6]);
}

#[test]
fn picks_up_shared_o_command() {
    assert_eq!(scan("A o4 |c", 3), vec![4, 4, 4]);
}

#[test]
fn shared_gt_bumps_all_channels() {
    assert_eq!(scan("A o4 >|c", 3), vec![5, 5, 5]);
}

#[test]
fn gt_inside_branch_affects_only_that_channel() {
    assert_eq!(scan("A o4 {c/e/>g} |", 3), vec![4, 4, 5]);
}

#[test]
fn state_accumulates_across_chord_blocks() {
    assert_eq!(scan("A o4 {f/a/>c} {g/b/d} |", 3), vec![4, 4, 5]);
}

#[test]
fn lt_inside_branch_drops_only_that_channel() {
    assert_eq!(scan("A o5 {c/<e/<g} |", 3), vec![5, 4, 4]);
}

#[test]
fn ignores_content_inside_double_quotes() {
    assert_eq!(scan("A o4 \"oops>>>\" |", 3), vec![4, 4, 4]);
}

#[test]
fn ignores_content_inside_single_quotes() {
    assert_eq!(scan("A o4 'oops>>>' |", 3), vec![4, 4, 4]);
}

#[test]
fn ignores_content_after_semicolon_comment() {
    assert_eq!(scan("A o4 ; >>>\n|", 3), vec![4, 4, 4]);
}

#[test]
fn active_channel_negative_one_outside_brace() {
    assert_eq!(
        ctx("ABC o4 |", 3),
        ChannelContext {
            octaves: vec![4, 4, 4],
            active_channel: -1
        }
    );
}

#[test]
fn active_channel_zero_inside_branch_zero() {
    assert_eq!(
        ctx("ABC o4 {|c/e/g}", 3),
        ChannelContext {
            octaves: vec![4, 4, 4],
            active_channel: 0
        }
    );
}

#[test]
fn active_channel_one_after_first_slash() {
    assert_eq!(
        ctx("ABC o4 {c/|e/g}", 3),
        ChannelContext {
            octaves: vec![4, 4, 4],
            active_channel: 1
        }
    );
}

#[test]
fn reports_third_channel_elevated_in_branch_zero_of_next_chord() {
    assert_eq!(
        ctx("ABC o4 {f/a/>c} {|g}", 3),
        ChannelContext {
            octaves: vec![4, 4, 5],
            active_channel: 0
        }
    );
}

#[test]
fn honors_explicit_track_line_hint() {
    let model = LinesModel::new(&["; header only", "ABC o4", ""]);
    let got = scan_channel_context_at(&model, 3, 1, 3, Some(2));
    assert_eq!(
        got,
        ChannelContext {
            octaves: vec![4, 4, 4],
            active_channel: -1
        }
    );
}

#[test]
fn channel_scan_reports_ordinary_walks_as_in_range() {
    let model = LinesModel::new(&["ABC o4 {c/e/g} >> c"]);
    assert!(channel_scan_ok(&model, 1, 20, 3, None));
}
