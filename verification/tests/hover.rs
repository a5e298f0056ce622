use ctrmml_lang_core::hover::{hover_at, HoverInfo};

fn span(info: &HoverInfo) -> (u32, u32) {
    (info.start, info.end)
}

#[test]
fn at_number_full_token_range() {
    let info = hover_at("A @1 c", 0, 2).unwrap();
    assert_eq!(span(&info), (2, 4));
    assert!(info.markdown.starts_with("`@<num>`"));
    let info2 = hover_at("A @1 c", 0, 3).unwrap();
    assert_eq!(span(&info2), (2, 4));
}

#[test]
fn at_m_number_full_token_range() {
    let info = hover_at("A @M1 c", 0, 2).unwrap();
    assert_eq!(span(&info), (2, 5));
    assert!(info.markdown.starts_with("`@M<num>`"));
}

#[test]
fn signed_v_picks_signed_variant() {
    let info = hover_at("A V-8 c", 0, 4).unwrap();
    assert!(info.markdown.starts_with("`V<-128..+127>`"));
    assert_eq!(span(&info), (2, 5));
}

#[test]
fn unsigned_v_picks_unsigned_variant() {
    let info = hover_at("A V8 c", 0, 2).unwrap();
    assert!(info.markdown.starts_with("`V<0..127>`"));
}

#[test]
fn signed_p_picks_signed_variant() {
    let info = hover_at("A p+5 c", 0, 4).unwrap();
    assert!(info.markdown.starts_with("`p<-128..127>`"));
    assert_eq!(span(&info), (2, 5));
}

#[test]
fn note_with_dot_covers_full_token() {
    let info = hover_at("g4. c", 0, 0).unwrap();
    assert!(info.markdown.starts_with("`cdefgabh`"));
    assert!(info.markdown.contains("dotted note"));
    assert_eq!(span(&info), (0, 3));
    let info2 = hover_at("g4. c", 0, 2).unwrap();
    assert_eq!(span(&info2), (0, 3));
}

#[test]
fn star_macro_works_mid_line() {
    let info = hover_at("A *32 *33 | c", 0, 7).unwrap();
    assert_eq!(span(&info), (6, 9));
    assert!(info.markdown.starts_with("`A..Z / *<num>`"));
}

#[test]
fn star_macro_works_at_line_start() {
    let info = hover_at("*33 d f a f", 0, 1).unwrap();
    assert_eq!(span(&info), (0, 3));
}

#[test]
fn platform_command_covers_whole_quote() {
    let info = hover_at("A 'mode 1'", 0, 7).unwrap();
    assert_eq!(span(&info), (2, 10));
    assert!(info.markdown.starts_with("`mode <0..2>`"));
}

#[test]
fn platform_command_multi_arg_quote() {
    let info = hover_at("A 'lfo 0 5'", 0, 8).unwrap();
    assert_eq!(span(&info), (2, 11));
    assert!(info.markdown.starts_with("`lfo <0..3> <0..7>`"));
}

#[test]
fn key_signature_covers_whole_underscore_brace() {
    for col in 2..=7 {
        let info = hover_at("A _{+fc} c", 0, col).unwrap_or_else(|| {
            panic!("missing hover at col {col}");
        });
        assert_eq!(span(&info), (2, 8), "col {col}");
        assert!(info.markdown.starts_with("`_{<key signature>}`"));
    }
}

#[test]
fn chord_conditional_braces_still_resolve() {
    let info = hover_at("{a/b/c}", 0, 0).unwrap();
    assert!(info.markdown.starts_with("`{ / }`"));
}

#[test]
fn repeat_block_open_bracket() {
    let info = hover_at("[cdefg]2", 0, 0).unwrap();
    assert!(info.markdown.starts_with("`[ ]`"));
}

#[test]
fn e_and_p_no_longer_resolve() {
    assert!(hover_at("A E5 c", 0, 2).is_none());
    assert!(hover_at("A P5 c", 0, 2).is_none());
}

#[test]
fn fm_operator_field_names_its_operator() {
    let text = "@1 fm\n  4 7\n  31 0 0 0 0 0 0 0 0 0\n  31 0 0 0 0 0 0 0 0 0\n";
    let info = hover_at(text, 3, 2).unwrap();
    assert_eq!(info.markdown, "`OP2 Attack Rate (0..31)`");
    assert_eq!(info.line, 3);
    assert_eq!(span(&info), (2, 4));
}

#[test]
fn fm_header_fields_are_alg_and_fb() {
    let info = hover_at("@1 fm 4 7", 0, 6).unwrap();
    assert_eq!(info.markdown, "`Algorithm (0..7)`");
    assert_eq!(span(&info), (6, 7));
    let fb = hover_at("@1 fm 4 7", 0, 8).unwrap();
    assert_eq!(fb.markdown, "`Feedback (0..7)`");
}

#[test]
fn unindented_numbers_read_as_a_track_line() {
    let text = "@1 fm\n4 7\n31 0 0 0 0 0 0 0 0 0\n";
    assert!(hover_at(text, 2, 0).is_none());
}

#[test]
fn fm_two_field_line_below_header() {
    let info = hover_at("@1 fm\n4 7\n", 1, 2).unwrap();
    assert_eq!(info.markdown, "`Feedback (0..7)`");
    assert_eq!(span(&info), (2, 3));
}

#[test]
fn two_op_fields_skip_the_keyword_digit() {
    let info = hover_at("@2 2op 1 3 5 7 9 11", 0, 7).unwrap();
    assert!(info.markdown.starts_with("`FM Instrument Number`"));
    assert_eq!(span(&info), (7, 8));
}

#[test]
fn psg_loop_marker() {
    let info = hover_at("@3 psg 15 14 | 13", 0, 13).unwrap();
    assert_eq!(
        info.markdown,
        "`PSG envelope loop position`\n\nSet the loop point inside this PSG envelope. Playback jumps back here when the envelope reaches the end."
    );
    assert_eq!(span(&info), (13, 14));
}

#[test]
fn psg_slide_hold_and_volume() {
    let text = "@3 psg\n15>0:8 12:4 9 l:3\n";
    assert!(hover_at(text, 1, 1).unwrap().markdown.starts_with("`PSG envelope slide`"));
    assert!(hover_at(text, 1, 8).unwrap().markdown.starts_with("`PSG envelope hold`"));
    assert!(hover_at(text, 1, 12).unwrap().markdown.starts_with("`PSG envelope volume`"));
    assert!(hover_at(text, 1, 15).unwrap().markdown.starts_with("`PSG envelope default step length`"));
}

#[test]
fn comment_gives_no_hover() {
    assert!(hover_at("A c ; V8", 0, 6).is_none());
}

#[test]
fn pcm_sample_path_hover() {
    let info = hover_at("@3 pcm \"kick.wav\"", 0, 9).unwrap();
    assert_eq!(info.markdown, "**PCM sample path**\n\nRelative to the MML file: `kick.wav`");
    assert_eq!(span(&info), (7, 17));
}

#[test]
fn meta_value_hover() {
    let info = hover_at("#platform mdsdrv", 0, 12).unwrap();
    assert!(info.markdown.starts_with("`mdsdrv`\n\nSimulate the MDSDRV PCM driver."));
    assert_eq!(span(&info), (10, 16));
}

#[test]
fn echo_setup_hover_from_either_byte() {
    let info = hover_at("A c \\=2,3 d", 0, 4).unwrap();
    assert!(info.markdown.starts_with("`\\=<delay>,<volume>`"));
    assert_eq!(span(&info), (4, 6));
    let info2 = hover_at("A c \\=2,3 d", 0, 5).unwrap();
    assert_eq!(span(&info2), (4, 6));
}

#[test]
fn accidental_without_command_doc_gives_no_hover() {
    assert!(hover_at("A c= d", 0, 3).is_none());
}

#[test]
fn line_past_end_gives_no_hover() {
    assert!(hover_at("A c", 3, 0).is_none());
}

#[test]
fn format_hover_escapes_backticks() {
    assert_eq!(ctrmml_lang_core::hover::format_hover("a`b", ""), "`a\\`b`");
    assert_eq!(ctrmml_lang_core::hover::format_hover("x", "body"), "`x`\n\nbody");
}
