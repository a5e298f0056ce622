use ctrmml_lang_core::instrument_preview::{build_preview_mml, extract_instrument_block, ExtractedBlock, InstrumentType};

#[test]
fn extract_simple_fm_block() {
    let text = "@1 fm\n\t31,0,12,7,0,28,0,0,5,0\n\t31,0,2,6,0,0,0,0,2,0\n\nA c\n";
    let block = extract_instrument_block(text, 0, InstrumentType::Fm).unwrap();
    assert_eq!(block.instrument_number, 1);
    assert_eq!(block.start_line, 0);
    assert_eq!(block.end_line, 2);
    assert!(block.mml_text.starts_with("@1 fm"));
    assert!(block.mml_text.contains("31,0,2,6"));
}

#[test]
fn extract_multiline_header_form() {
    let text = "@2\n  fm\n\t31,0,12,7,0,28,0,0,5,0\n\nA c\n";
    let block = extract_instrument_block(text, 0, InstrumentType::Fm).unwrap();
    assert_eq!(block.instrument_number, 2);
    assert_eq!(block.start_line, 0);
    assert!(block.mml_text.contains("\n  fm"));
}

#[test]
fn extract_psg_block() {
    let text = "@3 psg 15 14 13 | 5\n\nA g\n";
    let block = extract_instrument_block(text, 0, InstrumentType::Psg).unwrap();
    assert_eq!(block.instrument_number, 3);
}

#[test]
fn extract_pcm_block() {
    let text = "@4 pcm \"snare.wav\"\n";
    let block = extract_instrument_block(text, 0, InstrumentType::Pcm).unwrap();
    assert_eq!(block.instrument_number, 4);
    assert_eq!(block.instrument_type, InstrumentType::Pcm);
}

#[test]
fn build_preview_for_fm() {
    let text = "#platform megadrive\n\n@1 fm\n\t1 1 1 1\n";
    let block = ExtractedBlock {
        instrument_number: 1,
        instrument_type: InstrumentType::Fm,
        mml_text: "@1 fm\n\t1 1 1 1".to_string(),
        start_line: 2,
        end_line: 3,
    };
    let preview = build_preview_mml(text, &block, "A");
    assert!(preview.starts_with("#platform megadrive\n"));
    assert!(preview.contains("@1 fm\n\t1 1 1 1"));
    assert!(preview
        .trim_end()
        .ends_with("A @1 o4 l8 c r d r e r f r g r a r b r >c r"));
}

#[test]
fn build_preview_for_pcm_uses_short_line() {
    let block = ExtractedBlock {
        instrument_number: 4,
        instrument_type: InstrumentType::Pcm,
        mml_text: "@4 pcm \"snare.wav\"".to_string(),
        start_line: 0,
        end_line: 0,
    };
    let preview = build_preview_mml("@4 pcm \"snare.wav\"\n", &block, "F");
    assert!(preview.contains("F @4 o4 l4 c\n"));
}

#[test]
fn build_preview_defaults_to_megadrive() {
    let block = ExtractedBlock {
        instrument_number: 1,
        instrument_type: InstrumentType::Fm,
        mml_text: "@1 fm".to_string(),
        start_line: 0,
        end_line: 0,
    };
    let preview = build_preview_mml("@1 fm\n", &block, "A");
    assert!(preview.starts_with("#platform megadrive\n"));
}

#[test]
fn build_preview_passes_channel_string_verbatim() {
    let block = ExtractedBlock {
        instrument_number: 2,
        instrument_type: InstrumentType::Psg,
        mml_text: "@2 psg 15".to_string(),
        start_line: 0,
        end_line: 0,
    };
    let preview = build_preview_mml("@2 psg 15\n", &block, "J 'mode 1'");
    assert!(preview.contains("J 'mode 1' @2 o4 l8 c r"));
}

#[test]
fn instrument_type_parse_is_exact() {
    assert_eq!(InstrumentType::parse("fm"), Some(InstrumentType::Fm));
    assert_eq!(InstrumentType::parse("psg"), Some(InstrumentType::Psg));
    assert_eq!(InstrumentType::parse("pcm"), Some(InstrumentType::Pcm));
    assert_eq!(InstrumentType::parse("FM"), None);
    assert_eq!(InstrumentType::parse("fmx"), None);
}

#[test]
fn build_preview_uses_platform_line_value() {
    let block = ExtractedBlock {
        instrument_number: 7,
        instrument_type: InstrumentType::Psg,
        mml_text: "@7 psg 15".to_string(),
        start_line: 2,
        end_line: 2,
    };
    let preview = build_preview_mml("; song\n  #platform   mdsdrv extra\n@7 psg 15\n", &block, "G");
    assert_eq!(
        preview,
        "#platform mdsdrv\n\n@7 psg 15\n\nG @7 o4 l8 c r d r e r f r g r a r b r >c r\n"
    );
}

#[test]
fn extract_joins_block_lines_and_reports_zero_based_lines() {
    let text = "A c\n@12 fm\n\t1 2\n\t3 4\n\n\nB d\n";
    let block = extract_instrument_block(text, 2, InstrumentType::Fm).unwrap();
    assert_eq!(block.instrument_number, 12);
    assert_eq!(block.start_line, 1);
    assert_eq!(block.end_line, 3);
    assert_eq!(block.mml_text, "@12 fm\n\t1 2\n\t3 4");
    assert!(extract_instrument_block(text, 6, InstrumentType::Fm).is_none());
}
