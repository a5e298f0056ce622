use ctrmml_lang_core::code_lens::code_lens;

#[test]
fn fm_definition_emits_three_variants() {
    let text = "@1 fm\n3 4\n";
    let lenses = code_lens(text);
    assert_eq!(lenses.len(), 3);
    assert!(lenses.iter().all(|l| l.line == 0));
    let titles: Vec<&str> = lenses.iter().map(|l| l.title.as_str()).collect();
    assert_eq!(
        titles,
        ["$(folder-opened) Load", "$(save) Save", "$(play) FM"]
    );
}

#[test]
fn psg_definition_emits_four_play_variants() {
    let text = "@2 psg 15 14 13\n";
    let lenses = code_lens(text);
    assert_eq!(lenses.len(), 4);
    assert!(lenses
        .iter()
        .all(|l| l.command_id.as_deref() == Some("mml.previewPatch")));
    let titles: Vec<&str> = lenses.iter().map(|l| l.title.as_str()).collect();
    assert_eq!(
        titles,
        [
            "$(play) Square",
            "$(play) Noise mode=0",
            "$(play) Noise mode=1",
            "$(play) Noise mode=2",
        ]
    );
}

#[test]
fn pcm_definition_emits_load_and_play() {
    let text = "@1 pcm \"path.wav\"\n";
    let lenses = code_lens(text);
    let titles: Vec<&str> = lenses.iter().map(|l| l.title.as_str()).collect();
    assert_eq!(titles, ["$(folder-opened) Load", "$(play) pcm"]);
}

#[test]
fn multi_line_header_resolves() {
    let text = "@3\n  fm\n3 4\n";
    let lenses = code_lens(text);
    assert!(!lenses.is_empty());
    assert!(lenses.iter().all(|l| l.line == 0));
}

#[test]
fn track_header_emits_channel_label() {
    let text = "AB t120\n  c d e f\n";
    let lenses = code_lens(text);
    let header_labels: Vec<&str> = lenses
        .iter()
        .filter(|l| l.command_id.is_none())
        .map(|l| l.title.as_str())
        .collect();
    assert_eq!(header_labels, ["FM1, FM2"]);
}

#[test]
fn psg_track_J_labeled_as_noise() {
    let text = "J 'mode 0' c8 d8\n";
    let lenses = code_lens(text);
    let labels: Vec<&str> = lenses
        .iter()
        .filter(|l| l.command_id.is_none())
        .map(|l| l.title.as_str())
        .collect();
    assert_eq!(labels, ["Noise"]);
}

#[test]
fn macro_track_star_32_is_unlabeled() {
    let text = "*32 c4 d4\n";
    let lenses = code_lens(text);
    let labels: Vec<&str> = lenses
        .iter()
        .filter(|l| l.command_id.is_none())
        .map(|l| l.title.as_str())
        .collect();
    assert!(labels.is_empty());
}

#[test]
fn fm_lens_arguments_carry_line_kind_channel_and_number() {
    let lenses = code_lens("A c\n@12 fm\n");
    assert_eq!(lenses.len(), 4);
    assert_eq!(lenses[0].title, "FM1");
    assert_eq!(lenses[0].line, 0);
    assert_eq!(lenses[3].command_id.as_deref(), Some("mml.previewPatch"));
    assert_eq!(lenses[3].arguments, vec!["1", "fm", "A", "12"]);
    assert_eq!(lenses[1].command_id.as_deref(), Some("mml.loadPatch"));
    assert_eq!(lenses[2].command_id.as_deref(), Some("mml.savePatch"));
}

#[test]
fn multi_line_header_needs_keyword_within_three_lines() {
    assert!(code_lens("@3\n;\n\n\n\nfm\n").is_empty());
    let lenses = code_lens("@3 ; lead\n\n  pcm \"a.wav\"\n");
    assert_eq!(lenses.len(), 2);
    assert_eq!(lenses[1].arguments, vec!["0", "pcm", "F", "3"]);
}
